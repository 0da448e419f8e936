//! The phases of the Schelling games that the pallets share, each game under
//! the name of its sum tree.
use vstd::prelude::*;
use crate::sortition_sum_game::{SumTreeKey, SumTreeName};

verus! {

/// The phase a game is in.
#[derive(PartialEq, Eq, Structural, Clone, Copy, Debug)]
pub enum Period {
    /// Evidence can be submitted. This is also when drawing has to take place.
    Evidence,
    /// Stake sum trees can be updated.
    Staking,
    /// Jurors can be drawn.
    Drawing,
    /// Jurors commit a hashed vote.
    Commit,
    /// Jurors reveal their vote.
    Vote,
    /// The dispute can be appealed.
    Appeal,
    /// Tokens are redistributed and the ruling is executed.
    Execution,
}

/// The kind of a game.
#[derive(PartialEq, Eq, Structural, Clone, Copy, Debug)]
pub enum SchellingGameType {
    ProfileApproval,
    ProfileScore,
    ProjectReview,
    PriceDiscovery,
}

/// How long the phases of a game last, in blocks.
#[derive(PartialEq, Eq, Structural, Clone, Copy, Debug)]
pub struct StakingTime {
    pub min_short_block_length: u64,
    pub min_long_block_length: u64,
}

/// How many jurors a game draws.
#[derive(PartialEq, Eq, Structural, Clone, Copy, Debug)]
pub struct DrawJurorsLimit {
    pub max_draws: u64,
    pub max_draws_appeal: u64,
}

/// The state of a vote.
#[derive(PartialEq, Eq, Structural, Clone, Copy, Debug)]
pub enum VoteStatus {
    Commited,
    Revealed,
}

/// A revealed vote of a two choice game.
#[derive(PartialEq, Eq, Structural, Clone, Copy, Debug)]
pub enum RevealedVote {
    Yes,
    No,
}

/// A committed vote of a two choice game.
#[derive(Clone, Copy, Debug)]
pub struct CommitVote {
    pub commit: [u8; 32],
    pub votestatus: VoteStatus,
    pub revealed_vote: Option<RevealedVote>,
}

/// The outcome of a two choice game.
#[derive(PartialEq, Eq, Structural, Clone, Copy, Debug)]
pub enum WinningDecision {
    WinnerYes,
    WinnerNo,
    Draw,
}

/// A committed vote of a score game.
#[derive(Clone, Copy, Debug)]
pub struct ScoreCommitVote {
    pub commit: [u8; 32],
    pub votestatus: VoteStatus,
    pub revealed_vote: Option<i64>,
}

/// The range of the scores of a score game: 0 to 10, -10 to 10, or 0 to 5.
#[derive(PartialEq, Eq, Structural, Clone, Copy, Debug)]
pub enum RangePoint {
    ZeroToTen,
    MinusTenToPlusTen,
    ZeroToFive,
}

/// Why a change of phase was refused.
#[derive(PartialEq, Eq, Structural, Clone, Copy, Debug)]
pub enum Error {
    NoneValue,
    StorageOverflow,
    PeriodExists,
    EvidencePeriodNotOver,
}

/// What is stored under the tree name `k`, the first entry for it.
pub open spec fn lookup<T>(s: Seq<(SumTreeName, T)>, k: SumTreeKey) -> Option<T>
    decreases s.len(),
{
    if s.len() == 0 {
        None
    } else if s[0].0@ == k {
        Some(s[0].1)
    } else {
        lookup(s.drop_first(), k)
    }
}

/// The phase lengths stored for the game type `g`, zero lengths when there are none.
pub open spec fn block_time_of(s: Seq<(SchellingGameType, StakingTime)>, g: SchellingGameType) -> StakingTime
    decreases s.len(),
{
    if s.len() == 0 {
        StakingTime { min_short_block_length: 0, min_long_block_length: 0 }
    } else if s[0].0 == g {
        s[0].1
    } else {
        block_time_of(s.drop_first(), g)
    }
}

proof fn lemma_lookup_push<T>(s: Seq<(SumTreeName, T)>, e: (SumTreeName, T), k: SumTreeKey)
    ensures
        lookup(s.push(e), k) === if lookup(s, k) is Some {
            lookup(s, k)
        } else if e.0@ == k {
            Some(e.1)
        } else {
            None
        },
    decreases s.len(),
{
    let t = s.push(e);
    if s.len() > 0 {
        assert(t[0] == s[0]);
        assert(t.drop_first() =~= s.drop_first().push(e));
        lemma_lookup_push(s.drop_first(), e, k);
        if s[0].0@ == k {
            assert(lookup(t, k) === Some(s[0].1));
            assert(lookup(s, k) === Some(s[0].1));
        } else {
            assert(lookup(t, k) === lookup(t.drop_first(), k));
            assert(lookup(s, k) === lookup(s.drop_first(), k));
        }
    } else {
        assert(t[0] == e);
        assert(t.drop_first() =~= Seq::<(SumTreeName, T)>::empty());
        assert(lookup(t.drop_first(), k) === None);
        assert(lookup(s, k) === None);
    }
}

proof fn lemma_lookup_update<T>(s: Seq<(SumTreeName, T)>, i: int, v: T, k: SumTreeKey)
    requires
        0 <= i < s.len(),
        forall|j: int| 0 <= j < i ==> s[j].0@ != s[i].0@,
    ensures
        lookup(s.update(i, (s[i].0, v)), k) === if k == s[i].0@ {
            Some(v)
        } else {
            lookup(s, k)
        },
    decreases s.len(),
{
    let t = s.update(i, (s[i].0, v));
    if i > 0 {
        assert(t[0] == s[0]);
        assert(s[0].0@ != s[i].0@);
        assert(t.drop_first() =~= s.drop_first().update(i - 1, (s[i].0, v)));
        lemma_lookup_update(s.drop_first(), i - 1, v, k);
    } else {
        assert(t[0] == (s[0].0, v));
        assert(t.drop_first() =~= s.drop_first());
    }
}

/// Position of the first entry stored under `key`.
fn find_index<T>(v: &Vec<(SumTreeName, T)>, key: &SumTreeName) -> (r: Option<usize>)
    ensures
        match r {
            Some(i) => i < v@.len() && v@[i as int].0@ == key@ && (forall|j: int|
                0 <= j < i ==> v@[j].0@ != key@) && lookup(v@, key@) == Some(v@[i as int].1),
            None => lookup(v@, key@) is None,
        },
{
    let mut i: usize = 0;
    assert(v@.subrange(0, v@.len() as int) =~= v@);
    while i < v.len()
        invariant
            0 <= i <= v@.len(),
            forall|j: int| 0 <= j < i ==> v@[j].0@ != key@,
            lookup(v@, key@) == lookup(v@.subrange(i as int, v@.len() as int), key@),
        decreases v@.len() - i,
    {
        let ghost rest = v@.subrange(i as int, v@.len() as int);
        if v[i].0.same_as(key) {
            return Some(i);
        }
        assert(rest.drop_first() =~= v@.subrange(i + 1 as int, v@.len() as int));
        i = i + 1;
    }
    assert(v@.subrange(i as int, v@.len() as int) =~= Seq::<(SumTreeName, T)>::empty());
    None
}

/// Stores `val` under `key`, in place of what was stored under it.
fn store<T>(v: &mut Vec<(SumTreeName, T)>, key: SumTreeName, val: T)
    ensures
        forall|k: SumTreeKey| #[trigger] lookup(final(v)@, k) == if k == key@ {
            Some(val)
        } else {
            lookup(old(v)@, k)
        },
{
    match find_index(v, &key) {
        Some(i) => {
            let ghost s = v@;
            let ghost name = v@[i as int].0;
            v.set(i, (key, val));
            proof {
                assert forall|k: SumTreeKey| #[trigger] lookup(v@, k) == if k == key@ {
                    Some(val)
                } else {
                    lookup(s, k)
                } by {
                    lemma_lookup_update(s, i as int, val, k);
                    lemma_lookup_any_key(s.update(i as int, (name, val)), v@, k);
                }
            }
        },
        None => {
            let ghost s = v@;
            v.push((key, val));
            proof {
                assert forall|k: SumTreeKey| #[trigger] lookup(v@, k) == if k == key@ {
                    Some(val)
                } else {
                    lookup(s, k)
                } by {
                    lemma_lookup_push(s, v@.last(), k);
                    assert(s.push(v@.last()) =~= v@);
                }
            }
        },
    }
}

/// Entries whose names have the same views look up alike.
proof fn lemma_lookup_any_key<T>(s: Seq<(SumTreeName, T)>, t: Seq<(SumTreeName, T)>, k: SumTreeKey)
    requires
        s.len() == t.len(),
        forall|j: int| 0 <= j < s.len() ==> s[j].0@ == t[j].0@ && s[j].1 == t[j].1,
    ensures
        lookup(s, k) == lookup(t, k),
    decreases s.len(),
{
    if s.len() > 0 {
        lemma_lookup_any_key(s.drop_first(), t.drop_first(), k);
    }
}

/// The phase lengths stored for a game type.
fn find_block_time(v: &Vec<(SchellingGameType, StakingTime)>, g: SchellingGameType) -> (r: StakingTime)
    ensures
        r == block_time_of(v@, g),
{
    let mut i: usize = 0;
    assert(v@.subrange(0, v@.len() as int) =~= v@);
    while i < v.len()
        invariant
            0 <= i <= v@.len(),
            block_time_of(v@, g) == block_time_of(v@.subrange(i as int, v@.len() as int), g),
        decreases v@.len() - i,
    {
        let ghost rest = v@.subrange(i as int, v@.len() as int);
        if v[i].0 == g {
            return v[i].1;
        }
        assert(rest.drop_first() =~= v@.subrange(i + 1 as int, v@.len() as int));
        i = i + 1;
    }
    StakingTime { min_short_block_length: 0, min_long_block_length: 0 }
}

/// The phases of all games.
pub struct Pallet {
    pub period_name: Vec<(SumTreeName, Period)>,
    pub evidence_start_time: Vec<(SumTreeName, u64)>,
    pub staking_start_time: Vec<(SumTreeName, u64)>,
    pub min_block_time: Vec<(SchellingGameType, StakingTime)>,
}

impl Pallet {
    /// No game yet, with the given phase lengths per game type.
    pub fn new(min_block_time: Vec<(SchellingGameType, StakingTime)>) -> (r: Pallet)
        ensures
            r.period_name@ == Seq::<(SumTreeName, Period)>::empty(),
            r.evidence_start_time@ == Seq::<(SumTreeName, u64)>::empty(),
            r.staking_start_time@ == Seq::<(SumTreeName, u64)>::empty(),
            r.min_block_time@ == min_block_time@,
    {
        Pallet {
            period_name: Vec::new(),
            evidence_start_time: Vec::new(),
            staking_start_time: Vec::new(),
            min_block_time,
        }
    }

    /// The phase of the game `key`, if it has started.
    pub fn get_period(&self, key: &SumTreeName) -> (r: Option<Period>)
        ensures
            r == lookup(self.period_name@, key@),
    {
        match find_index(&self.period_name, key) {
            Some(i) => Some(self.period_name[i].1),
            None => None,
        }
    }

    /// Starts the game `key` in its evidence phase at block `now`; a game that
    /// has a phase already is refused.
    pub fn set_to_evidence_period(&mut self, key: SumTreeName, now: u64) -> (r: Result<(), Error>)
        ensures
            r == if lookup(old(self).period_name@, key@) is Some {
                Err(Error::PeriodExists)
            } else {
                Ok(())
            },
            r.is_err() ==> *final(self) == *old(self),
            r.is_ok() ==> {
                &&& forall|k: SumTreeKey| #[trigger] lookup(final(self).period_name@, k) == if k == key@ {
                    Some(Period::Evidence)
                } else {
                    lookup(old(self).period_name@, k)
                }
                &&& forall|k: SumTreeKey| #[trigger] lookup(final(self).evidence_start_time@, k) == if k
                    == key@ {
                    Some(now)
                } else {
                    lookup(old(self).evidence_start_time@, k)
                }
                &&& final(self).staking_start_time == old(self).staking_start_time
                &&& final(self).min_block_time == old(self).min_block_time
            },
    {
        if let Some(_period) = self.get_period(&key) {
            return Err(Error::PeriodExists);
        }
        let key2 = key.copy();
        store(&mut self.period_name, key, Period::Evidence);
        store(&mut self.evidence_start_time, key2, now);
        Ok(())
    }

    /// Moves the game `key` from its evidence phase to staking at block `now`,
    /// which must be at least the short phase length of its game type after
    /// `evidence_stake_block_number`; a game in another phase is left as it is.
    pub fn set_to_staking_period(
        &mut self,
        key: SumTreeName,
        game_type: SchellingGameType,
        evidence_stake_block_number: u64,
        now: u64,
    ) -> (r: Result<(), Error>)
        requires
            lookup(old(self).period_name@, key@) == Some(Period::Evidence) ==> now
                >= evidence_stake_block_number,
        ensures
            ({
                let evidence = lookup(old(self).period_name@, key@) == Some(Period::Evidence);
                let over = now - evidence_stake_block_number >= block_time_of(
                    old(self).min_block_time@,
                    game_type,
                ).min_short_block_length;
                &&& r == if evidence && !over {
                    Err(Error::EvidencePeriodNotOver)
                } else {
                    Ok(())
                }
                &&& !(evidence && over) ==> *final(self) == *old(self)
                &&& evidence && over ==> {
                    &&& forall|k: SumTreeKey| #[trigger] lookup(final(self).period_name@, k) == if k == key@ {
                        Some(Period::Staking)
                    } else {
                        lookup(old(self).period_name@, k)
                    }
                    &&& forall|k: SumTreeKey| #[trigger] lookup(final(self).staking_start_time@, k) == if k
                        == key@ {
                        Some(now)
                    } else {
                        lookup(old(self).staking_start_time@, k)
                    }
                    &&& final(self).evidence_start_time == old(self).evidence_start_time
                    &&& final(self).min_block_time == old(self).min_block_time
                }
            }),
    {
        if let Some(Period::Evidence) = self.get_period(&key) {
            let time = now - evidence_stake_block_number;
            let block_time = find_block_time(&self.min_block_time, game_type);
            if time < block_time.min_short_block_length {
                return Err(Error::EvidencePeriodNotOver);
            }
            let key2 = key.copy();
            store(&mut self.period_name, key, Period::Staking);
            store(&mut self.staking_start_time, key2, now);
        }
        Ok(())
    }
}

/// A game starts once: after its evidence phase is set, setting it again is
/// refused with `PeriodExists`, as for any game that has a phase.
pub proof fn law_evidence_period_set_once(
    periods: Seq<(SumTreeName, Period)>,
    after: Seq<(SumTreeName, Period)>,
    key: SumTreeKey,
)
    requires
        forall|k: SumTreeKey| #[trigger] lookup(after, k) == if k == key {
            Some(Period::Evidence)
        } else {
            lookup(periods, k)
        },
    ensures
        lookup(after, key) is Some,
{
    assert(lookup(after, key) == Some(Period::Evidence));
}

} // verus!
