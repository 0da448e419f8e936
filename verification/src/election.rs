//! Council elections of departments: candidacy, votes, renouncing and the
//! sequential Phragmén term that turns votes into members and runners-up.
use vstd::prelude::*;
use crate::npos::{phragmen_winners, seq_phragmen, voter_inputs_view, win_ids};
use crate::sorted::{
    binary_search, lemma_insert_sorted, lemma_remove_no_dup, lemma_remove_sorted, strictly_sorted,
};
use std::collections::BTreeMap;

verus! {

/// The maximum votes allowed per voter.
pub const MAXIMUM_VOTE: usize = 16;

/// A department.
pub struct DepartmentDetails {
    pub name: Vec<u8>,
    pub locationid: u128,
    pub details: Vec<u8>,
    pub departmentid: u128,
}

/// A holder of a seat as either a member or a runner-up.
#[derive(PartialEq, Eq, Structural, Clone, Copy, Debug)]
pub struct SeatHolder {
    /// The holder.
    pub who: u64,
    /// The total backing stake.
    pub stake: u64,
    /// The amount of deposit held on-chain.
    pub deposit: u64,
}

/// An active voter.
pub struct Voter {
    /// The candidates being backed.
    pub votes: Vec<u64>,
    /// The weight of the vote.
    pub score: u64,
}

/// A voter as a mathematical value.
pub struct VoterView {
    pub votes: Seq<u64>,
    pub score: u64,
}

impl View for Voter {
    type V = VoterView;

    open spec fn view(&self) -> VoterView {
        VoterView { votes: self.votes@, score: self.score }
    }
}

impl Voter {
    /// A voter backing no one with no weight.
    pub fn default() -> (r: Voter)
        ensures
            r@ == (VoterView { votes: Seq::empty(), score: 0 }),
    {
        Voter { votes: Vec::new(), score: 0 }
    }
}

/// Which seat a renouncing account holds.
#[derive(PartialEq, Eq, Structural, Clone, Copy, Debug)]
pub enum Renouncing {
    /// A member is renouncing.
    Member,
    /// A runner-up is renouncing.
    RunnerUp,
    /// A candidate is renouncing, while the given total number of candidates exists.
    Candidate(u32),
}

/// A change to the reserved balance of an account that a call asks for.
#[derive(PartialEq, Eq, Structural, Clone, Copy, Debug)]
pub enum ReserveChange {
    /// The amount moves from the free to the reserved balance of `who`.
    Reserve { who: u64, amount: u64 },
    /// The amount returns to the free balance of `who`.
    Unreserve { who: u64, amount: u64 },
    /// The amount is taken from the reserved balance of `who`.
    Slash { who: u64, amount: u64 },
}

/// What the pallet reports.
#[derive(PartialEq, Eq, Structural, Clone, Copy, Debug)]
pub enum Event {
    SomethingStored(u32, u64),
    EmptyTerm,
    /// Note that old members and runners-up are also candidates.
    CandidateSlashed { candidate: u64, amount: u64 },
    ElectionError,
    /// A seat holder was slashed by amount by being forcefully removed from the set.
    SeatHolderSlashed { seat_holder: u64, amount: u64 },
    /// Someone has renounced their candidacy.
    Renounced { candidate: u64 },
}

/// Why a call was refused.
#[derive(PartialEq, Eq, Structural, Clone, Copy, Debug)]
pub enum Error {
    NoneValue,
    StorageOverflow,
    EmptyTermError,
    MaximumVotesExceeded,
    NoVotes,
    UnableToVote,
    TooManyVotes,
    InvalidWitnessData,
    DuplicatedCandidate,
    MemberSubmit,
    RunnerUpSubmit,
    InsufficientCandidateFunds,
    NotMember,
    InvalidRenouncing,
}

/// The storage of the pallet, each map keyed by department id.
pub struct Pallet {
    pub something: Option<u32>,
    /// The deposit a candidate reserves.
    pub candidacy_bond: u64,
    /// Candidates and their deposits, sorted by account.
    pub candidates: BTreeMap<u128, Vec<(u64, u64)>>,
    pub desired_members: BTreeMap<u128, u128>,
    pub desired_runners_up: BTreeMap<u128, u128>,
    /// Members, sorted by account.
    pub members: BTreeMap<u128, Vec<SeatHolder>>,
    /// Runners-up, from the worst ranked to the best.
    pub runners_up: BTreeMap<u128, Vec<SeatHolder>>,
    /// Voters and their votes, sorted by voter.
    pub voting: BTreeMap<u128, Vec<(u64, Voter)>>,
    pub events: Vec<Event>,
}

/// Seats wanted for a department unless set.
pub fn DefaultDesiredMembers() -> (r: u128)
    ensures
        r == 2,
{
    2
}

/// Runners-up wanted for a department unless set.
pub fn DefaultDesiredRunnersUp() -> (r: u128)
    ensures
        r == 2,
{
    2
}

/// The accounts of a list of accounts and deposits.
pub open spec fn pair_ids(s: Seq<(u64, u64)>) -> Seq<u64> {
    s.map_values(|p: (u64, u64)| p.0)
}

/// The accounts of a list of seat holders.
pub open spec fn seat_ids(s: Seq<SeatHolder>) -> Seq<u64> {
    s.map_values(|h: SeatHolder| h.who)
}

/// The accounts of a list of voters.
pub open spec fn voter_ids(s: Seq<(u64, Voter)>) -> Seq<u64> {
    s.map_values(|e: (u64, Voter)| e.0)
}

/// Seat holders as accounts and deposits.
pub open spec fn seat_deposits(s: Seq<SeatHolder>) -> Seq<(u64, u64)> {
    s.map_values(|h: SeatHolder| (h.who, h.deposit))
}

/// Candidates, members and runners-up of a department are each without repeats,
/// candidates and members sorted by account, and no account holds two of these roles.
pub open spec fn seats_wf(cands: Seq<(u64, u64)>, members: Seq<SeatHolder>, runners: Seq<SeatHolder>) -> bool {
    &&& strictly_sorted(pair_ids(cands))
    &&& strictly_sorted(seat_ids(members))
    &&& seat_ids(runners).no_duplicates()
    &&& forall|x: u64| !(pair_ids(cands).contains(x) && seat_ids(members).contains(x))
    &&& forall|x: u64| !(pair_ids(cands).contains(x) && seat_ids(runners).contains(x))
    &&& forall|x: u64| !(seat_ids(members).contains(x) && seat_ids(runners).contains(x))
}

/// `x` inserted at `i` keeps `s` strictly increasing: all before are smaller, all after larger.
pub open spec fn sorted_slot(s: Seq<u64>, i: int, x: u64) -> bool {
    &&& 0 <= i <= s.len()
    &&& forall|j: int| 0 <= j < i ==> s[j] < x
    &&& forall|j: int| i <= j < s.len() ==> s[j] > x
}

impl Pallet {
    /// Candidates of department `d`.
    pub open spec fn cands(&self, d: u128) -> Seq<(u64, u64)> {
        if self.candidates@.contains_key(d) {
            self.candidates@[d]@
        } else {
            Seq::empty()
        }
    }

    /// Members of department `d`.
    pub open spec fn members_of(&self, d: u128) -> Seq<SeatHolder> {
        if self.members@.contains_key(d) {
            self.members@[d]@
        } else {
            Seq::empty()
        }
    }

    /// Runners-up of department `d`.
    pub open spec fn runners_of(&self, d: u128) -> Seq<SeatHolder> {
        if self.runners_up@.contains_key(d) {
            self.runners_up@[d]@
        } else {
            Seq::empty()
        }
    }

    /// Voters of department `d`.
    pub open spec fn voters_of(&self, d: u128) -> Seq<(u64, Voter)> {
        if self.voting@.contains_key(d) {
            self.voting@[d]@
        } else {
            Seq::empty()
        }
    }

    /// Seats wanted for department `d`: two unless set.
    pub open spec fn desired_members_of(&self, d: u128) -> u128 {
        if self.desired_members@.contains_key(d) {
            self.desired_members@[d]
        } else {
            2
        }
    }

    /// Runners-up wanted for department `d`: two unless set.
    pub open spec fn desired_runners_up_of(&self, d: u128) -> u128 {
        if self.desired_runners_up@.contains_key(d) {
            self.desired_runners_up@[d]
        } else {
            2
        }
    }

    /// The invariant of department `d`.
    pub open spec fn dept_wf(&self, d: u128) -> bool {
        &&& seats_wf(self.cands(d), self.members_of(d), self.runners_of(d))
        &&& strictly_sorted(voter_ids(self.voters_of(d)))
    }

    /// The invariant of every department.
    pub open spec fn wf(&self) -> bool {
        forall|d: u128| #[trigger] self.dept_wf(d)
    }

    /// Empty storage with the given candidacy bond.
    pub fn new(candidacy_bond: u64) -> (r: Pallet)
        ensures
            r.wf(),
            r.something == None::<u32>,
            r.candidacy_bond == candidacy_bond,
            r.candidates@ == Map::<u128, Vec<(u64, u64)>>::empty(),
            r.desired_members@ == Map::<u128, u128>::empty(),
            r.desired_runners_up@ == Map::<u128, u128>::empty(),
            r.members@ == Map::<u128, Vec<SeatHolder>>::empty(),
            r.runners_up@ == Map::<u128, Vec<SeatHolder>>::empty(),
            r.voting@ == Map::<u128, Vec<(u64, Voter)>>::empty(),
            r.events@ == Seq::<Event>::empty(),
    {
        let r = Pallet {
            something: None,
            candidacy_bond,
            candidates: BTreeMap::new(),
            desired_members: BTreeMap::new(),
            desired_runners_up: BTreeMap::new(),
            members: BTreeMap::new(),
            runners_up: BTreeMap::new(),
            voting: BTreeMap::new(),
            events: Vec::new(),
        };
        assert forall|d: u128| #[trigger] r.dept_wf(d) by {
            assert(pair_ids(r.cands(d)) =~= Seq::<u64>::empty());
            assert(seat_ids(r.members_of(d)) =~= Seq::<u64>::empty());
            assert(seat_ids(r.runners_of(d)) =~= Seq::<u64>::empty());
            assert(voter_ids(r.voters_of(d)) =~= Seq::<u64>::empty());
        }
        r
    }

    /// Seats wanted for department `departmentid`.
    pub fn desired_members_get(&self, departmentid: u128) -> (r: u128)
        ensures
            r == self.desired_members_of(departmentid),
    {
        match self.desired_members.get(&departmentid) {
            Some(v) => *v,
            None => DefaultDesiredMembers(),
        }
    }

    /// Runners-up wanted for department `departmentid`.
    pub fn desired_runners_up_get(&self, departmentid: u128) -> (r: u128)
        ensures
            r == self.desired_runners_up_of(departmentid),
    {
        match self.desired_runners_up.get(&departmentid) {
            Some(v) => *v,
            None => DefaultDesiredRunnersUp(),
        }
    }

    /// The candidates' account ids, sorted.
    pub fn candidate_ids(&self, departmentid: u128) -> (r: Vec<u64>)
        ensures
            r@ == pair_ids(self.cands(departmentid)),
    {
        let mut r: Vec<u64> = Vec::new();
        match self.candidates.get(&departmentid) {
            Some(c) => {
                let mut i: usize = 0;
                while i < c.len()
                    invariant
                        0 <= i <= c@.len(),
                        c@ == self.cands(departmentid),
                        r@ == pair_ids(c@.subrange(0, i as int)),
                    decreases c@.len() - i,
                {
                    r.push(c[i].0);
                    i = i + 1;
                    assert(pair_ids(c@.subrange(0, i as int)) =~= pair_ids(
                        c@.subrange(0, i - 1 as int),
                    ).push(c@[i - 1].0));
                }
                assert(c@.subrange(0, c@.len() as int) =~= c@);
            },
            None => {
                assert(pair_ids(self.cands(departmentid)) =~= Seq::<u64>::empty());
            },
        }
        r
    }

    /// The members' account ids, sorted.
    pub fn members_ids(&self, departmentid: u128) -> (r: Vec<u64>)
        ensures
            r@ == seat_ids(self.members_of(departmentid)),
    {
        match self.members.get(&departmentid) {
            Some(m) => holder_ids(m),
            None => {
                assert(seat_ids(self.members_of(departmentid)) =~= Seq::<u64>::empty());
                Vec::new()
            },
        }
    }

    /// The runners-up's account ids, from the worst ranked to the best.
    pub fn runners_up_ids(&self, departmentid: u128) -> (r: Vec<u64>)
        ensures
            r@ == seat_ids(self.runners_of(departmentid)),
    {
        match self.runners_up.get(&departmentid) {
            Some(m) => holder_ids(m),
            None => {
                assert(seat_ids(self.runners_of(departmentid)) =~= Seq::<u64>::empty());
                Vec::new()
            },
        }
    }

    /// `Ok` if `who` is a candidate, else `Err` with the position it would take.
    pub fn is_candidate(&self, who: u64, departmentid: u128) -> (r: Result<(), usize>)
        requires
            self.wf(),
        ensures
            match r {
                Ok(()) => pair_ids(self.cands(departmentid)).contains(who),
                Err(i) => !pair_ids(self.cands(departmentid)).contains(who) && sorted_slot(
                    pair_ids(self.cands(departmentid)),
                    i as int,
                    who,
                ),
            },
    {
        assert(self.dept_wf(departmentid));
        let ids = self.candidate_ids(departmentid);
        match binary_search(&ids, who) {
            Ok(_) => Ok(()),
            Err(i) => Err(i),
        }
    }

    /// Whether `who` is a member.
    pub fn is_member(&self, who: u64, departmentid: u128) -> (r: bool)
        requires
            self.wf(),
        ensures
            r == seat_ids(self.members_of(departmentid)).contains(who),
    {
        assert(self.dept_wf(departmentid));
        let ids = self.members_ids(departmentid);
        binary_search(&ids, who).is_ok()
    }

    /// Whether `who` is a runner-up.
    pub fn is_runner_up(&self, who: u64, departmentid: u128) -> (r: bool)
        ensures
            r == seat_ids(self.runners_of(departmentid)).contains(who),
    {
        let ids = self.runners_up_ids(departmentid);
        let mut i: usize = 0;
        while i < ids.len()
            invariant
                0 <= i <= ids@.len(),
                ids@ == seat_ids(self.runners_of(departmentid)),
                forall|j: int| 0 <= j < i ==> ids@[j] != who,
            decreases ids@.len() - i,
        {
            if ids[i] == who {
                assert(ids@[i as int] == who);
                return true;
            }
            i = i + 1;
        }
        false
    }

    /// Whether `who` has voted in department `departmentid`.
    pub fn _is_voter(&self, who: u64, departmentid: u128) -> (r: bool)
        ensures
            r == voter_ids(self.voters_of(departmentid)).contains(who),
    {
        let ids = match self.voting.get(&departmentid) {
            Some(vs) => voter_id_list(vs),
            None => Vec::new(),
        };
        assert(ids@ == voter_ids(self.voters_of(departmentid))) by {
            if !self.voting@.contains_key(departmentid) {
                assert(voter_ids(self.voters_of(departmentid)) =~= Seq::<u64>::empty());
            }
        }
        crate::election::contains_id(&ids, who)
    }

    /// Members then runners-up with their deposits: those who stand again in the next term.
    pub fn implicit_candidates_with_deposit(&self, departmentid: u128) -> (r: Vec<(u64, u64)>)
        ensures
            r@ == seat_deposits(self.members_of(departmentid)) + seat_deposits(
                self.runners_of(departmentid),
            ),
    {
        let mut r: Vec<(u64, u64)> = Vec::new();
        let m = match self.members.get(&departmentid) {
            Some(m) => holder_deposits(m),
            None => Vec::new(),
        };
        let n = match self.runners_up.get(&departmentid) {
            Some(n) => holder_deposits(n),
            None => Vec::new(),
        };
        assert(m@ == seat_deposits(self.members_of(departmentid)));
        assert(n@ == seat_deposits(self.runners_of(departmentid)));
        r = m;
        let mut i: usize = 0;
        while i < n.len()
            invariant
                0 <= i <= n@.len(),
                r@ == seat_deposits(self.members_of(departmentid)) + n@.subrange(0, i as int),
            decreases n@.len() - i,
        {
            r.push(n[i]);
            i = i + 1;
            assert(n@.subrange(0, i as int) =~= n@.subrange(0, i - 1 as int).push(n@[i - 1]));
        }
        assert(n@.subrange(0, n@.len() as int) =~= n@);
        r
    }
}

impl Pallet {
    /// `who` votes for `votes` with weight `score` in department `departmentid`,
    /// replacing an earlier vote. There must be between one and `MAXIMUM_VOTE`
    /// votes, and no more than candidates, members and runners-up together.
    pub fn vote(&mut self, who: u64, departmentid: u128, votes: Vec<u64>, score: u64) -> (r: Result<
        (),
        Error,
    >)
        requires
            old(self).wf(),
        ensures
            final(self).wf(),
            ({
                let d = departmentid;
                let allowed = old(self).cands(d).len() + old(self).members_of(d).len() + old(self).runners_of(d).len();
                r == if votes@.len() > MAXIMUM_VOTE {
                    Err(Error::MaximumVotesExceeded)
                } else if votes@.len() == 0 {
                    Err(Error::NoVotes)
                } else if allowed == 0 {
                    Err(Error::UnableToVote)
                } else if votes@.len() > allowed {
                    Err(Error::TooManyVotes)
                } else {
                    Ok(())
                }
            }),
            r.is_err() ==> *final(self) == *old(self),
            r.is_ok() ==> {
                let d = departmentid;
                let old_v = old(self).voters_of(d);
                let entry = (who, Voter { votes, score });
                &&& final(self).voting@ == old(self).voting@.insert(d, final(self).voting@[d])
                &&& exists|i: int|
                    {
                        ||| (0 <= i < old_v.len() && old_v[i].0 == who
                            && final(self).voters_of(d) == old_v.update(i, entry))
                        ||| (!voter_ids(old_v).contains(who) && sorted_slot(voter_ids(old_v), i, who)
                            && final(self).voters_of(d) == old_v.insert(i, entry))
                    }
                &&& *final(self) == (Pallet { voting: final(self).voting, ..*old(self) })
            },
    {
        if votes.len() > MAXIMUM_VOTE {
            return Err(Error::MaximumVotesExceeded);
        }
        if votes.len() == 0 {
            return Err(Error::NoVotes);
        }
        let candidates_count = match self.candidates.get(&departmentid) {
            Some(c) => c.len(),
            None => 0,
        };
        let members_count = match self.members.get(&departmentid) {
            Some(c) => c.len(),
            None => 0,
        };
        let runners_up_count = match self.runners_up.get(&departmentid) {
            Some(c) => c.len(),
            None => 0,
        };
        let allowed_votes = candidates_count.saturating_add(members_count).saturating_add(
            runners_up_count,
        );
        if allowed_votes == 0 {
            return Err(Error::UnableToVote);
        }
        if votes.len() > allowed_votes {
            return Err(Error::TooManyVotes);
        }
        proof {
            assert(old(self).dept_wf(departmentid));
        }
        let ghost old_v = self.voters_of(departmentid);
        let ghost entry = (who, Voter { votes, score });
        let mut vs = match self.voting.remove(&departmentid) {
            Some(v) => v,
            None => Vec::new(),
        };
        assert(vs@ == old_v);
        let ids = voter_id_list(&vs);
        match binary_search(&ids, who) {
            Ok(i) => {
                vs.set(i, (who, Voter { votes, score }));
                proof {
                    assert(voter_ids(vs@) =~= voter_ids(old_v));
                    assert(vs@ == old_v.update(i as int, entry));
                }
            },
            Err(i) => {
                vs.insert(i, (who, Voter { votes, score }));
                proof {
                    lemma_insert_sorted(voter_ids(old_v), i as int, who);
                    assert(voter_ids(vs@) =~= voter_ids(old_v).insert(i as int, who));
                    assert(sorted_slot(voter_ids(old_v), i as int, who));
                    assert(vs@ == old_v.insert(i as int, entry));
                }
            },
        }
        self.voting.insert(departmentid, vs);
        proof {
            assert forall|d: u128| #[trigger] self.dept_wf(d) by {
                assert(old(self).dept_wf(d));
            }
        }
        Ok(())
    }

    /// `who` stands for election in department `departmentid`, where
    /// `candidate_count` is at least the number of candidates and `reserve_ok`
    /// tells whether `who` can reserve the candidacy bond. The candidate is
    /// inserted in account order with the bond as deposit, and the bond is
    /// reserved as the returned change says.
    pub fn submit_candidacy(
        &mut self,
        who: u64,
        departmentid: u128,
        candidate_count: u32,
        reserve_ok: bool,
    ) -> (r: Result<ReserveChange, Error>)
        requires
            old(self).wf(),
        ensures
            final(self).wf(),
            ({
                let d = departmentid;
                r == if (old(self).cands(d).len() as u32) > candidate_count {
                    Err(Error::InvalidWitnessData)
                } else if pair_ids(old(self).cands(d)).contains(who) {
                    Err(Error::DuplicatedCandidate)
                } else if seat_ids(old(self).members_of(d)).contains(who) {
                    Err(Error::MemberSubmit)
                } else if seat_ids(old(self).runners_of(d)).contains(who) {
                    Err(Error::RunnerUpSubmit)
                } else if !reserve_ok {
                    Err(Error::InsufficientCandidateFunds)
                } else {
                    Ok(ReserveChange::Reserve { who, amount: old(self).candidacy_bond })
                }
            }),
            r.is_err() ==> *final(self) == *old(self),
            r.is_ok() ==> {
                let d = departmentid;
                let old_c = old(self).cands(d);
                &&& final(self).candidates@ == old(self).candidates@.insert(
                    d,
                    final(self).candidates@[d],
                )
                &&& exists|i: int|
                    sorted_slot(pair_ids(old_c), i, who) && final(self).cands(d) == old_c.insert(
                        i,
                        (who, old(self).candidacy_bond),
                    )
                &&& *final(self) == (Pallet { candidates: final(self).candidates, ..*old(self) })
            },
    {
        proof {
            assert(old(self).dept_wf(departmentid));
        }
        let actual_count = match self.candidates.get(&departmentid) {
            Some(c) => c.len(),
            None => 0,
        };
        if actual_count as u32 > candidate_count {
            return Err(Error::InvalidWitnessData);
        }
        let index = match self.is_candidate(who, departmentid) {
            Ok(()) => return Err(Error::DuplicatedCandidate),
            Err(i) => i,
        };
        if self.is_member(who, departmentid) {
            return Err(Error::MemberSubmit);
        }
        if self.is_runner_up(who, departmentid) {
            return Err(Error::RunnerUpSubmit);
        }
        if !reserve_ok {
            return Err(Error::InsufficientCandidateFunds);
        }
        let ghost old_c = self.cands(departmentid);
        let bond = self.candidacy_bond;
        let mut c = match self.candidates.remove(&departmentid) {
            Some(c) => c,
            None => Vec::new(),
        };
        assert(c@ == old_c);
        c.insert(index, (who, bond));
        proof {
            lemma_insert_sorted(pair_ids(old_c), index as int, who);
            assert(pair_ids(c@) =~= pair_ids(old_c).insert(index as int, who));
        }
        self.candidates.insert(departmentid, c);
        proof {
            let nc = pair_ids(self.cands(departmentid));
            assert(nc.to_set() == pair_ids(old_c).to_set().insert(who));
            assert forall|x: u64| nc.contains(x) implies x == who || pair_ids(old_c).contains(x) by {
                assert(nc.to_set().contains(x));
            }
            assert forall|d: u128| #[trigger] self.dept_wf(d) by {
                assert(old(self).dept_wf(d));
            }
        }
        Ok(ReserveChange::Reserve { who, amount: bond })
    }
}

impl Pallet {
    /// Stores `something` for `who`.
    pub fn do_something(&mut self, who: u64, something: u32) -> (r: Result<(), Error>)
        requires
            old(self).wf(),
        ensures
            final(self).wf(),
            r == Ok::<(), Error>(()),
            *final(self) == (Pallet {
                something: Some(something),
                events: final(self).events,
                ..*old(self)
            }),
            final(self).events@ == old(self).events@.push(Event::SomethingStored(something, who)),
    {
        let ghost s0 = *self;
        self.something = Some(something);
        self.events.push(Event::SomethingStored(something, who));
        proof {
            assert forall|d: u128| #[trigger] self.dept_wf(d) by {
                assert(s0.dept_wf(d));
            }
        }
        Ok(())
    }

    /// Increments the stored value: `NoneValue` when there is none,
    /// `StorageOverflow` when it is at its maximum.
    pub fn cause_error(&mut self) -> (r: Result<(), Error>)
        requires
            old(self).wf(),
        ensures
            final(self).wf(),
            r == match old(self).something {
                None => Err(Error::NoneValue),
                Some(v) => if v == u32::MAX {
                    Err(Error::StorageOverflow)
                } else {
                    Ok(())
                },
            },
            r.is_err() ==> *final(self) == *old(self),
            r.is_ok() ==> *final(self) == (Pallet {
                something: Some((old(self).something->Some_0 + 1) as u32),
                ..*old(self)
            }),
    {
        let ghost s0 = *self;
        match self.something {
            None => Err(Error::NoneValue),
            Some(old_value) => {
                if old_value == u32::MAX {
                    return Err(Error::StorageOverflow);
                }
                self.something = Some(old_value + 1);
                proof {
                    assert forall|d: u128| #[trigger] self.dept_wf(d) by {
                        assert(s0.dept_wf(d));
                    }
                }
                Ok(())
            },
        }
    }
}

/// The change to the reserve of `who` when it leaves a seat holding `deposit`.
pub open spec fn leaving_change(who: u64, deposit: u64, slash: bool) -> ReserveChange {
    if slash {
        ReserveChange::Slash { who, amount: deposit }
    } else {
        ReserveChange::Unreserve { who, amount: deposit }
    }
}

/// The members `new_mem` and runners-up `new_run` once the member at `i` of
/// `mem` left: the best runner-up, the last of `run`, takes the free seat in
/// id order; without runners-up the seat stays empty.
pub open spec fn seats_after_leaving(
    mem: Seq<SeatHolder>,
    run: Seq<SeatHolder>,
    i: int,
    new_mem: Seq<SeatHolder>,
    new_run: Seq<SeatHolder>,
) -> bool {
    if run.len() == 0 {
        &&& new_mem == mem.remove(i)
        &&& new_run == run
    } else {
        &&& new_run == run.drop_last()
        &&& exists|j: int|
            sorted_slot(seat_ids(mem.remove(i)), j, run.last().who) && new_mem == mem.remove(
                i,
            ).insert(j, run.last())
    }
}

impl Pallet {
    /// Removes the member `who` of department `departmentid`, whose deposit is
    /// slashed or returned as `slash` says, and gives the seat to the best
    /// runner-up, if any.
    pub fn remove_and_replace_member(&mut self, who: u64, slash: bool, departmentid: u128) -> (r:
        Result<ReserveChange, Error>)
        requires
            old(self).wf(),
        ensures
            final(self).wf(),
            !seat_ids(old(self).members_of(departmentid)).contains(who) <==> r.is_err(),
            r.is_err() ==> r == Err::<ReserveChange, Error>(Error::NotMember),
            r.is_err() ==> *final(self) == *old(self),
            r.is_ok() ==> {
                let d = departmentid;
                let mem = old(self).members_of(d);
                let run = old(self).runners_of(d);
                exists|i: int|
                    {
                        &&& 0 <= i < mem.len()
                        &&& mem[i].who == who
                        &&& r == Ok::<ReserveChange, Error>(leaving_change(who, mem[i].deposit, slash))
                        &&& final(self).events@ == if slash {
                            old(self).events@.push(
                                Event::SeatHolderSlashed { seat_holder: who, amount: mem[i].deposit },
                            )
                        } else {
                            old(self).events@
                        }
                        &&& seats_after_leaving(
                            mem,
                            run,
                            i,
                            final(self).members_of(d),
                            final(self).runners_of(d),
                        )
                    }
            },
            r.is_ok() ==> final(self).members@ == old(self).members@.insert(
                departmentid,
                final(self).members@[departmentid],
            ) && final(self).runners_up@ == old(self).runners_up@.insert(
                departmentid,
                final(self).runners_up@[departmentid],
            ) && *final(self) == (Pallet {
                members: final(self).members,
                runners_up: final(self).runners_up,
                events: final(self).events,
                ..*old(self)
            }),
    {
        proof {
            assert(old(self).dept_wf(departmentid));
        }
        let ghost mem = self.members_of(departmentid);
        let ghost run = self.runners_of(departmentid);
        let ids = self.members_ids(departmentid);
        let remove_index = match binary_search(&ids, who) {
            Ok(i) => i,
            Err(_) => return Err(Error::NotMember),
        };
        let mut members = match self.members.remove(&departmentid) {
            Some(v) => v,
            None => Vec::new(),
        };
        assert(members@ == mem);
        let removed = members.remove(remove_index);
        proof {
            lemma_remove_sorted(seat_ids(mem), remove_index as int);
            assert(seat_ids(members@) =~= seat_ids(mem).remove(remove_index as int));
        }
        let change = if slash {
            self.events.push(Event::SeatHolderSlashed { seat_holder: who, amount: removed.deposit });
            ReserveChange::Slash { who, amount: removed.deposit }
        } else {
            ReserveChange::Unreserve { who, amount: removed.deposit }
        };
        let mut runners = match self.runners_up.remove(&departmentid) {
            Some(v) => v,
            None => Vec::new(),
        };
        assert(runners@ == run);
        let popped = runners.pop();
        proof {
            if run.len() > 0 {
                assert(seat_ids(runners@) =~= seat_ids(run).drop_last());
            }
        }
        self.runners_up.insert(departmentid, runners);
        match popped {
            Some(next_best) => {
                proof {
                    assert(seat_ids(run)[run.len() - 1] == next_best.who);
                    assert(seat_ids(run).contains(next_best.who));
                    assert(!seat_ids(mem).contains(next_best.who));
                }
                let mids = holder_ids(&members);
                match binary_search(&mids, next_best.who) {
                    Err(idx) => {
                        let ghost before = members@;
                        members.insert(idx, next_best);
                        proof {
                            lemma_insert_sorted(seat_ids(before), idx as int, next_best.who);
                            assert(seat_ids(members@) =~= seat_ids(before).insert(
                                idx as int,
                                next_best.who,
                            ));
                            assert(sorted_slot(seat_ids(before), idx as int, next_best.who));
                        }
                    },
                    Ok(_) => {},
                }
            },
            None => {},
        }
        self.members.insert(departmentid, members);
        proof {
            let d = departmentid;
            let nm = seat_ids(self.members_of(d));
            let nr = seat_ids(self.runners_of(d));
            let sr = seat_ids(run);
            if run.len() > 0 {
                lemma_remove_no_dup(sr, sr.len() - 1);
                assert(sr.remove(sr.len() - 1) =~= sr.drop_last());
                assert(nm.to_set() == seat_ids(mem).remove(remove_index as int).to_set().insert(
                    run.last().who,
                ));
                assert forall|x: u64| nm.contains(x) implies (x == run.last().who || (seat_ids(
                    mem,
                ).contains(x) && x != who)) by {
                    assert(nm.to_set().contains(x));
                }
            } else {
                assert(nr =~= sr);
            }
            assert forall|dd: u128| #[trigger] self.dept_wf(dd) by {
                assert(old(self).dept_wf(dd));
            }
            assert(mem[remove_index as int].who == who);
            assert(seats_after_leaving(
                mem,
                run,
                remove_index as int,
                self.members_of(d),
                self.runners_of(d),
            ));
        }
        Ok(change)
    }

    /// `who` gives up the seat or candidacy that `renouncing` names in department
    /// `departmentid` and gets its deposit back; a member's seat goes to the best
    /// runner-up.
    pub fn renounce_candidacy(&mut self, who: u64, renouncing: Renouncing, departmentid: u128) -> (r:
        Result<ReserveChange, Error>)
        requires
            old(self).wf(),
        ensures
            final(self).wf(),
            r.is_err() ==> *final(self) == *old(self),
            ({
                let d = departmentid;
                let mem = old(self).members_of(d);
                let run = old(self).runners_of(d);
                let cand = old(self).cands(d);
                match renouncing {
                    Renouncing::Member => {
                        &&& !seat_ids(mem).contains(who) <==> r.is_err()
                        &&& r.is_err() ==> r == Err::<ReserveChange, Error>(
                            Error::InvalidRenouncing,
                        )
                        &&& r.is_ok() ==> exists|i: int|
                            {
                                &&& 0 <= i < mem.len()
                                &&& mem[i].who == who
                                &&& r == Ok::<ReserveChange, Error>(
                                    ReserveChange::Unreserve { who, amount: mem[i].deposit },
                                )
                                &&& seats_after_leaving(
                                    mem,
                                    run,
                                    i,
                                    final(self).members_of(d),
                                    final(self).runners_of(d),
                                )
                            }
                        &&& r.is_ok() ==> final(self).members@ == old(self).members@.insert(
                            d,
                            final(self).members@[d],
                        ) && final(self).runners_up@ == old(self).runners_up@.insert(
                            d,
                            final(self).runners_up@[d],
                        ) && *final(self) == (Pallet {
                            members: final(self).members,
                            runners_up: final(self).runners_up,
                            events: final(self).events,
                            ..*old(self)
                        })
                    },
                    Renouncing::RunnerUp => {
                        &&& !seat_ids(run).contains(who) <==> r.is_err()
                        &&& r.is_err() ==> r == Err::<ReserveChange, Error>(
                            Error::InvalidRenouncing,
                        )
                        &&& r.is_ok() ==> exists|i: int|
                            {
                                &&& 0 <= i < run.len()
                                &&& run[i].who == who
                                &&& r == Ok::<ReserveChange, Error>(
                                    ReserveChange::Unreserve { who, amount: run[i].deposit },
                                )
                                &&& final(self).runners_of(d) == run.remove(i)
                                &&& final(self).runners_up@ == old(self).runners_up@.insert(
                                    d,
                                    final(self).runners_up@[d],
                                )
                                &&& *final(self) == (Pallet {
                                    runners_up: final(self).runners_up,
                                    events: final(self).events,
                                    ..*old(self)
                                })
                            }
                    },
                    Renouncing::Candidate(count) => {
                        &&& (count as int) < (cand.len() as u32) ==> r == Err::<
                            ReserveChange,
                            Error,
                        >(Error::InvalidWitnessData)
                        &&& !((count as int) < (cand.len() as u32)) && !pair_ids(cand).contains(
                            who,
                        ) ==> r == Err::<ReserveChange, Error>(Error::InvalidRenouncing)
                        &&& !((count as int) < (cand.len() as u32)) && pair_ids(cand).contains(
                            who,
                        ) ==> r.is_ok()
                        &&& r.is_ok() ==> exists|i: int|
                            {
                                &&& 0 <= i < cand.len()
                                &&& cand[i].0 == who
                                &&& r == Ok::<ReserveChange, Error>(
                                    ReserveChange::Unreserve { who, amount: cand[i].1 },
                                )
                                &&& final(self).cands(d) == cand.remove(i)
                                &&& final(self).candidates@ == old(self).candidates@.insert(
                                    d,
                                    final(self).candidates@[d],
                                )
                                &&& *final(self) == (Pallet {
                                    candidates: final(self).candidates,
                                    events: final(self).events,
                                    ..*old(self)
                                })
                            }
                    },
                }
            }),
            r.is_ok() ==> final(self).events@ == old(self).events@.push(
                Event::Renounced { candidate: who },
            ),
    {
        proof {
            assert(old(self).dept_wf(departmentid));
        }
        match renouncing {
            Renouncing::Member => {
                let change = match self.remove_and_replace_member(who, false, departmentid) {
                    Ok(c) => c,
                    Err(_) => return Err(Error::InvalidRenouncing),
                };
                let ghost s1 = *self;
                self.events.push(Event::Renounced { candidate: who });
                proof {
                    assert forall|d: u128| #[trigger] self.dept_wf(d) by {
                        assert(s1.dept_wf(d));
                    }
                    let d = departmentid;
                    let mem = old(self).members_of(d);
                    let run = old(self).runners_of(d);
                    let i = choose|i: int|
                        {
                            &&& 0 <= i < mem.len()
                            &&& mem[i].who == who
                            &&& Ok::<ReserveChange, Error>(change) == Ok::<ReserveChange, Error>(
                                leaving_change(who, mem[i].deposit, false),
                            )
                            &&& s1.events@ == old(self).events@
                            &&& seats_after_leaving(
                                mem,
                                run,
                                i,
                                s1.members_of(d),
                                s1.runners_of(d),
                            )
                        };
                    assert(self.members_of(d) == s1.members_of(d));
                    assert(self.runners_of(d) == s1.runners_of(d));
                    assert(seats_after_leaving(
                        mem,
                        run,
                        i,
                        self.members_of(d),
                        self.runners_of(d),
                    ));
                }
                Ok(change)
            },
            Renouncing::RunnerUp => {
                let ghost run = self.runners_of(departmentid);
                let ids = self.runners_up_ids(departmentid);
                let mut index: usize = 0;
                while index < ids.len()
                    invariant
                        0 <= index <= ids@.len(),
                        ids@ == seat_ids(run),
                        forall|j: int| 0 <= j < index ==> ids@[j] != who,
                    ensures
                        0 <= index <= ids@.len(),
                        ids@ == seat_ids(run),
                        forall|j: int| 0 <= j < index ==> ids@[j] != who,
                        index < ids@.len() ==> ids@[index as int] == who,
                    decreases ids@.len() - index,
                {
                    if ids[index] == who {
                        break;
                    }
                    index = index + 1;
                }
                if index == ids.len() {
                    proof {
                        assert forall|j: int| 0 <= j < ids@.len() implies ids@[j] != who by {}
                    }
                    return Err(Error::InvalidRenouncing);
                }
                assert(ids@[index as int] == who);
                let mut runners = match self.runners_up.remove(&departmentid) {
                    Some(v) => v,
                    None => Vec::new(),
                };
                assert(runners@ == run);
                let removed = runners.remove(index);
                proof {
                    lemma_remove_no_dup(seat_ids(run), index as int);
                    assert(seat_ids(runners@) =~= seat_ids(run).remove(index as int));
                }
                self.runners_up.insert(departmentid, runners);
                self.events.push(Event::Renounced { candidate: who });
                proof {
                    assert forall|d: u128| #[trigger] self.dept_wf(d) by {
                        assert(old(self).dept_wf(d));
                    }
                }
                Ok(ReserveChange::Unreserve { who, amount: removed.deposit })
            },
            Renouncing::Candidate(count) => {
                let ghost cand = self.cands(departmentid);
                let len = match self.candidates.get(&departmentid) {
                    Some(c) => c.len(),
                    None => 0,
                };
                if count < len as u32 {
                    return Err(Error::InvalidWitnessData);
                }
                let ids = self.candidate_ids(departmentid);
                let index = match binary_search(&ids, who) {
                    Ok(i) => i,
                    Err(_) => return Err(Error::InvalidRenouncing),
                };
                let mut c = match self.candidates.remove(&departmentid) {
                    Some(v) => v,
                    None => Vec::new(),
                };
                assert(c@ == cand);
                let (_removed, deposit) = c.remove(index);
                proof {
                    lemma_remove_sorted(pair_ids(cand), index as int);
                    assert(pair_ids(c@) =~= pair_ids(cand).remove(index as int));
                }
                self.candidates.insert(departmentid, c);
                self.events.push(Event::Renounced { candidate: who });
                proof {
                    assert forall|d: u128| #[trigger] self.dept_wf(d) by {
                        assert(old(self).dept_wf(d));
                    }
                }
                Ok(ReserveChange::Unreserve { who, amount: deposit })
            },
        }
    }
}

/// A backing stake in the balance type, saturating.
pub open spec fn to_balance(b: u128) -> u64 {
    if b > u64::MAX as u128 {
        u64::MAX
    } else {
        b as u64
    }
}

/// The winners with some backing stake, their stake in the balance type.
pub open spec fn kept_winners(w: Seq<(u64, u128)>) -> Seq<(u64, u64)>
    decreases w.len(),
{
    if w.len() == 0 {
        Seq::empty()
    } else {
        let k = kept_winners(w.drop_last());
        if w.last().1 == 0 {
            k
        } else {
            k.push((w.last().0, to_balance(w.last().1)))
        }
    }
}

/// The deposit recorded for `x`: the first one in `cd`, or zero.
pub open spec fn deposit_of(cd: Seq<(u64, u64)>, x: u64) -> u64
    decreases cd.len(),
{
    if cd.len() == 0 {
        0
    } else if cd[0].0 == x {
        cd[0].1
    } else {
        deposit_of(cd.drop_first(), x)
    }
}

/// The seat of an elected account with its stake.
pub open spec fn seat_of(cd: Seq<(u64, u64)>, p: (u64, u64)) -> SeatHolder {
    SeatHolder { who: p.0, stake: p.1, deposit: deposit_of(cd, p.0) }
}

/// The slashes of those in `cd` who keep no seat.
pub open spec fn losers(cd: Seq<(u64, u64)>, keep: Seq<u64>) -> Seq<ReserveChange>
    decreases cd.len(),
{
    if cd.len() == 0 {
        Seq::empty()
    } else {
        let l = losers(cd.drop_last(), keep);
        if keep.contains(cd.last().0) {
            l
        } else {
            l.push(ReserveChange::Slash { who: cd.last().0, amount: cd.last().1 })
        }
    }
}

/// The events of the slashes of those in `cd` who keep no seat.
pub open spec fn loser_events(cd: Seq<(u64, u64)>, keep: Seq<u64>) -> Seq<Event>
    decreases cd.len(),
{
    if cd.len() == 0 {
        Seq::empty()
    } else {
        let l = loser_events(cd.drop_last(), keep);
        if keep.contains(cd.last().0) {
            l
        } else {
            l.push(Event::CandidateSlashed { candidate: cd.last().0, amount: cd.last().1 })
        }
    }
}

/// `m` holds exactly the seats of the first `split` kept winners, sorted by account.
pub open spec fn elected_members(m: Seq<SeatHolder>, kept: Seq<(u64, u64)>, split: int, cd: Seq<
    (u64, u64),
>) -> bool {
    &&& m.len() == split
    &&& strictly_sorted(seat_ids(m))
    &&& forall|k: int| 0 <= k < split ==> m.contains(#[trigger] seat_of(cd, kept[k]))
    &&& forall|x: int| 0 <= x < m.len() ==> #[trigger] is_first_seat(m[x], kept, split, cd)
}

/// `h` is the seat of one of the first `split` kept winners.
pub open spec fn is_first_seat(h: SeatHolder, kept: Seq<(u64, u64)>, split: int, cd: Seq<(u64, u64)>) -> bool {
    exists|k: int| 0 <= k < split && h == #[trigger] seat_of(cd, kept[k])
}

/// The seats of the kept winners after the first `split`, from the worst ranked to the best.
pub open spec fn elected_runners_up(kept: Seq<(u64, u64)>, split: int, cd: Seq<(u64, u64)>) -> Seq<
    SeatHolder,
> {
    Seq::new((kept.len() - split) as nat, |k: int| seat_of(cd, kept[kept.len() - 1 - k]))
}

/// The accounts of a list of accounts and stakes have no repeats.
pub open spec fn distinct_ids(s: Seq<(u64, u64)>) -> bool {
    forall|a: int, b: int| 0 <= a < s.len() && 0 <= b < s.len() && a != b ==> s[a].0 != s[b].0
}

/// Dropping the winners without backing stake never lengthens the list.
pub proof fn lemma_kept_winners_len(w: Seq<(u64, u128)>)
    ensures
        kept_winners(w).len() <= w.len(),
    decreases w.len(),
{
    if w.len() > 0 {
        lemma_kept_winners_len(w.drop_last());
    }
}

/// The winners with some backing stake.
fn keep_backed(w: &Vec<(u64, u128)>) -> (r: Vec<(u64, u64)>)
    requires
        win_ids(w@).no_duplicates(),
    ensures
        r@ == kept_winners(w@),
        distinct_ids(r@),
{
    let mut r: Vec<(u64, u64)> = Vec::new();
    let mut i: usize = 0;
    while i < w.len()
        invariant
            0 <= i <= w@.len(),
            win_ids(w@).no_duplicates(),
            r@ == kept_winners(w@.subrange(0, i as int)),
            distinct_ids(r@),
            forall|a: int|
                #![trigger r@[a]]
                0 <= a < r@.len() ==> exists|k: int| #![trigger w@[k]] 0 <= k < i && w@[k].0 == r@[a].0,
        decreases w@.len() - i,
    {
        assert(w@.subrange(0, i + 1 as int).drop_last() =~= w@.subrange(0, i as int));
        let (who, b) = w[i];
        if b != 0 {
            let stake: u64 = if b > u64::MAX as u128 {
                u64::MAX
            } else {
                b as u64
            };
            proof {
                assert forall|a: int| 0 <= a < r@.len() implies r@[a].0 != who by {
                    let k = choose|k: int| 0 <= k < i && w@[k].0 == r@[a].0;
                    assert(win_ids(w@)[k] == w@[k].0);
                    assert(win_ids(w@)[i as int] == who);
                }
            }
            r.push((who, stake));
        }
        i = i + 1;
    }
    assert(w@.subrange(0, w@.len() as int) =~= w@);
    r
}

/// The deposit recorded for `x` in `cd`: the first one, or zero.
fn find_deposit(cd: &Vec<(u64, u64)>, x: u64) -> (r: u64)
    ensures
        r == deposit_of(cd@, x),
{
    let mut i: usize = 0;
    assert(cd@.subrange(0, cd@.len() as int) =~= cd@);
    while i < cd.len()
        invariant
            0 <= i <= cd@.len(),
            deposit_of(cd@, x) == deposit_of(cd@.subrange(i as int, cd@.len() as int), x),
        decreases cd@.len() - i,
    {
        let ghost rest = cd@.subrange(i as int, cd@.len() as int);
        if cd[i].0 == x {
            return cd[i].1;
        }
        assert(rest.drop_first() =~= cd@.subrange(i + 1 as int, cd@.len() as int));
        i = i + 1;
    }
    assert(cd@.subrange(i as int, cd@.len() as int) =~= Seq::<(u64, u64)>::empty());
    0
}

/// Whether `x` occurs in `v`.
fn contains_id(v: &Vec<u64>, x: u64) -> (r: bool)
    ensures
        r == v@.contains(x),
{
    let mut i: usize = 0;
    while i < v.len()
        invariant
            0 <= i <= v@.len(),
            forall|j: int| 0 <= j < i ==> v@[j] != x,
        decreases v@.len() - i,
    {
        if v[i] == x {
            assert(v@[i as int] == x);
            return true;
        }
        i = i + 1;
    }
    false
}

/// The seats of the first `split` kept winners, sorted by account.
fn seat_members(kept: &Vec<(u64, u64)>, split: usize, cd: &Vec<(u64, u64)>) -> (r: Vec<SeatHolder>)
    requires
        split <= kept@.len(),
        distinct_ids(kept@),
    ensures
        elected_members(r@, kept@, split as int, cd@),
{
    let mut m: Vec<SeatHolder> = Vec::new();
    let mut j: usize = 0;
    while j < split
        invariant
            0 <= j <= split <= kept@.len(),
            distinct_ids(kept@),
            m@.len() == j,
            strictly_sorted(seat_ids(m@)),
            forall|k: int| 0 <= k < j ==> m@.contains(#[trigger] seat_of(cd@, kept@[k])),
            forall|x: int| 0 <= x < m@.len() ==> #[trigger] is_first_seat(m@[x], kept@, j as int, cd@),
        decreases split - j,
    {
        let h = SeatHolder { who: kept[j].0, stake: kept[j].1, deposit: find_deposit(cd, kept[j].0) };
        assert(h == seat_of(cd@, kept@[j as int]));
        let ids = holder_ids(&m);
        match binary_search(&ids, h.who) {
            Ok(i) => {
                proof {
                    assert(seat_ids(m@)[i as int] == h.who);
                    assert(is_first_seat(m@[i as int], kept@, j as int, cd@));
                    let k = choose|k: int| 0 <= k < j && m@[i as int] == #[trigger] seat_of(cd@, kept@[k]);
                    assert(kept@[k].0 == kept@[j as int].0);
                }
            },
            Err(i) => {
                let ghost before = m@;
                m.insert(i, h);
                proof {
                    lemma_insert_sorted(seat_ids(before), i as int, h.who);
                    assert(seat_ids(m@) =~= seat_ids(before).insert(i as int, h.who));
                    assert forall|k: int| 0 <= k < j + 1 implies m@.contains(
                        #[trigger] seat_of(cd@, kept@[k]),
                    ) by {
                        if k < j {
                            let y = choose|y: int|
                                0 <= y < before.len() && before[y] == seat_of(cd@, kept@[k]);
                            if y < i {
                                assert(m@[y] == before[y]);
                            } else {
                                assert(m@[y + 1] == before[y]);
                            }
                        } else {
                            assert(m@[i as int] == h);
                        }
                    }
                    assert forall|x: int| 0 <= x < m@.len() implies #[trigger] is_first_seat(
                        m@[x],
                        kept@,
                        j + 1,
                        cd@,
                    ) by {
                        if x == i {
                            assert(m@[x] == seat_of(cd@, kept@[j as int]));
                        } else {
                            let y = if x < i { x } else { x - 1 };
                            assert(m@[x] == before[y]);
                            assert(is_first_seat(before[y], kept@, j as int, cd@));
                            let k = choose|k: int| 0 <= k < j && before[y] == #[trigger] seat_of(cd@, kept@[k]);
                            assert(0 <= k < j + 1 && m@[x] == seat_of(cd@, kept@[k]));
                        }
                    }
                }
            },
        }
        j = j + 1;
    }
    m
}

/// The seats of the kept winners after the first `split`, from the worst ranked to the best.
fn seat_runners_up(kept: &Vec<(u64, u64)>, split: usize, cd: &Vec<(u64, u64)>) -> (r: Vec<
    SeatHolder,
>)
    requires
        split <= kept@.len(),
    ensures
        r@ == elected_runners_up(kept@, split as int, cd@),
{
    let mut r: Vec<SeatHolder> = Vec::new();
    let mut i: usize = kept.len();
    while i > split
        invariant
            split <= i <= kept@.len(),
            r@ =~= Seq::new(
                (kept@.len() - i) as nat,
                |k: int| seat_of(cd@, kept@[kept@.len() - 1 - k]),
            ),
        decreases i,
    {
        i = i - 1;
        let h = SeatHolder { who: kept[i].0, stake: kept[i].1, deposit: find_deposit(cd, kept[i].0) };
        r.push(h);
    }
    r
}

/// The slashes and events of those in `cd` whose account is not in `keep`.
fn slash_losers(cd: &Vec<(u64, u64)>, keep: &Vec<u64>) -> (r: (Vec<ReserveChange>, Vec<Event>))
    ensures
        r.0@ == losers(cd@, keep@),
        r.1@ == loser_events(cd@, keep@),
{
    let mut changes: Vec<ReserveChange> = Vec::new();
    let mut events: Vec<Event> = Vec::new();
    let mut i: usize = 0;
    while i < cd.len()
        invariant
            0 <= i <= cd@.len(),
            changes@ == losers(cd@.subrange(0, i as int), keep@),
            events@ == loser_events(cd@.subrange(0, i as int), keep@),
        decreases cd@.len() - i,
    {
        assert(cd@.subrange(0, i + 1 as int).drop_last() =~= cd@.subrange(0, i as int));
        let (c, d) = cd[i];
        if !contains_id(keep, c) {
            changes.push(ReserveChange::Slash { who: c, amount: d });
            events.push(Event::CandidateSlashed { candidate: c, amount: d });
        }
        i = i + 1;
    }
    assert(cd@.subrange(0, cd@.len() as int) =~= cd@);
    (changes, events)
}

/// The accounts of a list of accounts and stakes.
fn pair_id_list(v: &Vec<(u64, u64)>) -> (r: Vec<u64>)
    ensures
        r@ == pair_ids(v@),
{
    let mut r: Vec<u64> = Vec::new();
    let mut i: usize = 0;
    while i < v.len()
        invariant
            0 <= i <= v@.len(),
            r@ == pair_ids(v@.subrange(0, i as int)),
        decreases v@.len() - i,
    {
        r.push(v[i].0);
        i = i + 1;
        assert(pair_ids(v@.subrange(0, i as int)) =~= pair_ids(v@.subrange(0, i - 1 as int)).push(
            v@[i - 1].0,
        ));
    }
    assert(v@.subrange(0, v@.len() as int) =~= v@);
    r
}

impl Pallet {
    /// Installs the term that the election with winners `winners` gives
    /// department `departmentid`, where `cd` lists those who stood with their
    /// deposits: the winners with some backing stake keep a seat, the first
    /// `desired_seats` of them as members sorted by account, the rest as
    /// runners-up from the worst ranked to the best, each with the first
    /// deposit recorded for it; everyone else in `cd` is slashed; the
    /// candidates are cleared.
    pub fn apply_election_result(
        &mut self,
        departmentid: u128,
        cd: &Vec<(u64, u64)>,
        winners: &Vec<(u64, u128)>,
        desired_seats: usize,
    ) -> (r: Vec<ReserveChange>)
        requires
            old(self).wf(),
            win_ids(winners@).no_duplicates(),
        ensures
            final(self).wf(),
            ({
                let d = departmentid;
                let kept = kept_winners(winners@);
                let split = if (desired_seats as int) < kept.len() {
                    desired_seats as int
                } else {
                    kept.len() as int
                };
                &&& r@ == losers(cd@, pair_ids(kept))
                &&& final(self).events@ == old(self).events@ + loser_events(cd@, pair_ids(kept))
                &&& elected_members(final(self).members_of(d), kept, split, cd@)
                &&& final(self).runners_of(d) == elected_runners_up(kept, split, cd@)
                &&& final(self).candidates@ == old(self).candidates@.remove(d)
                &&& final(self).members@ == old(self).members@.insert(d, final(self).members@[d])
                &&& final(self).runners_up@ == old(self).runners_up@.insert(
                    d,
                    final(self).runners_up@[d],
                )
                &&& *final(self) == (Pallet {
                    candidates: final(self).candidates,
                    members: final(self).members,
                    runners_up: final(self).runners_up,
                    events: final(self).events,
                    ..*old(self)
                })
            }),
    {
        let kept = keep_backed(winners);
        let split = if desired_seats < kept.len() {
            desired_seats
        } else {
            kept.len()
        };
        let new_members = seat_members(&kept, split, cd);
        let new_runners_up = seat_runners_up(&kept, split, cd);
        let keep = pair_id_list(&kept);
        let (changes, mut events) = slash_losers(cd, &keep);
        let ghost s0 = *self;
        self.events.append(&mut events);
        self.members.insert(departmentid, new_members);
        self.runners_up.insert(departmentid, new_runners_up);
        self.candidates.remove(&departmentid);
        proof {
            let d = departmentid;
            let kv = kept@;
            let m = self.members_of(d);
            let rn = self.runners_of(d);
            assert(pair_ids(self.cands(d)) =~= Seq::<u64>::empty());
            assert forall|a: int, b: int|
                0 <= a < seat_ids(rn).len() && 0 <= b < seat_ids(rn).len() && a != b implies seat_ids(
                rn,
            )[a] != seat_ids(rn)[b] by {
                assert(rn[a] == seat_of(cd@, kv[kv.len() - 1 - a]));
                assert(rn[b] == seat_of(cd@, kv[kv.len() - 1 - b]));
            }
            assert forall|x: u64| !(seat_ids(m).contains(x) && seat_ids(rn).contains(x)) by {
                if seat_ids(m).contains(x) && seat_ids(rn).contains(x) {
                    let a = choose|a: int| 0 <= a < seat_ids(m).len() && seat_ids(m)[a] == x;
                    let b = choose|b: int| 0 <= b < seat_ids(rn).len() && seat_ids(rn)[b] == x;
                    assert(is_first_seat(m[a], kv, split as int, cd@));
                    let k = choose|k: int| 0 <= k < split && m[a] == #[trigger] seat_of(cd@, kv[k]);
                    assert(rn[b] == seat_of(cd@, kv[kv.len() - 1 - b]));
                    assert(kv[k].0 == kv[kv.len() - 1 - b].0);
                }
            }
            assert forall|dd: u128| #[trigger] self.dept_wf(dd) by {
                assert(s0.dept_wf(dd));
            }
        }
        changes
    }

    /// Runs the election of department `departmentid`: candidates, members and
    /// runners-up stand, voters back them with their scores, and sequential
    /// Phragmén picks as many seats as members and runners-up are wanted. With
    /// no one standing the call fails; when the computation fails the term is
    /// kept and `ElectionError` is reported; otherwise the result is installed.
    pub fn do_phragmen(&mut self, departmentid: u128) -> (r: Result<Vec<ReserveChange>, Error>)
        requires
            old(self).wf(),
            (old(self).desired_members_of(departmentid) as usize) + (old(self).desired_runners_up_of(departmentid) as usize) <= usize::MAX,
        ensures
            final(self).wf(),
            ({
                let d = departmentid;
                let cd = old(self).cands(d) + seat_deposits(old(self).members_of(d)) + seat_deposits(
                    old(self).runners_of(d),
                );
                let ds = old(self).desired_members_of(d) as usize;
                let to_elect = (ds + (old(self).desired_runners_up_of(d) as usize)) as usize;
                let voters = old(self).voters_of(d).map_values(
                    |e: (u64, Voter)| (e.0, e.1.score, e.1.votes@),
                );
                let outcome = phragmen_winners(to_elect, pair_ids(cd), voters);
                &&& cd.len() == 0 ==> r == Err::<Vec<ReserveChange>, Error>(Error::EmptyTermError)
                    && *final(self) == *old(self)
                &&& cd.len() > 0 && outcome is None ==> r is Ok && r->Ok_0@.len() == 0 && *final(self) == (Pallet { events: final(self).events, ..*old(self) }) && final(self).events@
                    == old(self).events@.push(Event::ElectionError)
                &&& cd.len() > 0 && outcome is Some ==> {
                    let kept = kept_winners(outcome->Some_0);
                    let split = if (ds as int) < kept.len() {
                        ds as int
                    } else {
                        kept.len() as int
                    };
                    &&& r is Ok
                    &&& outcome->Some_0.len() <= to_elect
                    &&& final(self).runners_of(d).len() <= old(self).desired_runners_up_of(d)
                    &&& r->Ok_0@ == losers(cd, pair_ids(kept))
                    &&& final(self).events@ == old(self).events@ + loser_events(cd, pair_ids(kept))
                    &&& elected_members(final(self).members_of(d), kept, split, cd)
                    &&& final(self).runners_of(d) == elected_runners_up(kept, split, cd)
                    &&& final(self).candidates@ == old(self).candidates@.remove(d)
                    &&& final(self).members@ == old(self).members@.insert(d, final(self).members@[d])
                    &&& final(self).runners_up@ == old(self).runners_up@.insert(
                        d,
                        final(self).runners_up@[d],
                    )
                    &&& *final(self) == (Pallet {
                        candidates: final(self).candidates,
                        members: final(self).members,
                        runners_up: final(self).runners_up,
                        events: final(self).events,
                        ..*old(self)
                    })
                }
            }),
    {
        proof {
            assert(old(self).dept_wf(departmentid));
        }
        let desired_seats = self.desired_members_get(departmentid) as usize;
        let desired_runners_up = self.desired_runners_up_get(departmentid) as usize;
        let num_to_elect = desired_runners_up + desired_seats;
        let mut candidates_and_deposit: Vec<(u64, u64)> = match self.candidates.get(&departmentid) {
            Some(c) => pair_copy(c),
            None => Vec::new(),
        };
        let mut implicit = self.implicit_candidates_with_deposit(departmentid);
        candidates_and_deposit.append(&mut implicit);
        let ghost cd = candidates_and_deposit@;
        assert(cd =~= self.cands(departmentid) + seat_deposits(self.members_of(departmentid))
            + seat_deposits(self.runners_of(departmentid)));
        if candidates_and_deposit.len() == 0 {
            return Err(Error::EmptyTermError);
        }
        let candidate_ids = pair_id_list(&candidates_and_deposit);
        proof {
            let d = departmentid;
            assert(seat_ids(self.members_of(d)) =~= pair_ids(seat_deposits(self.members_of(d))));
            assert(seat_ids(self.runners_of(d)) =~= pair_ids(seat_deposits(self.runners_of(d))));
            assert(pair_ids(cd) =~= pair_ids(self.cands(d)) + seat_ids(self.members_of(d))
                + seat_ids(self.runners_of(d)));
            crate::sorted::lemma_sorted_no_dup(pair_ids(self.cands(d)));
            crate::sorted::lemma_sorted_no_dup(seat_ids(self.members_of(d)));
            lemma_concat_no_dup(pair_ids(self.cands(d)), seat_ids(self.members_of(d)));
            lemma_concat_no_dup(
                pair_ids(self.cands(d)) + seat_ids(self.members_of(d)),
                seat_ids(self.runners_of(d)),
            );
        }
        let voters = self.voter_inputs(departmentid);
        assert(num_to_elect == (desired_seats + desired_runners_up) as usize);
        match seq_phragmen(num_to_elect, candidate_ids, voters) {
            Some(winners) => {
                proof {
                    lemma_kept_winners_len(winners@);
                }
                let changes = self.apply_election_result(
                    departmentid,
                    &candidates_and_deposit,
                    &winners,
                    desired_seats,
                );
                Ok(changes)
            },
            None => {
                let ghost s1 = *self;
                self.events.push(Event::ElectionError);
                proof {
                    assert forall|dd: u128| #[trigger] self.dept_wf(dd) by {
                        assert(s1.dept_wf(dd));
                    }
                }
                Ok(Vec::new())
            },
        }
    }

    /// The voters of department `departmentid` as election inputs, in account order.
    pub fn voter_inputs(&self, departmentid: u128) -> (r: Vec<(u64, u64, Vec<u64>)>)
        ensures
            voter_inputs_view(r@) == self.voters_of(departmentid).map_values(
                |e: (u64, Voter)| (e.0, e.1.score, e.1.votes@),
            ),
    {
        let mut r: Vec<(u64, u64, Vec<u64>)> = Vec::new();
        match self.voting.get(&departmentid) {
            Some(vs) => {
                let mut i: usize = 0;
                while i < vs.len()
                    invariant
                        0 <= i <= vs@.len(),
                        vs@ == self.voters_of(departmentid),
                        r@.len() == i,
                        forall|k: int|
                            0 <= k < i ==> #[trigger] r@[k].0 == vs@[k].0 && r@[k].1
                                == vs@[k].1.score && r@[k].2@ == vs@[k].1.votes@,
                    decreases vs@.len() - i,
                {
                    let votes = crate::sorted::copy_ids(&vs[i].1.votes);
                    r.push((vs[i].0, vs[i].1.score, votes));
                    i = i + 1;
                }
                assert(voter_inputs_view(r@) =~= self.voters_of(departmentid).map_values(
                    |e: (u64, Voter)| (e.0, e.1.score, e.1.votes@),
                ));
            },
            None => {
                assert(voter_inputs_view(r@) =~= self.voters_of(departmentid).map_values(
                    |e: (u64, Voter)| (e.0, e.1.score, e.1.votes@),
                ));
            },
        }
        r
    }
}

/// Two sequences without repeats and without common items concatenate without repeats.
proof fn lemma_concat_no_dup(a: Seq<u64>, b: Seq<u64>)
    requires
        a.no_duplicates(),
        b.no_duplicates(),
        forall|x: u64| !(a.contains(x) && b.contains(x)),
    ensures
        (a + b).no_duplicates(),
        forall|x: u64| (a + b).contains(x) <==> (a.contains(x) || b.contains(x)),
{
    let c = a + b;
    assert forall|i: int, j: int| 0 <= i < c.len() && 0 <= j < c.len() && i != j implies c[i]
        != c[j] by {
        if i < a.len() && j >= a.len() {
            assert(a.contains(c[i]));
            assert(b[j - a.len()] == c[j]);
            assert(b.contains(c[j]));
        } else if i >= a.len() && j < a.len() {
            assert(a.contains(c[j]));
            assert(b[i - a.len()] == c[i]);
            assert(b.contains(c[i]));
        }
    }
    assert forall|x: u64| c.contains(x) <==> (a.contains(x) || b.contains(x)) by {
        if c.contains(x) {
            let i = choose|i: int| 0 <= i < c.len() && c[i] == x;
            if i < a.len() {
                assert(a[i] == x);
            } else {
                assert(b[i - a.len()] == x);
            }
        }
        if a.contains(x) {
            let i = choose|i: int| 0 <= i < a.len() && a[i] == x;
            assert(c[i] == x);
        }
        if b.contains(x) {
            let i = choose|i: int| 0 <= i < b.len() && b[i] == x;
            assert(c[i + a.len()] == x);
        }
    }
}

/// A copy of a list of accounts and amounts.
fn pair_copy(v: &Vec<(u64, u64)>) -> (r: Vec<(u64, u64)>)
    ensures
        r@ == v@,
{
    let mut r: Vec<(u64, u64)> = Vec::new();
    let mut i: usize = 0;
    while i < v.len()
        invariant
            0 <= i <= v@.len(),
            r@ == v@.subrange(0, i as int),
        decreases v@.len() - i,
    {
        r.push(v[i]);
        i = i + 1;
        assert(r@ =~= v@.subrange(0, i as int));
    }
    assert(r@ =~= v@);
    r
}

/// The accounts of voters.
fn voter_id_list(v: &Vec<(u64, Voter)>) -> (r: Vec<u64>)
    ensures
        r@ == voter_ids(v@),
{
    let mut r: Vec<u64> = Vec::new();
    let mut i: usize = 0;
    while i < v.len()
        invariant
            0 <= i <= v@.len(),
            r@ == voter_ids(v@.subrange(0, i as int)),
        decreases v@.len() - i,
    {
        r.push(v[i].0);
        i = i + 1;
        assert(voter_ids(v@.subrange(0, i as int)) =~= voter_ids(v@.subrange(0, i - 1 as int)).push(
            v@[i - 1].0,
        ));
    }
    assert(v@.subrange(0, v@.len() as int) =~= v@);
    r
}

/// The accounts of seat holders.
fn holder_ids(v: &Vec<SeatHolder>) -> (r: Vec<u64>)
    ensures
        r@ == seat_ids(v@),
{
    let mut r: Vec<u64> = Vec::new();
    let mut i: usize = 0;
    while i < v.len()
        invariant
            0 <= i <= v@.len(),
            r@ == seat_ids(v@.subrange(0, i as int)),
        decreases v@.len() - i,
    {
        r.push(v[i].who);
        i = i + 1;
        assert(seat_ids(v@.subrange(0, i as int)) =~= seat_ids(v@.subrange(0, i - 1 as int)).push(
            v@[i - 1].who,
        ));
    }
    assert(v@.subrange(0, v@.len() as int) =~= v@);
    r
}

/// The accounts and deposits of seat holders.
fn holder_deposits(v: &Vec<SeatHolder>) -> (r: Vec<(u64, u64)>)
    ensures
        r@ == seat_deposits(v@),
{
    let mut r: Vec<(u64, u64)> = Vec::new();
    let mut i: usize = 0;
    while i < v.len()
        invariant
            0 <= i <= v@.len(),
            r@ == seat_deposits(v@.subrange(0, i as int)),
        decreases v@.len() - i,
    {
        r.push((v[i].who, v[i].deposit));
        i = i + 1;
        assert(seat_deposits(v@.subrange(0, i as int)) =~= seat_deposits(
            v@.subrange(0, i - 1 as int),
        ).push((v@[i - 1].who, v@[i - 1].deposit)));
    }
    assert(v@.subrange(0, v@.len() as int) =~= v@);
    r
}

/// A candidacy submitted and then renounced leaves the candidates as they
/// were: the candidate inserted at its place in account order is the one that
/// the renouncing removes.
pub proof fn law_renounce_undoes_submit(cands: Seq<(u64, u64)>, who: u64, bond: u64, i: int, j: int)
    requires
        strictly_sorted(pair_ids(cands)),
        sorted_slot(pair_ids(cands), i, who),
        0 <= j < cands.len() + 1,
        cands.insert(i, (who, bond))[j].0 == who,
    ensures
        cands.insert(i, (who, bond)).remove(j) == cands,
{
    let c2 = cands.insert(i, (who, bond));
    if j < i {
        assert(c2[j] == cands[j]);
        assert(pair_ids(cands)[j] < who);
    } else if j > i {
        assert(c2[j] == cands[j - 1]);
        assert(pair_ids(cands)[j - 1] > who);
    }
    assert(c2.remove(j) =~= cands);
}

} // verus!
