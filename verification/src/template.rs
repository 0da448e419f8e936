//! Citizen profiles validated by a Schelling game: a profile is funded, may be
//! challenged, jurors stake and are drawn from a sortition sum tree, commit
//! hashed votes and reveal them.
use vstd::prelude::*;
use std::collections::BTreeMap;
use crate::bytes::copy_bytes;
use crate::hashing::{encode_u64, keccak_256, keccak_256_of, le_bytes};
use crate::sortition_sum_game::{Error as TreeError, SortitionSumTrees, SumTreeKey, SumTreeName};
use crate::sortition_sum_tree::SortitionSumTree;
use crate::sorted::{binary_search, contains_sorted, lemma_insert_sorted, strictly_sorted};

verus! {

broadcast use vstd::std_specs::btree::group_btree_axioms;

/// Department of the council.
pub struct DepartmentDetails {
    pub name: Vec<u8>,
    pub location: Vec<u8>,
    pub details: Vec<u8>,
    pub departmentid: u128,
}

/// A registered citizen: profile hash, citizen id and account.
pub struct CitizenDetails {
    pub profile_hash: Vec<u8>,
    pub citizenid: u128,
    pub accountid: u64,
}

/// The deposit that funds the validation of a profile.
#[derive(PartialEq, Eq, Structural, Clone, Copy, Debug)]
pub struct ProfileFundInfo {
    pub deposit: u64,
    pub start: u64,
    pub validated: bool,
    pub reapply: bool,
}

/// The deposit of whoever challenges a profile.
#[derive(PartialEq, Eq, Structural, Clone, Copy, Debug)]
pub struct ChallengerFundInfo {
    pub challengerid: u64,
    pub deposit: u64,
    pub start: u64,
    pub challenge_completed: bool,
}

/// What a Schelling game decides.
#[derive(PartialEq, Eq, Structural, Clone, Copy, Debug)]
pub enum SchellingType {
    ProfileApproval { citizen_id: u128 },
}

/// A stake in a Schelling game.
#[derive(PartialEq, Eq, Structural, Clone, Copy, Debug)]
pub struct StakeDetails {
    pub stake: u64,
}

/// The phases of a game.
#[derive(PartialEq, Eq, Structural, Clone, Copy, Debug)]
pub enum Period {
    Evidence,
    Staking,
    Commit,
    Vote,
    Appeal,
    Drawing,
    Execution,
}

/// How many jurors are drawn.
#[derive(PartialEq, Eq, Structural, Clone, Copy, Debug)]
pub struct DrawJurorsForProfileLimit {
    pub max_draws: u64,
    pub max_draws_appeal: u64,
}

/// Minimum lengths, in blocks, of the challenge time and of the later periods.
#[derive(PartialEq, Eq, Structural, Clone, Copy, Debug)]
pub struct StakingTime {
    pub min_challenge_time: u64,
    pub min_block_length: u64,
}

/// Whether a juror's vote is still hidden.
#[derive(PartialEq, Eq, Structural, Clone, Copy, Debug)]
pub enum VoteStatus {
    Commited,
    Revealed,
}

/// A juror's committed vote.
#[derive(PartialEq, Eq, Clone, Copy, Debug)]
pub struct CommitVote {
    pub commit: [u8; 32],
    pub votestatus: VoteStatus,
    pub vote_revealed: Option<u8>,
}

/// Accounts that funds move between: a signed account, or one of the two
/// accounts the pallet holds deposits and stakes in.
#[derive(PartialEq, Eq, Structural, Clone, Copy, Debug)]
pub enum Account {
    Signed(u64),
    ProfileFund,
    JurorStake,
}

/// A movement of funds that a successful call asks for.
#[derive(PartialEq, Eq, Structural, Clone, Copy, Debug)]
pub struct Transfer {
    pub from: Account,
    pub to: Account,
    pub amount: u64,
}

/// What the pallet reports.
#[derive(Debug)]
pub enum Event {
    SomethingStored(u32, u64),
    RandomNumber(u64, u64),
    CreateCitizen(u64, Vec<u8>),
}

/// Why a call was refused.
#[derive(PartialEq, Eq, Structural, Clone, Copy, Debug)]
pub enum Error {
    NoneValue,
    StorageOverflow,
    InvalidIndex,
    FailedUnwrap,
    DepartmentExists,
    DepartmentDoNotExists,
    DepartmentNotAssociated,
    ProfileExists,
    ProfileFundExists,
    ChallegerFundInfoExists,
    ProfileFundNotExists,
    NomineeExists,
    CitizenDoNotExists,
    ProfileIsAlreadyValidated,
    AlreadyCommitUsed,
    VoteAlreadyRevealed,
    VoteCommitNotPresent,
    CommitVoteMismatch,
    ProfileNotFunded,
    ProfileValidationOver,
    AlreadyStaked,
    ApplyJurorTimeNotEnded,
    KMustGreaterThanOne,
    TreeAlreadyExists,
    TreeDoesnotExist,
    PeriodExists,
    PeriodDoesNotExists,
    ChallengerFundDoesNotExists,
    PeriodDontMatch,
    StakeLessThanMin,
    MaxDrawExceeded,
    StakingPeriodNotOver,
    EvidencePeriodNotOver,
    MaxJurorNotDrawn,
    JurorDoesNotExists,
    CommitDoesNotExists,
    CommitDoesNotMatch,
    CommitPeriodNotOver,
    VotePeriodNotOver,
    VoteStatusNotCommited,
    NotValidChoice,
    StakeDoesNotExists,
    AlreadyUnstaked,
    /// The payer's account could not pay the amount asked for.
    WithdrawFailed,
}

/// The bytes of the name of the challenge game of a profile.
pub open spec fn challenge_profile_name() -> Seq<u8> {
    seq![99u8, 104, 97, 108, 108, 101, 110, 103, 101, 112, 114, 111, 102, 105, 108, 101]
}

/// The sum tree name of the challenge game of `citizen_id`.
pub open spec fn challenge_key(citizen_id: u128) -> SumTreeKey {
    SumTreeKey::UniqueIdenfier1 { citizen_id, name: challenge_profile_name() }
}

/// The sum tree name of the challenge game of `citizen_id`.
pub fn challenge_profile_key(citizen_id: u128) -> (r: SumTreeName)
    ensures
        r@ == challenge_key(citizen_id),
{
    let name: Vec<u8> = vec![99u8, 104, 97, 108, 108, 101, 110, 103, 101, 112, 114, 111, 102, 105, 108, 101];
    let r = SumTreeName::UniqueIdenfier1 { citizen_id, name };
    assert(name@ =~= challenge_profile_name());
    r
}

impl Pallet {
    /// Balances are `u64` already.
    pub fn balance_to_u64_saturated(input: u64) -> (r: u64)
        ensures
            r == input,
    {
        input
    }

    /// Balances are `u64` already.
    pub fn u64_to_balance_saturated(input: u64) -> (r: u64)
        ensures
            r == input,
    {
        input
    }

    /// A block number in `u32`, saturated.
    pub fn block_number_to_u32_saturated(input: u64) -> (r: u32)
        ensures
            r == saturate_u32(input),
    {
        if input > u32::MAX as u64 {
            u32::MAX
        } else {
            input as u32
        }
    }
}

/// Whether two digests are equal.
fn bytes32_equal(a: &[u8; 32], b: &[u8; 32]) -> (r: bool)
    ensures
        r == (a@ == b@),
{
    let mut i: usize = 0;
    while i < 32
        invariant
            a@.len() == 32,
            b@.len() == 32,
            0 <= i <= 32,
            forall|j: int| 0 <= j < i ==> a@[j] == b@[j],
        decreases 32 - i,
    {
        if a[i] != b[i] {
            return false;
        }
        i = i + 1;
    }
    assert(a@ =~= b@);
    true
}

/// `m[k]`, or zero when `k` is absent.
pub open spec fn or_zero_u64(m: Map<u128, u64>, k: u128) -> u64 {
    if m.contains_key(k) {
        m[k]
    } else {
        0
    }
}

/// `m[k]`, or zero when `k` is absent.
pub open spec fn or_zero_u128(m: Map<u128, u128>, k: u128) -> u128 {
    if m.contains_key(k) {
        m[k]
    } else {
        0
    }
}

/// `m[k]`, or the empty sequence when `k` is absent.
pub open spec fn or_empty(m: Map<u128, Vec<u64>>, k: u128) -> Seq<u64> {
    if m.contains_key(k) {
        m[k]@
    } else {
        Seq::empty()
    }
}

/// `m[k]`, or `(0, 0)` when `k` is absent.
pub open spec fn or_zero_pair(m: Map<u128, (u64, u64)>, k: u128) -> (u64, u64) {
    if m.contains_key(k) {
        m[k]
    } else {
        (0, 0)
    }
}

fn get_u64(m: &BTreeMap<u128, u64>, k: u128) -> (r: u64)
    ensures
        r == or_zero_u64(m@, k),
{
    match m.get(&k) {
        Some(v) => *v,
        None => 0,
    }
}

fn get_u128(m: &BTreeMap<u128, u128>, k: u128) -> (r: u128)
    ensures
        r == or_zero_u128(m@, k),
{
    match m.get(&k) {
        Some(v) => *v,
        None => 0,
    }
}

fn get_pair(m: &BTreeMap<u128, (u64, u64)>, k: u128) -> (r: (u64, u64))
    ensures
        r == or_zero_pair(m@, k),
{
    match m.get(&k) {
        Some(v) => *v,
        None => (0, 0),
    }
}

fn get_accounts(m: &BTreeMap<u128, Vec<u64>>, k: u128) -> (r: Vec<u64>)
    ensures
        r@ == or_empty(m@, k),
{
    match m.get(&k) {
        Some(v) => v.clone(),
        None => Vec::new(),
    }
}

/// The storage of the pallet.
pub struct Pallet {
    pub something: Option<u32>,
    pub nonce: u64,
    pub citizen_count: u128,
    pub citizen_id: BTreeMap<u64, u128>,
    pub citizen_profile: BTreeMap<u128, CitizenDetails>,
    pub registration_fee: u64,
    pub registration_challenge_fee: u64,
    pub profile_fund_details: BTreeMap<u128, ProfileFundInfo>,
    pub challenger_fund_details: BTreeMap<u128, ChallengerFundInfo>,
    pub sortition_sum_trees: SortitionSumTrees,
    pub period_name: BTreeMap<u128, Period>,
    pub min_block_time: StakingTime,
    pub min_juror_stake: u64,
    pub draws_in_round: BTreeMap<u128, u128>,
    pub staking_start_time: BTreeMap<u128, u64>,
    pub commit_start_time: BTreeMap<u128, u64>,
    pub vote_start_time: BTreeMap<u128, u64>,
    pub drawn_jurors: BTreeMap<u128, Vec<u64>>,
    pub unstaked_jurors: BTreeMap<u128, Vec<u64>>,
    pub draw_jurors_for_profile_limit: DrawJurorsForProfileLimit,
    pub vote_commits: BTreeMap<(u128, u64), CommitVote>,
    pub decision_count: BTreeMap<u128, (u64, u64)>,
    /// Ids of the evidence filed against each profile, in storage order.
    pub challenger_evidence_id: BTreeMap<u128, Vec<u128>>,
    pub events: Vec<Event>,
}

/// Registration fee of a profile.
pub fn DefaultRegistrationFee() -> (r: u64)
    ensures
        r == 1000,
{
    1000
}

/// Fee to challenge a profile.
pub fn DefaultRegistrationChallengeFee() -> (r: u64)
    ensures
        r == 100,
{
    100
}

/// Three days to challenge, ten days for each later period.
pub fn DefaultMinBlockTime() -> (r: StakingTime)
    ensures
        r == (StakingTime { min_challenge_time: 43200, min_block_length: 144000 }),
{
    let staking_time = StakingTime { min_challenge_time: 43200, min_block_length: 144000 };
    staking_time
}

/// Minimum stake of a juror.
pub fn DefaultMinStake() -> (r: u64)
    ensures
        r == 100,
{
    100
}

/// Five jurors per game, sixty on appeal.
pub fn DefaultDrawJurorsForProfileLimit() -> (r: DrawJurorsForProfileLimit)
    ensures
        r == (DrawJurorsForProfileLimit { max_draws: 5, max_draws_appeal: 60 }),
{
    let draw_juror_limit = DrawJurorsForProfileLimit { max_draws: 5, max_draws_appeal: 60 };
    draw_juror_limit
}

/// The winner of a two-choice vote: 1 or 0 by majority, 2 on a tie.
pub open spec fn winning_decision(decision_tuple: (u64, u64)) -> u8 {
    if decision_tuple.1 > decision_tuple.0 {
        1
    } else if decision_tuple.0 > decision_tuple.1 {
        0
    } else {
        2
    }
}

/// A two-choice vote goes to the choice revealed strictly more often, and is a
/// draw (2) exactly when both choices were revealed equally often.
pub proof fn law_winning_decision_majority(decision_tuple: (u64, u64))
    ensures
        winning_decision(decision_tuple) == 1 <==> decision_tuple.1 > decision_tuple.0,
        winning_decision(decision_tuple) == 0 <==> decision_tuple.0 > decision_tuple.1,
        winning_decision(decision_tuple) == 2 <==> decision_tuple.0 == decision_tuple.1,
        winning_decision(decision_tuple) <= 2,
{
}

/// `input` in `u32`, saturated.
pub open spec fn saturate_u32(input: u64) -> u32 {
    if input > u32::MAX {
        u32::MAX
    } else {
        input as u32
    }
}

/// Blocks left until `end` at block `now`: `None` past the end of `u64`,
/// zero once `now` is past `end`.
pub open spec fn blocks_left(start: u64, length: u64, now: u64) -> u32 {
    if now > start + length {
        0
    } else {
        saturate_u32((start + length - now) as u64)
    }
}

impl Pallet {
    /// The storage at genesis.
    pub fn new() -> (r: Self)
        ensures
            r.sortition_sum_trees.wf(),
            r.something.is_none(),
            r.nonce == 0,
            r.citizen_count == 0,
            r.citizen_id@ == Map::<u64, u128>::empty(),
            r.citizen_profile@ == Map::<u128, CitizenDetails>::empty(),
            r.registration_fee == 1000,
            r.registration_challenge_fee == 100,
            r.profile_fund_details@ == Map::<u128, ProfileFundInfo>::empty(),
            r.challenger_fund_details@ == Map::<u128, ChallengerFundInfo>::empty(),
            forall|key: SumTreeKey| r.sortition_sum_trees.tree_of(key).is_none(),
            r.period_name@ == Map::<u128, Period>::empty(),
            r.min_block_time == (StakingTime { min_challenge_time: 43200, min_block_length: 144000 }),
            r.min_juror_stake == 100,
            r.draws_in_round@ == Map::<u128, u128>::empty(),
            r.staking_start_time@ == Map::<u128, u64>::empty(),
            r.commit_start_time@ == Map::<u128, u64>::empty(),
            r.vote_start_time@ == Map::<u128, u64>::empty(),
            r.drawn_jurors@ == Map::<u128, Vec<u64>>::empty(),
            r.unstaked_jurors@ == Map::<u128, Vec<u64>>::empty(),
            r.draw_jurors_for_profile_limit == (DrawJurorsForProfileLimit {
                max_draws: 5,
                max_draws_appeal: 60,
            }),
            r.vote_commits@ == Map::<(u128, u64), CommitVote>::empty(),
            r.decision_count@ == Map::<u128, (u64, u64)>::empty(),
            r.challenger_evidence_id@ == Map::<u128, Vec<u128>>::empty(),
            r.events@ == Seq::<Event>::empty(),
    {
        Pallet {
            something: None,
            nonce: 0,
            citizen_count: 0,
            citizen_id: BTreeMap::new(),
            citizen_profile: BTreeMap::new(),
            registration_fee: DefaultRegistrationFee(),
            registration_challenge_fee: DefaultRegistrationChallengeFee(),
            profile_fund_details: BTreeMap::new(),
            challenger_fund_details: BTreeMap::new(),
            sortition_sum_trees: SortitionSumTrees::new(),
            period_name: BTreeMap::new(),
            min_block_time: DefaultMinBlockTime(),
            min_juror_stake: DefaultMinStake(),
            draws_in_round: BTreeMap::new(),
            staking_start_time: BTreeMap::new(),
            commit_start_time: BTreeMap::new(),
            vote_start_time: BTreeMap::new(),
            drawn_jurors: BTreeMap::new(),
            unstaked_jurors: BTreeMap::new(),
            draw_jurors_for_profile_limit: DefaultDrawJurorsForProfileLimit(),
            vote_commits: BTreeMap::new(),
            decision_count: BTreeMap::new(),
            challenger_evidence_id: BTreeMap::new(),
            events: Vec::new(),
        }
    }

    /// Registers `who` as the next citizen with the profile `profile_hash`.
    pub fn add_citizen(&mut self, who: u64, profile_hash: Vec<u8>) -> (r: Result<(), Error>)
        ensures
            old(self).citizen_id@.contains_key(who) ==> r == Err::<(), Error>(
                Error::ProfileExists,
            ),
            !old(self).citizen_id@.contains_key(who) && old(self).citizen_count == u128::MAX ==> r
                == Err::<(), Error>(Error::StorageOverflow),
            !old(self).citizen_id@.contains_key(who) && old(self).citizen_count < u128::MAX ==> r
                == Ok::<(), Error>(()),
            r.is_err() ==> *final(self) == *old(self),
            r.is_ok() ==> *final(self) == (Pallet {
                citizen_id: final(self).citizen_id,
                citizen_profile: final(self).citizen_profile,
                citizen_count: final(self).citizen_count,
                events: final(self).events,
                ..*old(self)
            }),
            r.is_ok() ==> {
                let count = old(self).citizen_count;
                &&& !old(self).citizen_id@.contains_key(who)
                &&& count < u128::MAX
                &&& final(self).citizen_id@ == old(self).citizen_id@.insert(who, count)
                &&& final(self).citizen_profile@.contains_key(count)
                &&& final(self).citizen_profile@[count].profile_hash@ == profile_hash@
                &&& final(self).citizen_profile@[count].citizenid == count
                &&& final(self).citizen_profile@[count].accountid == who
                &&& forall|c: u128|
                    c != count ==> #[trigger] final(self).citizen_profile@.contains_key(c)
                        == old(self).citizen_profile@.contains_key(c) && (
                    final(self).citizen_profile@.contains_key(c) ==> final(self).citizen_profile@[c]
                        == old(self).citizen_profile@[c])
                &&& final(self).citizen_count == count + 1
                &&& final(self).events@.len() == old(self).events@.len() + 1
                &&& final(self).events@.drop_last() == old(self).events@
                &&& final(self).events@.last() matches Event::CreateCitizen(w, h) && w == who
                    && h@ == profile_hash@
                &&& final(self).profile_fund_details == old(self).profile_fund_details
                &&& final(self).period_name == old(self).period_name
            },
    {
        let count = self.citizen_count;
        match self.citizen_id.get(&who) {
            Some(_citizen_id) => Err(Error::ProfileExists),
            None => {
                if count == u128::MAX {
                    return Err(Error::StorageOverflow);
                }
                self.citizen_id.insert(who, count);
                let event_hash = copy_bytes(&profile_hash);
                let citizen_details = CitizenDetails {
                    profile_hash: profile_hash,
                    citizenid: count,
                    accountid: who,
                };
                self.citizen_profile.insert(count, citizen_details);
                self.citizen_count = count + 1;
                self.events.push(Event::CreateCitizen(who, event_hash));
                assert(self.events@.drop_last() =~= old(self).events@);
                Ok(())
            },
        }
    }

    /// Account of the citizen `citizenid`.
    pub fn get_citizen_accountid(&self, citizenid: u128) -> (r: Result<u64, Error>)
        ensures
            match r {
                Ok(a) => self.citizen_profile@.contains_key(citizenid) && a
                    == self.citizen_profile@[citizenid].accountid,
                Err(e) => !self.citizen_profile@.contains_key(citizenid) && e
                    == Error::CitizenDoNotExists,
            },
    {
        match self.citizen_profile.get(&citizenid) {
            Some(profile) => Ok(profile.accountid),
            None => Err(Error::CitizenDoNotExists),
        }
    }

    /// Citizen id of `accountid`.
    fn _get_citizen_id(&self, accountid: u64) -> (r: Result<u128, Error>)
        ensures
            match r {
                Ok(c) => self.citizen_id@.contains_key(accountid) && c
                    == self.citizen_id@[accountid],
                Err(e) => !self.citizen_id@.contains_key(accountid) && e == Error::ProfileNotFunded,
            },
    {
        match self.citizen_id.get(&accountid) {
            Some(citizen_id) => Ok(*citizen_id),
            None => Err(Error::ProfileNotFunded),
        }
    }

    /// The profile of `citizenid` is funded and its validation is still open.
    fn _get_profile_fund_info(&self, citizenid: u128) -> (r: Result<ProfileFundInfo, Error>)
        ensures
            !self.profile_fund_details@.contains_key(citizenid) ==> r == Err::<
                ProfileFundInfo,
                Error,
            >(Error::ProfileNotFunded),
            self.profile_fund_details@.contains_key(citizenid) ==> {
                let info = self.profile_fund_details@[citizenid];
                r == if !info.validated && !info.reapply {
                    Ok::<ProfileFundInfo, Error>(info)
                } else {
                    Err(Error::ProfileValidationOver)
                }
            },
    {
        match self.profile_fund_details.get(&citizenid) {
            Some(profilefundinfo) => {
                let validated = profilefundinfo.validated;
                let reapply = profilefundinfo.reapply;
                if validated == false && reapply == false {
                    Ok(*profilefundinfo)
                } else {
                    Err(Error::ProfileValidationOver)
                }
            },
            None => Err(Error::ProfileNotFunded),
        }
    }

    /// The profile of `citizenid` is funded and its validation is still open.
    fn _profile_fund_added(&self, citizenid: u128) -> (r: Result<(), Error>)
        ensures
            r == match self._get_profile_fund_info_spec(citizenid) {
                Ok(_) => Ok::<(), Error>(()),
                Err(e) => Err(e),
            },
    {
        match self._get_profile_fund_info(citizenid) {
            Ok(_) => Ok(()),
            Err(e) => Err(e),
        }
    }

    spec fn _get_profile_fund_info_spec(&self, citizenid: u128) -> Result<ProfileFundInfo, Error> {
        if !self.profile_fund_details@.contains_key(citizenid) {
            Err(Error::ProfileNotFunded)
        } else {
            let info = self.profile_fund_details@[citizenid];
            if !info.validated && !info.reapply {
                Ok(info)
            } else {
                Err(Error::ProfileValidationOver)
            }
        }
    }

    /// `who` funds the validation of the profile of `profile_citizenid` with the
    /// registration fee. `withdrawal_ok` tells whether `who` can pay it; on
    /// success the fee moves as the returned transfer says.
    pub fn add_profile_fund(
        &mut self,
        who: u64,
        profile_citizenid: u128,
        now: u64,
        withdrawal_ok: bool,
    ) -> (r: Result<Transfer, Error>)
        ensures
            r == if !old(self).citizen_profile@.contains_key(profile_citizenid) {
                Err::<Transfer, Error>(Error::CitizenDoNotExists)
            } else if !withdrawal_ok {
                Err(Error::WithdrawFailed)
            } else if old(self).profile_fund_details@.contains_key(profile_citizenid) {
                Err(Error::ProfileExists)
            } else if old(self).period_name@.contains_key(profile_citizenid) {
                Err(Error::PeriodExists)
            } else {
                Ok(
                    Transfer {
                        from: Account::Signed(who),
                        to: Account::ProfileFund,
                        amount: old(self).registration_fee,
                    },
                )
            },
            r.is_err() ==> *final(self) == *old(self),
            r.is_ok() ==> *final(self) == (Pallet {
                profile_fund_details: final(self).profile_fund_details,
                period_name: final(self).period_name,
                ..*old(self)
            }),
            r.is_ok() ==> final(self).profile_fund_details@ == old(self).profile_fund_details@.insert(
                profile_citizenid,
                ProfileFundInfo {
                    deposit: old(self).registration_fee,
                    start: now,
                    validated: false,
                    reapply: false,
                },
            ),
            r.is_ok() ==> final(self).period_name@ == old(self).period_name@.insert(
                profile_citizenid,
                Period::Evidence,
            ),
    {
        let _citizen_account_id = self.get_citizen_accountid(profile_citizenid)?;
        let deposit = self.registration_fee;
        if !withdrawal_ok {
            return Err(Error::WithdrawFailed);
        }
        if self.profile_fund_details.contains_key(&profile_citizenid) {
            return Err(Error::ProfileExists);
        }
        if self.period_name.contains_key(&profile_citizenid) {
            return Err(Error::PeriodExists);
        }
        let profile_fund_info = ProfileFundInfo {
            deposit,
            start: now,
            validated: false,
            reapply: false,
        };
        self.profile_fund_details.insert(profile_citizenid, profile_fund_info);
        self.period_name.insert(profile_citizenid, Period::Evidence);
        Ok(Transfer { from: Account::Signed(who), to: Account::ProfileFund, amount: deposit })
    }

    /// `who` challenges the profile of `profile_citizenid` with the challenge
    /// fee, which opens the sum tree of its game. `withdrawal_ok` tells whether
    /// `who` can pay the fee; on success it moves as the returned transfer says.
    pub fn challenge_profile(
        &mut self,
        who: u64,
        profile_citizenid: u128,
        now: u64,
        withdrawal_ok: bool,
    ) -> (r: Result<Transfer, Error>)
        requires
            old(self).sortition_sum_trees.wf(),
        ensures
            final(self).sortition_sum_trees.wf(),
            r == if !old(self).citizen_profile@.contains_key(profile_citizenid) {
                Err::<Transfer, Error>(Error::CitizenDoNotExists)
            } else if !old(self).profile_fund_details@.contains_key(profile_citizenid) {
                Err(Error::ProfileFundNotExists)
            } else if old(self).profile_fund_details@[profile_citizenid].validated {
                Err(Error::ProfileIsAlreadyValidated)
            } else if !withdrawal_ok {
                Err(Error::WithdrawFailed)
            } else if old(self).challenger_fund_details@.contains_key(profile_citizenid) {
                Err(Error::ChallegerFundInfoExists)
            } else if old(self).sortition_sum_trees.tree_of(
                challenge_key(profile_citizenid),
            ).is_some() {
                Err(Error::TreeAlreadyExists)
            } else {
                Ok(
                    Transfer {
                        from: Account::Signed(who),
                        to: Account::ProfileFund,
                        amount: old(self).registration_challenge_fee,
                    },
                )
            },
            r.is_err() ==> *final(self) == *old(self),
            r.is_ok() ==> *final(self) == (Pallet {
                challenger_fund_details: final(self).challenger_fund_details,
                sortition_sum_trees: final(self).sortition_sum_trees,
                ..*old(self)
            }),
            r.is_ok() ==> final(self).challenger_fund_details@
                == old(self).challenger_fund_details@.insert(
                profile_citizenid,
                ChallengerFundInfo {
                    challengerid: who,
                    deposit: old(self).registration_challenge_fee,
                    start: now,
                    challenge_completed: false,
                },
            ),
            r.is_ok() ==> (final(self).sortition_sum_trees.tree_of(
                challenge_key(profile_citizenid),
            ) matches Some(t) && t.spec_k() == 3 && t.node_values() == seq![0u64]
                && t.stakes() == Map::<u64, u64>::empty()),
            forall|other: SumTreeKey|
                other != challenge_key(profile_citizenid) ==> final(self).sortition_sum_trees.tree_of(other) == old(self).sortition_sum_trees.tree_of(other),
    {
        let _citizen_account_id = self.get_citizen_accountid(profile_citizenid)?;
        match self.profile_fund_details.get(&profile_citizenid) {
            Some(profilefundinfo) => {
                if profilefundinfo.validated == true {
                    return Err(Error::ProfileIsAlreadyValidated);
                }
            },
            None => {
                return Err(Error::ProfileFundNotExists);
            },
        }
        let deposit = self.registration_challenge_fee;
        if !withdrawal_ok {
            return Err(Error::WithdrawFailed);
        }
        if self.challenger_fund_details.contains_key(&profile_citizenid) {
            return Err(Error::ChallegerFundInfoExists);
        }
        let key = challenge_profile_key(profile_citizenid);
        match self.sortition_sum_trees.create_tree(key, 3) {
            Ok(()) => {},
            Err(_) => {
                return Err(Error::TreeAlreadyExists);
            },
        }
        let challenger_fund_info = ChallengerFundInfo {
            challengerid: who,
            deposit,
            start: now,
            challenge_completed: false,
        };
        self.challenger_fund_details.insert(profile_citizenid, challenger_fund_info);
        Ok(Transfer { from: Account::Signed(who), to: Account::ProfileFund, amount: deposit })
    }

    /// The inputs on which `pass_period` stays within the block number type.
    pub open spec fn pass_period_fits(&self, profile_citizenid: u128, now: u64) -> bool {
        let len = self.min_block_time.min_block_length;
        &&& (self.period_name@.get(profile_citizenid) == Some(Period::Evidence)
            && self.challenger_fund_details@.contains_key(profile_citizenid) ==> now
            >= self.challenger_fund_details@[profile_citizenid].start)
        &&& (self.period_name@.get(profile_citizenid) == Some(Period::Staking)
            && self.challenger_fund_details@.contains_key(profile_citizenid) ==> len + or_zero_u64(
            self.staking_start_time@,
            profile_citizenid,
        ) <= u64::MAX)
        &&& (self.period_name@.get(profile_citizenid) == Some(Period::Commit) ==> len
            + or_zero_u64(self.commit_start_time@, profile_citizenid) <= u64::MAX)
        &&& (self.period_name@.get(profile_citizenid) == Some(Period::Vote) ==> len + or_zero_u64(
            self.vote_start_time@,
            profile_citizenid,
        ) <= u64::MAX)
    }

    /// What `pass_period` answers at block `now`.
    pub open spec fn pass_period_outcome(&self, profile_citizenid: u128, now: u64) -> Result<
        (),
        Error,
    > {
        let len = self.min_block_time.min_block_length;
        let cid = profile_citizenid;
        match self.period_name@.get(cid) {
            None => Err(Error::PeriodDoesNotExists),
            Some(Period::Evidence) => if !self.challenger_fund_details@.contains_key(cid) {
                Err(Error::ChallengerFundDoesNotExists)
            } else if now - self.challenger_fund_details@[cid].start
                >= self.min_block_time.min_challenge_time {
                Ok(())
            } else {
                Err(Error::EvidencePeriodNotOver)
            },
            Some(Period::Staking) => if !self.challenger_fund_details@.contains_key(cid) {
                Err(Error::ChallengerFundDoesNotExists)
            } else if now >= len + or_zero_u64(self.staking_start_time@, cid) {
                Ok(())
            } else {
                Err(Error::StakingPeriodNotOver)
            },
            Some(Period::Drawing) => if or_zero_u128(self.draws_in_round@, cid)
                >= self.draw_jurors_for_profile_limit.max_draws {
                Ok(())
            } else {
                Err(Error::MaxJurorNotDrawn)
            },
            Some(Period::Commit) => if now >= len + or_zero_u64(self.commit_start_time@, cid) {
                Ok(())
            } else {
                Err(Error::CommitPeriodNotOver)
            },
            Some(Period::Vote) => if now >= len + or_zero_u64(self.vote_start_time@, cid) {
                Ok(())
            } else {
                Err(Error::VotePeriodNotOver)
            },
            Some(_) => Ok(()),
        }
    }

    /// Each period ends on its own clock: the Evidence period of a challenged
    /// profile once the challenge time has passed since the challenge, whatever
    /// the block length; Staking, Commit and Vote once the block length has
    /// passed since they began; Drawing once all jurors are drawn. Appeal and
    /// Execution end at once; a game without a period cannot move.
    pub proof fn law_pass_period_clocks(p: Pallet, cid: u128, now: u64)
        ensures
            p.period_name@.get(cid) is None ==> p.pass_period_outcome(cid, now) == Err::<(), Error>(
                Error::PeriodDoesNotExists,
            ),
            p.period_name@.get(cid) == Some(Period::Evidence) && p.challenger_fund_details@.contains_key(
                cid,
            ) ==> (p.pass_period_outcome(cid, now) is Ok <==> now - p.challenger_fund_details@[cid].start
                >= p.min_block_time.min_challenge_time) && (p.pass_period_outcome(cid, now) is Err
                ==> p.pass_period_outcome(cid, now) == Err::<(), Error>(Error::EvidencePeriodNotOver)),
            p.period_name@.get(cid) == Some(Period::Staking) && p.challenger_fund_details@.contains_key(
                cid,
            ) ==> (p.pass_period_outcome(cid, now) is Ok <==> now >= p.min_block_time.min_block_length
                + or_zero_u64(p.staking_start_time@, cid)),
            p.period_name@.get(cid) == Some(Period::Drawing) ==> (p.pass_period_outcome(cid, now) is Ok
                <==> or_zero_u128(p.draws_in_round@, cid) >= p.draw_jurors_for_profile_limit.max_draws),
            p.period_name@.get(cid) == Some(Period::Commit) ==> (p.pass_period_outcome(cid, now) is Ok
                <==> now >= p.min_block_time.min_block_length + or_zero_u64(p.commit_start_time@, cid)),
            p.period_name@.get(cid) == Some(Period::Vote) ==> (p.pass_period_outcome(cid, now) is Ok
                <==> now >= p.min_block_time.min_block_length + or_zero_u64(p.vote_start_time@, cid)),
            p.period_name@.get(cid) == Some(Period::Appeal) || p.period_name@.get(cid) == Some(
                Period::Execution,
            ) ==> p.pass_period_outcome(cid, now) is Ok,
    {
    }

    /// Moves the game of `profile_citizenid` to its next period once the
    /// current one is over at block `now`: Evidence to Staking after the
    /// challenge time, Staking to Drawing, Drawing to Commit once all jurors
    /// are drawn, Commit to Vote and Vote to Execution after the block length.
    pub fn pass_period(&mut self, profile_citizenid: u128, now: u64) -> (r: Result<(), Error>)
        requires
            old(self).pass_period_fits(profile_citizenid, now),
        ensures
            r == old(self).pass_period_outcome(profile_citizenid, now),
            old(self).period_name@.get(profile_citizenid) == Some(Period::Evidence)
                && old(self).challenger_fund_details@.contains_key(profile_citizenid) && now
                - old(self).challenger_fund_details@[profile_citizenid].start
                >= old(self).min_block_time.min_challenge_time ==> r is Ok
                && final(self).period_name@[profile_citizenid] == Period::Staking,
            r.is_err() ==> *final(self) == *old(self),
            r.is_ok() ==> match old(self).period_name@[profile_citizenid] {
                Period::Evidence => *final(self) == (Pallet {
                    period_name: final(self).period_name,
                    staking_start_time: final(self).staking_start_time,
                    ..*old(self)
                }) && final(self).period_name@ == old(self).period_name@.insert(
                    profile_citizenid,
                    Period::Staking,
                ) && final(self).staking_start_time@ == old(self).staking_start_time@.insert(
                    profile_citizenid,
                    now,
                ),
                Period::Staking => *final(self) == (Pallet {
                    period_name: final(self).period_name,
                    ..*old(self)
                }) && final(self).period_name@ == old(self).period_name@.insert(
                    profile_citizenid,
                    Period::Drawing,
                ),
                Period::Drawing => *final(self) == (Pallet {
                    period_name: final(self).period_name,
                    commit_start_time: final(self).commit_start_time,
                    ..*old(self)
                }) && final(self).period_name@ == old(self).period_name@.insert(
                    profile_citizenid,
                    Period::Commit,
                ) && final(self).commit_start_time@ == old(self).commit_start_time@.insert(
                    profile_citizenid,
                    now,
                ),
                Period::Commit => *final(self) == (Pallet {
                    period_name: final(self).period_name,
                    vote_start_time: final(self).vote_start_time,
                    ..*old(self)
                }) && final(self).period_name@ == old(self).period_name@.insert(
                    profile_citizenid,
                    Period::Vote,
                ) && final(self).vote_start_time@ == old(self).vote_start_time@.insert(
                    profile_citizenid,
                    now,
                ),
                Period::Vote => *final(self) == (Pallet {
                    period_name: final(self).period_name,
                    ..*old(self)
                }) && final(self).period_name@ == old(self).period_name@.insert(
                    profile_citizenid,
                    Period::Execution,
                ),
                _ => *final(self) == *old(self),
            },
    {
        let key = profile_citizenid;
        let block_time = self.min_block_time;
        match self.period_name.get(&key) {
            None => Err(Error::PeriodDoesNotExists),
            Some(period_ref) => {
                let period = *period_ref;
                match period {
                    Period::Evidence => {
                        match self.challenger_fund_details.get(&key) {
                            Some(challenger_fund_info) => {
                                let block_number = challenger_fund_info.start;
                                let time = now - block_number;
                                if time >= block_time.min_challenge_time {
                                    self.period_name.insert(key, Period::Staking);
                                    self.staking_start_time.insert(key, now);
                                    Ok(())
                                } else {
                                    Err(Error::EvidencePeriodNotOver)
                                }
                            },
                            None => Err(Error::ChallengerFundDoesNotExists),
                        }
                    },
                    Period::Staking => {
                        if !self.challenger_fund_details.contains_key(&key) {
                            return Err(Error::ChallengerFundDoesNotExists);
                        }
                        let staking_start_time = get_u64(&self.staking_start_time, key);
                        if now >= block_time.min_block_length + staking_start_time {
                            self.period_name.insert(key, Period::Drawing);
                            Ok(())
                        } else {
                            Err(Error::StakingPeriodNotOver)
                        }
                    },
                    Period::Drawing => {
                        let draw_limit = self.draw_jurors_for_profile_limit;
                        let draws_in_round = get_u128(&self.draws_in_round, key);
                        if draws_in_round >= draw_limit.max_draws as u128 {
                            self.commit_start_time.insert(key, now);
                            self.period_name.insert(key, Period::Commit);
                            Ok(())
                        } else {
                            Err(Error::MaxJurorNotDrawn)
                        }
                    },
                    Period::Commit => {
                        let commit_start_time = get_u64(&self.commit_start_time, key);
                        if now >= block_time.min_block_length + commit_start_time {
                            self.vote_start_time.insert(key, now);
                            self.period_name.insert(key, Period::Vote);
                            Ok(())
                        } else {
                            Err(Error::CommitPeriodNotOver)
                        }
                    },
                    Period::Vote => {
                        let vote_start_time = get_u64(&self.vote_start_time, key);
                        if now >= block_time.min_block_length + vote_start_time {
                            self.period_name.insert(key, Period::Execution);
                            Ok(())
                        } else {
                            Err(Error::VotePeriodNotOver)
                        }
                    },
                    _ => Ok(()),
                }
            },
        }
    }

    /// `who` applies as a juror of the game of `profile_citizenid` with
    /// `stake`, which becomes their stake in the game's sum tree.
    /// `withdrawal_ok` tells whether `who` can pay the stake; on success it
    /// moves as the returned transfer says.
    pub fn apply_jurors(
        &mut self,
        who: u64,
        profile_citizenid: u128,
        stake: u64,
        withdrawal_ok: bool,
    ) -> (r: Result<Transfer, Error>)
        requires
            old(self).sortition_sum_trees.wf(),
            old(self).sortition_sum_trees.tree_of(challenge_key(profile_citizenid)) matches Some(t)
                ==> t.set_fits(stake, who),
        ensures
            final(self).sortition_sum_trees.wf(),
            r == match old(self).period_name@.get(profile_citizenid) {
                None => Err::<Transfer, Error>(Error::PeriodDoesNotExists),
                Some(p) => if p != Period::Staking {
                    Err(Error::PeriodDontMatch)
                } else if stake < old(self).min_juror_stake {
                    Err(Error::StakeLessThanMin)
                } else if !withdrawal_ok {
                    Err(Error::WithdrawFailed)
                } else if old(self).sortition_sum_trees.tree_of(
                    challenge_key(profile_citizenid),
                ).is_none() {
                    Err(Error::TreeDoesnotExist)
                } else {
                    Ok(Transfer { from: Account::Signed(who), to: Account::JurorStake, amount: stake })
                },
            },
            r.is_err() ==> *final(self) == *old(self),
            r.is_ok() ==> *final(self) == (Pallet {
                sortition_sum_trees: final(self).sortition_sum_trees,
                ..*old(self)
            }),
            r.is_ok() ==> (old(self).sortition_sum_trees.tree_of(challenge_key(profile_citizenid))
                matches Some(t) && (final(self).sortition_sum_trees.tree_of(
                challenge_key(profile_citizenid),
            ) matches Some(t2) && t.set_relation(t2, stake, who))),
            forall|other: SumTreeKey|
                other != challenge_key(profile_citizenid) ==> final(self).sortition_sum_trees.tree_of(
                    other,
                ) == old(self).sortition_sum_trees.tree_of(other),
    {
        match self.period_name.get(&profile_citizenid) {
            Some(period) => {
                if *period != Period::Staking {
                    return Err(Error::PeriodDontMatch);
                }
            },
            None => {
                return Err(Error::PeriodDoesNotExists);
            },
        }
        let min_stake = self.min_juror_stake;
        if stake < min_stake {
            return Err(Error::StakeLessThanMin);
        }
        if !withdrawal_ok {
            return Err(Error::WithdrawFailed);
        }
        let stake_u64 = Self::balance_to_u64_saturated(stake);
        let key = challenge_profile_key(profile_citizenid);
        match self.sortition_sum_trees.set(key, stake_u64, who) {
            Ok(()) => Ok(Transfer { from: Account::Signed(who), to: Account::JurorStake, amount: stake }),
            Err(_) => Err(Error::TreeDoesnotExist),
        }
    }

    /// The nonce handed to the randomness source at `nonce`.
    pub open spec fn nonce_bytes(nonce: u64) -> Seq<u8> {
        le_bytes((nonce * 1000 + 1000) as u64)
    }

    /// Takes the next nonce and returns its SCALE encoding.
    fn get_and_increment_nonce(&mut self) -> (r: Vec<u8>)
        requires
            old(self).nonce * 1000 + 1000 <= u64::MAX,
        ensures
            *final(self) == (Pallet { nonce: (old(self).nonce + 1) as u64, ..*old(self) }),
            r@ == Self::nonce_bytes(old(self).nonce),
    {
        let nonce = self.nonce;
        self.nonce = nonce.wrapping_add(1);
        let n = nonce * 1000 + 1000;
        encode_u64(n)
    }

    /// How many draws `draw_jurors` makes for `iterations` requested.
    pub open spec fn draws_to_make(&self, profile_citizenid: u128, iterations: u128) -> int {
        let draws = or_zero_u128(self.draws_in_round@, profile_citizenid) as int;
        let max = self.draw_jurors_for_profile_limit.max_draws as int;
        if draws + iterations >= max {
            max - draws
        } else {
            iterations as int
        }
    }

    /// `rs[i]` is an answer of `random_source` to `args[i]`, the encoding of the
    /// nonce `nonce + i`, for every `i`.
    #[verifier::opaque]
    pub open spec fn draws_answered<F: Fn(Vec<u8>) -> u64>(
        random_source: F,
        nonce: u64,
        rs: Seq<u64>,
        args: Seq<Vec<u8>>,
    ) -> bool {
        &&& rs.len() == args.len()
        &&& forall|i: int|
            0 <= i < args.len() ==> (#[trigger] args[i])@ == Self::nonce_bytes((nonce + i) as u64)
        &&& forall|i: int| 0 <= i < rs.len() ==> call_ensures(random_source, (args[i],), #[trigger] rs[i])
    }

    /// One more answer of `random_source`, to the encoding of the next nonce,
    /// extends the record.
    pub proof fn lemma_draws_answered_push<F: Fn(Vec<u8>) -> u64>(
        random_source: F,
        nonce: u64,
        rs: Seq<u64>,
        args: Seq<Vec<u8>>,
        r: u64,
        a: Vec<u8>,
    )
        requires
            Self::draws_answered(random_source, nonce, rs, args),
            a@ == Self::nonce_bytes((nonce + rs.len()) as u64),
            call_ensures(random_source, (a,), r),
        ensures
            Self::draws_answered(random_source, nonce, rs.push(r), args.push(a)),
    {
        reveal(Pallet::draws_answered);
        let rs2 = rs.push(r);
        let args2 = args.push(a);
        assert forall|i: int| 0 <= i < args2.len() implies (#[trigger] args2[i])@ == Self::nonce_bytes(
            (nonce + i) as u64,
        ) by {
            if i < args.len() {
                assert(args2[i] == args[i]);
            } else {
                assert(args2[i] == a);
            }
        }
        assert forall|i: int| 0 <= i < rs2.len() implies call_ensures(
            random_source,
            (args2[i],),
            #[trigger] rs2[i],
        ) by {
            if i < rs.len() {
                assert(rs2[i] == rs[i]);
                assert(args2[i] == args[i]);
            } else {
                assert(rs2[i] == r);
                assert(args2[i] == a);
            }
        }
    }

    /// The accounts that the numbers `rs` draw from `t`, each taken modulo the total.
    pub open spec fn drawn_from(t: SortitionSumTree, rs: Seq<u64>) -> Set<u64> {
        rs.map_values(|x: u64| t.account_at((x % (t.total() as u64)) as int)).to_set()
    }

    /// Draws up to `iterations` jurors for the game of `profile_citizenid`,
    /// stopping at the draw limit. Each draw takes the next nonce, asks
    /// `random_source` for a number and draws from the game's sum tree; a
    /// juror drawn twice counts once.
    pub fn draw_jurors<F: Fn(Vec<u8>) -> u64>(
        &mut self,
        profile_citizenid: u128,
        iterations: u128,
        random_source: &F,
    ) -> (r: Result<(), Error>)
        requires
            old(self).sortition_sum_trees.wf(),
            strictly_sorted(or_empty(old(self).drawn_jurors@, profile_citizenid)),
            or_zero_u128(old(self).draws_in_round@, profile_citizenid) + iterations <= u128::MAX,
            old(self).draws_to_make(profile_citizenid, iterations) > 0 ==> (old(self).nonce
                + old(self).draws_to_make(profile_citizenid, iterations)) * 1000 <= u64::MAX,
            old(self).draws_to_make(profile_citizenid, iterations) > 0 ==> (
            old(self).sortition_sum_trees.tree_of(challenge_key(profile_citizenid)) matches Some(t)
                ==> t.total() > 0 && t.arithmetic_fits()),
            forall|bytes: Vec<u8>| #[trigger] call_requires(*random_source, (bytes,)),
        ensures
            r == match old(self).period_name@.get(profile_citizenid) {
                None => Err::<(), Error>(Error::PeriodDoesNotExists),
                Some(p) => if p != Period::Drawing {
                    Err(Error::PeriodDontMatch)
                } else if or_zero_u128(old(self).draws_in_round@, profile_citizenid)
                    >= old(self).draw_jurors_for_profile_limit.max_draws {
                    Err(Error::MaxDrawExceeded)
                } else if old(self).draws_to_make(profile_citizenid, iterations) > 0
                    && old(self).sortition_sum_trees.tree_of(
                    challenge_key(profile_citizenid),
                ).is_none() {
                    Err(Error::TreeDoesnotExist)
                } else {
                    Ok(())
                },
            },
            r.is_err() ==> *final(self) == *old(self),
            r.is_ok() ==> *final(self) == (Pallet {
                nonce: final(self).nonce,
                drawn_jurors: final(self).drawn_jurors,
                draws_in_round: final(self).draws_in_round,
                ..*old(self)
            }),
            r.is_ok() ==> final(self).nonce == old(self).nonce + old(self).draws_to_make(
                profile_citizenid,
                iterations,
            ),
            r.is_ok() ==> {
                let before = or_empty(old(self).drawn_jurors@, profile_citizenid);
                let after = or_empty(final(self).drawn_jurors@, profile_citizenid);
                let draws = or_zero_u128(old(self).draws_in_round@, profile_citizenid);
                &&& strictly_sorted(after)
                &&& before.to_set().subset_of(after.to_set())
                &&& after.len() - before.len() <= old(self).draws_to_make(
                    profile_citizenid,
                    iterations,
                )
                &&& forall|a: u64|
                    after.contains(a) && !before.contains(a) ==> (
                    old(self).sortition_sum_trees.tree_of(challenge_key(profile_citizenid))
                        matches Some(t) && t.stakes().contains_key(a))
                &&& old(self).draws_to_make(profile_citizenid, iterations) > 0 ==> final(self).draws_in_round@ == old(self).draws_in_round@.insert(
                    profile_citizenid,
                    (draws + after.len() - before.len()) as u128,
                )
                &&& old(self).draws_to_make(profile_citizenid, iterations) == 0 ==> final(self).draws_in_round == old(self).draws_in_round && final(self).drawn_jurors == old(self).drawn_jurors
                &&& forall|c: u128|
                    c != profile_citizenid ==> #[trigger] final(self).drawn_jurors@.get(c) == old(self).drawn_jurors@.get(c)
            },
            r.is_ok() ==> exists|rs: Seq<u64>, args: Seq<Vec<u8>>|
                #![trigger rs.len(), args.len()]
                {
                    let n = old(self).draws_to_make(profile_citizenid, iterations);
                    let before = or_empty(old(self).drawn_jurors@, profile_citizenid);
                    let after = or_empty(final(self).drawn_jurors@, profile_citizenid);
                    &&& rs.len() == n
                    &&& args.len() == n
                    &&& Self::draws_answered(*random_source, old(self).nonce, rs, args)
                    &&& n > 0 ==> (old(self).sortition_sum_trees.tree_of(
                        challenge_key(profile_citizenid),
                    ) matches Some(t) && after.to_set() == before.to_set() + Self::drawn_from(t, rs))
                },
    {
        let cid = profile_citizenid;
        match self.period_name.get(&cid) {
            Some(period) => {
                if *period != Period::Drawing {
                    return Err(Error::PeriodDontMatch);
                }
            },
            None => {
                return Err(Error::PeriodDoesNotExists);
            },
        }
        let draw_limit = self.draw_jurors_for_profile_limit;
        let draws_in_round = get_u128(&self.draws_in_round, cid);
        if draws_in_round >= draw_limit.max_draws as u128 {
            return Err(Error::MaxDrawExceeded);
        }
        let mut end_index = draws_in_round + iterations;
        if draws_in_round + iterations >= draw_limit.max_draws as u128 {
            end_index = draw_limit.max_draws as u128;
        }
        let key = challenge_profile_key(cid);
        if end_index > draws_in_round {
            match self.sortition_sum_trees.stake_of(key.copy(), 0) {
                Ok(_) => {},
                Err(_) => {
                    return Err(Error::TreeDoesnotExist);
                },
            }
        }
        let ghost old_self = *self;
        let ghost before = or_empty(self.drawn_jurors@, cid);
        let ghost tree = self.sortition_sum_trees.tree_of(challenge_key(cid));
        let mut drawn_juror = get_accounts(&self.drawn_jurors, cid);
        let mut draw_increment = draws_in_round;
        let mut round = draws_in_round;
        let ghost mut rs: Seq<u64> = Seq::empty();
        let ghost mut args: Seq<Vec<u8>> = Seq::empty();
        proof {
            reveal(Pallet::draws_answered);
            if end_index > draws_in_round {
                let t = tree->Some_0;
                assert(Self::drawn_from(t, rs) =~= Set::<u64>::empty());
                assert(drawn_juror@.to_set() =~= before.to_set() + Self::drawn_from(t, rs));
            }
        }
        while round < end_index
            invariant
                rs.len() == round - draws_in_round,
                args.len() == round - draws_in_round,
                Self::draws_answered(*random_source, old_self.nonce, rs, args),
                end_index > draws_in_round ==> (tree matches Some(t) && drawn_juror@.to_set()
                    == before.to_set() + Self::drawn_from(t, rs)),
                self.sortition_sum_trees == old_self.sortition_sum_trees,
                self.sortition_sum_trees.wf(),
                tree == self.sortition_sum_trees.tree_of(challenge_key(cid)),
                end_index > draws_in_round ==> (tree matches Some(t) && t.total() > 0
                    && t.arithmetic_fits()),
                key@ == challenge_key(cid),
                draws_in_round <= round <= end_index,
                end_index - draws_in_round == old_self.draws_to_make(cid, iterations),
                self.nonce == old_self.nonce + (round - draws_in_round),
                end_index > draws_in_round ==> (old_self.nonce + (end_index - draws_in_round))
                    * 1000 <= u64::MAX,
                *self == (Pallet {
                    nonce: self.nonce,
                    drawn_jurors: self.drawn_jurors,
                    draws_in_round: self.draws_in_round,
                    ..old_self
                }),
                strictly_sorted(drawn_juror@),
                before.to_set().subset_of(drawn_juror@.to_set()),
                drawn_juror@.len() - before.len() <= round - draws_in_round,
                draw_increment == draws_in_round + drawn_juror@.len() - before.len(),
                forall|a: u64|
                    drawn_juror@.contains(a) && !before.contains(a) ==> (tree matches Some(t)
                        && t.stakes().contains_key(a)),
                round > draws_in_round ==> self.drawn_jurors@.contains_key(cid)
                    && self.drawn_jurors@[cid]@ == drawn_juror@ && self.draws_in_round@
                    == old_self.draws_in_round@.insert(cid, draw_increment),
                forall|c: u128|
                    c != cid ==> #[trigger] self.drawn_jurors@.get(c) == old_self.drawn_jurors@.get(c),
                round == draws_in_round ==> self.drawn_jurors == old_self.drawn_jurors
                    && self.draws_in_round == old_self.draws_in_round && drawn_juror@ == before,
                forall|bytes: Vec<u8>| #[trigger] call_requires(*random_source, (bytes,)),
            decreases end_index - round,
        {
            let ghost nonce_before = self.nonce;
            let nonce = self.get_and_increment_nonce();
            let ghost nonce_arg = nonce;
            let random_number = random_source(nonce);
            let data = match self.sortition_sum_trees.draw(key.copy(), random_number) {
                Ok(a) => a,
                Err(_) => {
                    assert(false);
                    0
                },
            };
            let ghost rs0 = rs;
            let ghost args0 = args;
            proof {
                let t = tree->Some_0;
                let f = |x: u64| t.account_at((x % (t.total() as u64)) as int);
                assert(rs.push(random_number).map_values(f) =~= rs.map_values(f).push(data));
                rs.map_values(f).lemma_push_to_set_commute(data);
                assert(Self::drawn_from(t, rs.push(random_number)) =~= Self::drawn_from(t, rs).insert(
                    data,
                ));
                rs = rs.push(random_number);
                args = args.push(nonce_arg);
            }
            proof {
                assert(nonce_before == old_self.nonce + rs0.len());
                Self::lemma_draws_answered_push(
                    *random_source,
                    old_self.nonce,
                    rs0,
                    args0,
                    random_number,
                    nonce_arg,
                );
            }
            match binary_search(&drawn_juror, data) {
                Ok(_) => {},
                Err(index) => {
                    proof {
                        lemma_insert_sorted(drawn_juror@, index as int, data);
                    }
                    drawn_juror.insert(index, data);
                    draw_increment = draw_increment + 1;
                    proof {
                        assert forall|a: u64|
                            drawn_juror@.contains(a) && !before.contains(a) implies (
                        tree matches Some(t) && t.stakes().contains_key(a)) by {
                            assert(drawn_juror@.to_set().contains(a));
                        }
                    }
                },
            }
            let ghost prev = self.drawn_jurors@;
            self.drawn_jurors.insert(cid, drawn_juror.clone());
            proof {
                assert forall|c: u128| c != cid implies #[trigger] self.drawn_jurors@.get(c)
                    == prev.get(c) by {
                    assert(self.drawn_jurors@.contains_key(c) == prev.contains_key(c));
                    if prev.contains_key(c) {
                        assert(self.drawn_jurors@[c] == prev[c]);
                    }
                }
            }
            self.draws_in_round.insert(cid, draw_increment);
            round = round + 1;
        }
        proof {
            let n = old_self.draws_to_make(cid, iterations);
            assert(rs.len() == n && args.len() == n);
            if n > 0 {
                assert(or_empty(self.drawn_jurors@, cid) == drawn_juror@);
            }
        }
        Ok(())
    }

    /// `who` takes back their stake in the game of `profile_citizenid` once the
    /// drawing is over. `withdrawal_ok` tells whether the juror stake account
    /// can pay it; on success it moves as the returned transfer says.
    pub fn unstaking(&mut self, who: u64, profile_citizenid: u128, withdrawal_ok: bool) -> (r:
        Result<Transfer, Error>)
        requires
            old(self).sortition_sum_trees.wf(),
            strictly_sorted(or_empty(old(self).unstaked_jurors@, profile_citizenid)),
        ensures
            r == match old(self).period_name@.get(profile_citizenid) {
                None => Err::<Transfer, Error>(Error::PeriodDoesNotExists),
                Some(p) => if p == Period::Evidence || p == Period::Staking || p
                    == Period::Drawing {
                    Err(Error::PeriodDontMatch)
                } else {
                    match old(self).sortition_sum_trees.tree_of(challenge_key(profile_citizenid)) {
                        None => Err(Error::TreeDoesnotExist),
                        Some(t) => if !t.stakes().contains_key(who) {
                            Err(Error::StakeDoesNotExists)
                        } else if or_empty(old(self).unstaked_jurors@, profile_citizenid).contains(
                            who,
                        ) {
                            Err(Error::AlreadyUnstaked)
                        } else if !withdrawal_ok {
                            Err(Error::WithdrawFailed)
                        } else {
                            Ok(
                                Transfer {
                                    from: Account::JurorStake,
                                    to: Account::Signed(who),
                                    amount: t.stakes()[who],
                                },
                            )
                        },
                    }
                },
            },
            r.is_err() ==> *final(self) == *old(self),
            r.is_ok() ==> *final(self) == (Pallet {
                unstaked_jurors: final(self).unstaked_jurors,
                ..*old(self)
            }),
            r.is_ok() ==> {
                let before = or_empty(old(self).unstaked_jurors@, profile_citizenid);
                let after = or_empty(final(self).unstaked_jurors@, profile_citizenid);
                &&& final(self).unstaked_jurors@.contains_key(profile_citizenid)
                &&& strictly_sorted(after)
                &&& after.to_set() == before.to_set().insert(who)
                &&& after.len() == before.len() + 1
                &&& forall|c: u128|
                    c != profile_citizenid ==> #[trigger] final(self).unstaked_jurors@.get(c) == old(self).unstaked_jurors@.get(c)
            },
    {
        let cid = profile_citizenid;
        match self.period_name.get(&cid) {
            Some(period) => {
                if *period == Period::Evidence || *period == Period::Staking || *period
                    == Period::Drawing {
                    return Err(Error::PeriodDontMatch);
                }
            },
            None => {
                return Err(Error::PeriodDoesNotExists);
            },
        }
        let key = challenge_profile_key(cid);
        let stake_of = match self.sortition_sum_trees.stake_of(key, who) {
            Ok(s) => s,
            Err(_) => {
                return Err(Error::TreeDoesnotExist);
            },
        };
        match stake_of {
            Some(stake) => {
                let balance = Self::u64_to_balance_saturated(stake);
                let mut unstaked_jurors = get_accounts(&self.unstaked_jurors, cid);
                match binary_search(&unstaked_jurors, who) {
                    Ok(_) => Err(Error::AlreadyUnstaked),
                    Err(index) => {
                        if !withdrawal_ok {
                            return Err(Error::WithdrawFailed);
                        }
                        proof {
                            lemma_insert_sorted(unstaked_jurors@, index as int, who);
                        }
                        unstaked_jurors.insert(index, who);
                        let ghost prev = self.unstaked_jurors@;
                        self.unstaked_jurors.insert(cid, unstaked_jurors);
                        proof {
                            assert forall|c: u128| c != cid implies #[trigger] self.unstaked_jurors@.get(
                                c,
                            ) == prev.get(c) by {
                                assert(self.unstaked_jurors@.contains_key(c) == prev.contains_key(c));
                                if prev.contains_key(c) {
                                    assert(self.unstaked_jurors@[c] == prev[c]);
                                }
                            }
                        }
                        Ok(
                            Transfer {
                                from: Account::JurorStake,
                                to: Account::Signed(who),
                                amount: balance,
                            },
                        )
                    },
                }
            },
            None => Err(Error::StakeDoesNotExists),
        }
    }

    /// A drawn juror `who` commits the hash of their vote in the game of
    /// `profile_citizenid`.
    pub fn commit_vote(&mut self, who: u64, profile_citizenid: u128, vote_commit: [u8; 32]) -> (r:
        Result<(), Error>)
        requires
            strictly_sorted(or_empty(old(self).drawn_jurors@, profile_citizenid)),
        ensures
            r == match old(self).period_name@.get(profile_citizenid) {
                None => Err::<(), Error>(Error::PeriodDoesNotExists),
                Some(p) => if p != Period::Commit {
                    Err(Error::PeriodDontMatch)
                } else if !or_empty(old(self).drawn_jurors@, profile_citizenid).contains(who) {
                    Err(Error::JurorDoesNotExists)
                } else {
                    Ok(())
                },
            },
            r.is_err() ==> *final(self) == *old(self),
            r.is_ok() ==> *final(self) == (Pallet {
                vote_commits: final(self).vote_commits,
                ..*old(self)
            }),
            r.is_ok() ==> final(self).vote_commits@ == old(self).vote_commits@.insert(
                (profile_citizenid, who),
                CommitVote {
                    commit: vote_commit,
                    votestatus: VoteStatus::Commited,
                    vote_revealed: None,
                },
            ),
    {
        let cid = profile_citizenid;
        match self.period_name.get(&cid) {
            Some(period) => {
                if *period != Period::Commit {
                    return Err(Error::PeriodDontMatch);
                }
            },
            None => {
                return Err(Error::PeriodDoesNotExists);
            },
        }
        let drawn_jurors = get_accounts(&self.drawn_jurors, cid);
        if contains_sorted(&drawn_jurors, who) {
            let vote_commit_struct = CommitVote {
                commit: vote_commit,
                votestatus: VoteStatus::Commited,
                vote_revealed: None,
            };
            self.vote_commits.insert((cid, who), vote_commit_struct);
            Ok(())
        } else {
            Err(Error::JurorDoesNotExists)
        }
    }

    /// What `reveal_vote_with_hash` answers when the revealed vote hashes to
    /// `vote_hash`.
    pub open spec fn reveal_outcome(
        &self,
        who: u64,
        profile_citizenid: u128,
        choice: Seq<u8>,
        vote_hash: Seq<u8>,
    ) -> Result<(), Error> {
        match self.period_name@.get(profile_citizenid) {
            None => Err(Error::PeriodDoesNotExists),
            Some(p) => if p != Period::Vote {
                Err(Error::PeriodDontMatch)
            } else if !self.vote_commits@.contains_key((profile_citizenid, who)) {
                Err(Error::CommitDoesNotExists)
            } else if self.vote_commits@[(profile_citizenid, who)].votestatus
                != VoteStatus::Commited {
                Err(Error::VoteStatusNotCommited)
            } else if vote_hash != self.vote_commits@[(profile_citizenid, who)].commit@ {
                Err(Error::CommitDoesNotMatch)
            } else if choice != seq![49u8] && choice != seq![48u8] {
                Err(Error::NotValidChoice)
            } else {
                Ok(())
            },
        }
    }

    /// A vote can be revealed only in the Vote period: in any other period the
    /// reveal is refused with `PeriodDontMatch`, whoever reveals what.
    pub proof fn law_reveal_only_in_vote(
        p: Pallet,
        who: u64,
        cid: u128,
        choice: Seq<u8>,
        vote_hash: Seq<u8>,
    )
        ensures
            p.period_name@.get(cid) matches Some(q) && q != Period::Vote ==> p.reveal_outcome(
                who,
                cid,
                choice,
                vote_hash,
            ) == Err::<(), Error>(Error::PeriodDontMatch),
            p.period_name@.get(cid) is None ==> p.reveal_outcome(who, cid, choice, vote_hash)
                == Err::<(), Error>(Error::PeriodDoesNotExists),
            p.reveal_outcome(who, cid, choice, vote_hash) is Ok ==> p.period_name@.get(cid) == Some(
                Period::Vote,
            ) && p.vote_commits@.contains_key((cid, who)) && p.vote_commits@[(
                cid,
                who,
            )].votestatus == VoteStatus::Commited && vote_hash == p.vote_commits@[(
                cid,
                who,
            )].commit@ && (choice == seq![49u8] || choice == seq![48u8]),
    {
    }

    /// Records the revealed `choice` of `who` in the game of
    /// `profile_citizenid`, given `vote_hash`, the hash of the choice and salt.
    /// Choice "1" counts for yes, "0" for no.
    pub fn reveal_vote_with_hash(
        &mut self,
        who: u64,
        profile_citizenid: u128,
        choice: &Vec<u8>,
        vote_hash: [u8; 32],
    ) -> (r: Result<(), Error>)
        requires
            choice@ == seq![48u8] ==> or_zero_pair(old(self).decision_count@, profile_citizenid).0
                < u64::MAX,
            choice@ == seq![49u8] ==> or_zero_pair(old(self).decision_count@, profile_citizenid).1
                < u64::MAX,
        ensures
            r == old(self).reveal_outcome(who, profile_citizenid, choice@, vote_hash@),
            old(self).period_name@.get(profile_citizenid) matches Some(q) && q != Period::Vote
                ==> r == Err::<(), Error>(Error::PeriodDontMatch),
            r.is_err() ==> *final(self) == *old(self),
            r.is_ok() ==> *final(self) == (Pallet {
                vote_commits: final(self).vote_commits,
                decision_count: final(self).decision_count,
                ..*old(self)
            }),
            r.is_ok() ==> {
                let c = or_zero_pair(old(self).decision_count@, profile_citizenid);
                let v = old(self).vote_commits@[(profile_citizenid, who)];
                &&& final(self).decision_count@ == old(self).decision_count@.insert(
                    profile_citizenid,
                    if choice@ == seq![49u8] {
                        (c.0, (c.1 + 1) as u64)
                    } else {
                        ((c.0 + 1) as u64, c.1)
                    },
                )
                &&& final(self).vote_commits@ == old(self).vote_commits@.insert(
                    (profile_citizenid, who),
                    CommitVote { votestatus: VoteStatus::Revealed, ..v },
                )
            },
    {
        let cid = profile_citizenid;
        match self.period_name.get(&cid) {
            Some(period) => {
                if *period != Period::Vote {
                    return Err(Error::PeriodDontMatch);
                }
            },
            None => {
                return Err(Error::PeriodDoesNotExists);
            },
        }
        let mut commit_struct = match self.vote_commits.get(&(cid, who)) {
            Some(c) => *c,
            None => {
                return Err(Error::CommitDoesNotExists);
            },
        };
        if commit_struct.votestatus != VoteStatus::Commited {
            return Err(Error::VoteStatusNotCommited);
        }
        if !bytes32_equal(&vote_hash, &commit_struct.commit) {
            return Err(Error::CommitDoesNotMatch);
        }
        let mut decision_tuple = get_pair(&self.decision_count, cid);
        if choice.len() == 1 && choice[0] == 49u8 {
            assert(choice@ =~= seq![49u8]);
            decision_tuple.1 = decision_tuple.1 + 1;
        } else if choice.len() == 1 && choice[0] == 48u8 {
            assert(choice@ =~= seq![48u8]);
            decision_tuple.0 = decision_tuple.0 + 1;
        } else {
            assert(choice@ != seq![49u8] && choice@ != seq![48u8]) by {
                if choice@ == seq![49u8] || choice@ == seq![48u8] {
                    assert(choice@.len() == 1);
                }
            }
            return Err(Error::NotValidChoice);
        }
        self.decision_count.insert(cid, decision_tuple);
        commit_struct.votestatus = VoteStatus::Revealed;
        self.vote_commits.insert((cid, who), commit_struct);
        Ok(())
    }

    /// A juror `who` reveals their `choice` and `salt` in the game of
    /// `profile_citizenid`; it must hash to what they committed.
    pub fn reveal_vote(&mut self, who: u64, profile_citizenid: u128, choice: Vec<u8>, salt: Vec<u8>) -> (r:
        Result<(), Error>)
        requires
            choice@ == seq![48u8] ==> or_zero_pair(old(self).decision_count@, profile_citizenid).0
                < u64::MAX,
            choice@ == seq![49u8] ==> or_zero_pair(old(self).decision_count@, profile_citizenid).1
                < u64::MAX,
        ensures
            r == old(self).reveal_outcome(
                who,
                profile_citizenid,
                choice@,
                keccak_256_of(choice@ + salt@),
            ),
            old(self).period_name@.get(profile_citizenid) matches Some(q) && q != Period::Vote
                ==> r == Err::<(), Error>(Error::PeriodDontMatch),
            r.is_err() ==> *final(self) == *old(self),
            r.is_ok() ==> *final(self) == (Pallet {
                vote_commits: final(self).vote_commits,
                decision_count: final(self).decision_count,
                ..*old(self)
            }),
            r.is_ok() ==> {
                let c = or_zero_pair(old(self).decision_count@, profile_citizenid);
                let v = old(self).vote_commits@[(profile_citizenid, who)];
                &&& final(self).decision_count@ == old(self).decision_count@.insert(
                    profile_citizenid,
                    if choice@ == seq![49u8] {
                        (c.0, (c.1 + 1) as u64)
                    } else {
                        ((c.0 + 1) as u64, c.1)
                    },
                )
                &&& final(self).vote_commits@ == old(self).vote_commits@.insert(
                    (profile_citizenid, who),
                    CommitVote { votestatus: VoteStatus::Revealed, ..v },
                )
            },
    {
        let mut vote = copy_bytes(&choice);
        let mut salt_a = salt;
        vote.append(&mut salt_a);
        let hash = keccak_256(vote.as_slice());
        self.reveal_vote_with_hash(who, profile_citizenid, &choice, hash)
    }

    /// Takes the next nonce, asks `random_source` for a number and reports it.
    pub fn get_random_number<F: Fn(Vec<u8>) -> u64>(&mut self, who: u64, random_source: &F) -> (r:
        Result<(), Error>)
        requires
            old(self).nonce * 1000 + 1000 <= u64::MAX,
            forall|bytes: Vec<u8>| #[trigger] call_requires(*random_source, (bytes,)),
        ensures
            r.is_ok(),
            final(self).nonce == old(self).nonce + 1,
            final(self).events@.len() == old(self).events@.len() + 1,
            final(self).events@.drop_last() == old(self).events@,
            final(self).events@.last() matches Event::RandomNumber(n, w) && w == who && exists|
                bytes: Vec<u8>,
            | bytes@ == Self::nonce_bytes(old(self).nonce) && call_ensures(
                *random_source,
                (bytes,),
                n,
            ),
            *final(self) == (Pallet {
                nonce: final(self).nonce,
                events: final(self).events,
                ..*old(self)
            }),
    {
        let nonce = self.get_and_increment_nonce();
        let ghost bytes = nonce;
        let random_number = random_source(nonce);
        self.events.push(Event::RandomNumber(random_number, who));
        assert(call_ensures(*random_source, (bytes,), random_number));
        assert(self.events@.drop_last() =~= old(self).events@);
        Ok(())
    }

    /// Takes the next nonce and asks `random_source` for a number.
    fn draw_juror_for_citizen_profile_function<F: Fn(Vec<u8>) -> u64>(
        &mut self,
        citizen_id: u128,
        length: usize,
        random_source: &F,
    ) -> (r: Result<(), Error>)
        requires
            old(self).nonce * 1000 + 1000 <= u64::MAX,
            forall|bytes: Vec<u8>| #[trigger] call_requires(*random_source, (bytes,)),
        ensures
            r.is_ok(),
            *final(self) == (Pallet { nonce: (old(self).nonce + 1) as u64, ..*old(self) }),
    {
        let nonce = self.get_and_increment_nonce();
        let _random_number = random_source(nonce);
        Ok(())
    }

    /// Stores `something` and reports who stored it.
    pub fn do_something(&mut self, who: u64, something: u32) -> (r: Result<(), Error>)
        ensures
            r.is_ok(),
            *final(self) == (Pallet {
                something: Some(something),
                events: final(self).events,
                ..*old(self)
            }),
            final(self).events@ == old(self).events@.push(Event::SomethingStored(something, who)),
    {
        self.something = Some(something);
        self.events.push(Event::SomethingStored(something, who));
        Ok(())
    }

    /// Increments the stored value: `NoneValue` when there is none,
    /// `StorageOverflow` when it is at its maximum.
    pub fn cause_error(&mut self) -> (r: Result<(), Error>)
        ensures
            r == match old(self).something {
                None => Err::<(), Error>(Error::NoneValue),
                Some(v) => if v == u32::MAX {
                    Err(Error::StorageOverflow)
                } else {
                    Ok(())
                },
            },
            r.is_err() ==> *final(self) == *old(self),
            r.is_ok() ==> *final(self) == (Pallet {
                something: Some((old(self).something.unwrap() + 1) as u32),
                ..*old(self)
            }),
    {
        match self.something {
            None => Err(Error::NoneValue),
            Some(old) => {
                let new = match old.checked_add(1) {
                    Some(n) => n,
                    None => {
                        return Err(Error::StorageOverflow);
                    },
                };
                self.something = Some(new);
                Ok(())
            },
        }
    }

    /// The evidence ids filed against the profile `profile_citizenid`, `limit`
    /// of them from position `offset` of the storage order, from the largest to
    /// the smallest.
    pub fn get_challengers_evidence(&self, profile_citizenid: u128, offset: u64, limit: u16) -> (r:
        Vec<u128>)
        ensures
            r@.to_multiset() == evidence_window(
                ids_or_empty_u128(self.challenger_evidence_id@, profile_citizenid),
                offset,
                limit,
            ).to_multiset(),
            forall|i: int, j: int| 0 <= i < j < r@.len() ==> r@[i] >= r@[j],
    {
        let ghost s = ids_or_empty_u128(self.challenger_evidence_id@, profile_citizenid);
        let mut data: Vec<u128> = Vec::new();
        match self.challenger_evidence_id.get(&profile_citizenid) {
            Some(ids) => {
                let len = ids.len();
                let skip = offset as usize;
                let start = if skip < len {
                    skip
                } else {
                    len
                };
                let take = limit as usize;
                let end = if take < len - start {
                    start + take
                } else {
                    len
                };
                let mut i = start;
                while i < end
                    invariant
                        start <= i <= end <= len == ids@.len(),
                        ids@ == s,
                        data@ == ids@.subrange(start as int, i as int),
                    decreases end - i,
                {
                    data.push(ids[i]);
                    i = i + 1;
                    assert(data@ =~= ids@.subrange(start as int, i as int));
                }
                assert(data@ =~= evidence_window(s, offset, limit));
            },
            None => {
                assert(data@ =~= evidence_window(s, offset, limit));
            },
        }
        sort_descending(data)
    }

    /// A constant greeting.
    pub fn hello_world() -> (r: u128)
        ensures
            r == 10,
    {
        10
    }

    /// Blocks left in the evidence period of `profile_citizenid` at `now`;
    /// `None` when the profile is not funded.
    pub fn get_evidence_period_end_block(&self, profile_citizenid: u128, now: u64) -> (r: Option<
        u32,
    >)
        requires
            self.profile_fund_details@.contains_key(profile_citizenid) ==> self.profile_fund_details@[profile_citizenid].start
                + self.min_block_time.min_challenge_time <= u64::MAX,
        ensures
            r == if self.profile_fund_details@.contains_key(profile_citizenid) {
                Some(
                    blocks_left(
                        self.profile_fund_details@[profile_citizenid].start,
                        self.min_block_time.min_challenge_time,
                        now,
                    ),
                )
            } else {
                None
            },
    {
        match self.profile_fund_details.get(&profile_citizenid) {
            Some(profilefundinfo) => {
                let block_number = profilefundinfo.start;
                let end_block = block_number + self.min_block_time.min_challenge_time;
                Some(Self::left_blocks(end_block, now))
            },
            None => None,
        }
    }

    fn left_blocks(end_block: u64, now: u64) -> (r: u32)
        ensures
            r == (if now > end_block {
                0
            } else {
                saturate_u32((end_block - now) as u64)
            }),
    {
        match end_block.checked_sub(now) {
            Some(val) => Self::block_number_to_u32_saturated(val),
            None => 0,
        }
    }

    /// Blocks left in the staking period of `profile_citizenid` at `now`.
    pub fn get_staking_period_end_block(&self, profile_citizenid: u128, now: u64) -> (r: Option<
        u32,
    >)
        requires
            or_zero_u64(self.staking_start_time@, profile_citizenid)
                + self.min_block_time.min_block_length <= u64::MAX,
        ensures
            r == Some(
                blocks_left(
                    or_zero_u64(self.staking_start_time@, profile_citizenid),
                    self.min_block_time.min_block_length,
                    now,
                ),
            ),
    {
        let staking_start_time = get_u64(&self.staking_start_time, profile_citizenid);
        let end_block = staking_start_time + self.min_block_time.min_block_length;
        Some(Self::left_blocks(end_block, now))
    }

    /// The draw limit, the draws made and whether the limit is reached.
    pub fn get_drawing_period_end(&self, profile_citizenid: u128) -> (r: (u64, u128, bool))
        ensures
            r == (
                self.draw_jurors_for_profile_limit.max_draws,
                or_zero_u128(self.draws_in_round@, profile_citizenid),
                or_zero_u128(self.draws_in_round@, profile_citizenid)
                    >= self.draw_jurors_for_profile_limit.max_draws,
            ),
    {
        let draw_limit = self.draw_jurors_for_profile_limit;
        let draws_in_round = get_u128(&self.draws_in_round, profile_citizenid);
        if draws_in_round >= draw_limit.max_draws as u128 {
            (draw_limit.max_draws, draws_in_round, true)
        } else {
            (draw_limit.max_draws, draws_in_round, false)
        }
    }

    /// Blocks left in the commit period of `profile_citizenid` at `now`.
    pub fn get_commit_period_end_block(&self, profile_citizenid: u128, now: u64) -> (r: Option<
        u32,
    >)
        requires
            or_zero_u64(self.commit_start_time@, profile_citizenid)
                + self.min_block_time.min_block_length <= u64::MAX,
        ensures
            r == Some(
                blocks_left(
                    or_zero_u64(self.commit_start_time@, profile_citizenid),
                    self.min_block_time.min_block_length,
                    now,
                ),
            ),
    {
        let commit_start_time = get_u64(&self.commit_start_time, profile_citizenid);
        let end_block = commit_start_time + self.min_block_time.min_block_length;
        Some(Self::left_blocks(end_block, now))
    }

    /// Blocks left in the vote period of `profile_citizenid` at `now`.
    pub fn get_vote_period_end_block(&self, profile_citizenid: u128, now: u64) -> (r: Option<
        u32,
    >)
        requires
            or_zero_u64(self.vote_start_time@, profile_citizenid)
                + self.min_block_time.min_block_length <= u64::MAX,
        ensures
            r == Some(
                blocks_left(
                    or_zero_u64(self.vote_start_time@, profile_citizenid),
                    self.min_block_time.min_block_length,
                    now,
                ),
            ),
    {
        let vote_start_time = get_u64(&self.vote_start_time, profile_citizenid);
        let end_block = vote_start_time + self.min_block_time.min_block_length;
        Some(Self::left_blocks(end_block, now))
    }

    /// Whether `who` was drawn as a juror of the game of `profile_citizenid`.
    pub fn selected_as_juror(&self, profile_citizenid: u128, who: u64) -> (r: bool)
        requires
            strictly_sorted(or_empty(self.drawn_jurors@, profile_citizenid)),
        ensures
            r == or_empty(self.drawn_jurors@, profile_citizenid).contains(who),
    {
        let drawn_juror = get_accounts(&self.drawn_jurors, profile_citizenid);
        contains_sorted(&drawn_juror, who)
    }

    /// The winner of the two-choice vote counted in `decision_tuple`.
    pub fn get_winning_decision(decision_tuple: (u64, u64)) -> (r: u8)
        ensures
            r == winning_decision(decision_tuple),
            r == 1 <==> decision_tuple.1 > decision_tuple.0,
            r == 0 <==> decision_tuple.0 > decision_tuple.1,
            r == 2 <==> decision_tuple.0 == decision_tuple.1,
    {
        if decision_tuple.1 > decision_tuple.0 {
            1
        } else if decision_tuple.0 > decision_tuple.1 {
            0
        } else {
            2
        }
    }

    /// The winner and the share of `incentive_tuple.1` of each of its voters;
    /// nothing is shared on a tie.
    pub fn get_winning_incentives(decision_tuple: (u64, u64), incentive_tuple: (u64, u64)) -> (r: (
        u8,
        u64,
    ))
        ensures
            r.0 == winning_decision(decision_tuple),
            r.1 == if r.0 == 0 {
                incentive_tuple.1 / decision_tuple.0
            } else if r.0 == 1 {
                incentive_tuple.1 / decision_tuple.1
            } else {
                0
            },
            decision_tuple.0 > decision_tuple.1 ==> r == (0u8, incentive_tuple.1 / decision_tuple.0),
            decision_tuple.1 > decision_tuple.0 ==> r == (1u8, incentive_tuple.1 / decision_tuple.1),
            decision_tuple.0 == decision_tuple.1 ==> r == (2u8, 0u64),
    {
        let winning_decision = Self::get_winning_decision(decision_tuple);
        if winning_decision == 0 {
            let winning_incentives = incentive_tuple.1 / decision_tuple.0;
            (winning_decision, winning_incentives)
        } else if winning_decision == 1 {
            let winning_incentives = incentive_tuple.1 / decision_tuple.1;
            (winning_decision, winning_incentives)
        } else {
            (winning_decision, 0)
        }
    }

    /// The account that holds profile deposits and challenge fees.
    pub fn fund_profile_account() -> (r: Account)
        ensures
            r == Account::ProfileFund,
    {
        Account::ProfileFund
    }

    /// The account that holds juror stakes.
    pub fn juror_stake_account() -> (r: Account)
        ensures
            r == Account::JurorStake,
    {
        Account::JurorStake
    }
}

/// The ids stored under `k`, none when `k` is absent.
pub open spec fn ids_or_empty_u128(m: Map<u128, Vec<u128>>, k: u128) -> Seq<u128> {
    if m.contains_key(k) {
        m[k]@
    } else {
        Seq::empty()
    }
}

/// The items of `s` from position `offset`, at most `limit` of them.
pub open spec fn evidence_window(s: Seq<u128>, offset: u64, limit: u16) -> Seq<u128> {
    let start = if (offset as usize) < s.len() {
        offset as usize as int
    } else {
        s.len() as int
    };
    let end = if (limit as usize) < s.len() - start {
        start + limit as usize
    } else {
        s.len() as int
    };
    s.subrange(start, end)
}

/// The items of `v`, from the largest to the smallest.
fn sort_descending(v: Vec<u128>) -> (r: Vec<u128>)
    ensures
        r@.to_multiset() == v@.to_multiset(),
        forall|i: int, j: int| 0 <= i < j < r@.len() ==> r@[i] >= r@[j],
{
    let mut r: Vec<u128> = Vec::new();
    let mut i: usize = 0;
    proof {
        assert(v@.take(0) =~= Seq::<u128>::empty());
        assert(r@ =~= Seq::<u128>::empty());
    }
    while i < v.len()
        invariant
            0 <= i <= v@.len(),
            r@.to_multiset() == v@.take(i as int).to_multiset(),
            forall|a: int, b: int| 0 <= a < b < r@.len() ==> r@[a] >= r@[b],
        decreases v@.len() - i,
    {
        let x = v[i];
        let mut j: usize = 0;
        while j < r.len() && r[j] >= x
            invariant
                0 <= j <= r@.len(),
                forall|m: int| 0 <= m < j ==> r@[m] >= x,
            decreases r@.len() - j,
        {
            j = j + 1;
        }
        let ghost before = r@;
        r.insert(j, x);
        proof {
            vstd::seq_lib::to_multiset_insert(before, j as int, x);
            assert(v@.take(i + 1 as int) =~= v@.take(i as int).push(x));
            vstd::seq_lib::to_multiset_build(v@.take(i as int), x);
            assert forall|a: int, b: int| 0 <= a < b < r@.len() implies r@[a] >= r@[b] by {
                if b < j {
                } else if b == j {
                } else if a < j {
                    assert(r@[b] == before[b - 1]);
                    if j < before.len() {
                        assert(before[j as int] < x);
                        assert(before[j as int] >= before[b - 1]);
                    }
                } else if a == j {
                    assert(r@[b] == before[b - 1]);
                    assert(before[j as int] < x);
                    assert(before[j as int] >= before[b - 1] || b - 1 == j);
                } else {
                    assert(r@[a] == before[a - 1]);
                    assert(r@[b] == before[b - 1]);
                }
            }
        }
        i = i + 1;
    }
    assert(v@.take(v@.len() as int) =~= v@);
    r
}

} // verus!
