//! Citizen profiles and the crowdfunding of their validation game.
use vstd::prelude::*;
use crate::schelling_game_shared::{self, lookup};
use crate::sortition_sum_game::{SumTreeKey, SumTreeName};
use crate::support::{Content, ContentView, WhoAndWhen, new_who_and_when};
use std::collections::BTreeMap;

verus! {

pub const FIRST_CITIZEN_ID: u64 = 1;

pub const FIRST_CHALLENGE_POST_ID: u64 = 1;

/// The profile of a citizen.
#[derive(Debug)]
pub struct CitizenDetailsPost {
    pub created: WhoAndWhen,
    pub content: Content,
    pub citizen_id: u64,
    pub owner: u64,
    pub edited: bool,
    pub hidden: bool,
    pub upvotes_count: u32,
    pub downvotes_count: u32,
}

/// A citizen profile as a mathematical value.
pub struct CitizenDetailsPostView {
    pub created: WhoAndWhen,
    pub content: ContentView,
    pub citizen_id: u64,
    pub owner: u64,
    pub edited: bool,
    pub hidden: bool,
    pub upvotes_count: u32,
    pub downvotes_count: u32,
}

impl View for CitizenDetailsPost {
    type V = CitizenDetailsPostView;

    open spec fn view(&self) -> CitizenDetailsPostView {
        CitizenDetailsPostView {
            created: self.created,
            content: self.content@,
            citizen_id: self.citizen_id,
            owner: self.owner,
            edited: self.edited,
            hidden: self.hidden,
            upvotes_count: self.upvotes_count,
            downvotes_count: self.downvotes_count,
        }
    }
}

impl CitizenDetailsPost {
    /// The profile of citizen `citizen_id` owned by `owner`, made at `block` and `time`.
    pub fn new(citizen_id: u64, owner: u64, content: Content, block: u64, time: u64) -> (r:
        CitizenDetailsPost)
        ensures
            r@ == (CitizenDetailsPostView {
                created: WhoAndWhen { account: owner, block, time },
                content: content@,
                citizen_id,
                owner,
                edited: false,
                hidden: false,
                upvotes_count: 0,
                downvotes_count: 0,
            }),
    {
        CitizenDetailsPost {
            created: new_who_and_when(owner, block, time),
            content,
            citizen_id,
            owner,
            edited: false,
            hidden: false,
            upvotes_count: 0,
            downvotes_count: 0,
        }
    }
}

/// What one funder gave towards the validation of a profile.
#[derive(PartialEq, Eq, Structural, Clone, Copy, Debug)]
pub struct ProfileFundInfo {
    pub funder_account_id: u64,
    pub validation_account_id: u64,
    pub deposit: u64,
    pub deposit_returned: bool,
}

/// The stake of the challenger of a profile.
#[derive(PartialEq, Eq, Structural, Clone, Copy, Debug)]
pub struct ChallengerFundInfo {
    pub challengerid: u64,
    pub deposit: u64,
    pub start: u64,
    pub challenge_completed: bool,
}

/// A piece of evidence against a profile.
#[derive(Debug)]
pub struct ChallengeEvidencePost {
    pub created: WhoAndWhen,
    pub owner: u64,
    pub kyc_profile_id: u64,
    pub content: Content,
    pub post_id_if_comment: Option<u64>,
    pub is_comment: bool,
}

/// What the pallet reports.
#[derive(PartialEq, Eq, Structural, Clone, Copy, Debug)]
pub enum Event {
    SomethingStored { something: u32, who: u64 },
    CreateCitizen(u64, u64),
    ProfileFund { profile: u64, funder: u64 },
}

/// Why a call was refused.
#[derive(PartialEq, Eq, Structural, Clone, Copy, Debug)]
pub enum Error {
    NoneValue,
    StorageOverflow,
    ProfileExists,
    CitizenDoNotExists,
    ProfileFundExists,
    PostAlreadyExists,
    ProfileIsAlreadyValidated,
    ChallengeDoesNotExists,
    CommentExists,
    IsComment,
    ProfileFundNotExists,
    ChallengerFundInfoExists,
    NotProfileUser,
    NotEvidencePeriod,
    CitizenNotApproved,
    NotAPostOwner,
    AmountFundedGreaterThanRequired,
    /// The profile is being funded and can no longer change.
    NoMoreUpdates,
    /// The funder's account could not pay the amount.
    WithdrawFailed,
    /// The validation game refused to start.
    Game(schelling_game_shared::Error),
}

/// The first citizen id.
pub fn DefaultForNextCitizenId() -> (r: u64)
    ensures
        r == FIRST_CITIZEN_ID,
{
    FIRST_CITIZEN_ID
}

/// The fee that funds the validation of a profile.
pub fn DefaultRegistrationFee() -> (r: u64)
    ensures
        r == 1000,
{
    1000
}

/// The fee of a challenge to a profile.
pub fn DefaultRegistrationChallengeFee() -> (r: u64)
    ensures
        r == 100,
{
    100
}

/// The first challenge post id.
pub fn DefaultForNextChallengePostId() -> (r: u64)
    ensures
        r == FIRST_CHALLENGE_POST_ID,
{
    FIRST_CHALLENGE_POST_ID
}

/// The storage of the pallet.
pub struct Pallet {
    pub something: Option<u32>,
    pub next_citizen_id: u64,
    /// Account to citizen id.
    pub get_citizen_id: BTreeMap<u64, u64>,
    /// Account to profile.
    pub citizen_profile: BTreeMap<u64, CitizenDetailsPost>,
    pub registration_fee: u64,
    pub registration_challenge_fee: u64,
    /// (profile account, funder account) to what the funder gave.
    pub profile_fund_details: BTreeMap<(u64, u64), ProfileFundInfo>,
    /// Profile account to the total given for its validation.
    pub profile_total_fund_collected: BTreeMap<u64, u64>,
    pub events: Vec<Event>,
}

/// The name of the validation game of `profile` started at block `now`.
pub open spec fn validation_key(profile: u64, now: u64) -> SumTreeKey {
    SumTreeKey::ProfileValidation { citizen_address: profile, block_number: now }
}

impl Pallet {
    /// The total given for the validation of `profile`.
    pub open spec fn total_of(&self, profile: u64) -> u64 {
        if self.profile_total_fund_collected@.contains_key(profile) {
            self.profile_total_fund_collected@[profile]
        } else {
            0
        }
    }

    /// No profile has collected more than the registration fee, and no funder has
    /// given more than its profile collected.
    pub open spec fn wf(&self) -> bool {
        &&& forall|p: u64| #[trigger] self.total_of(p) <= self.registration_fee
        &&& forall|k: (u64, u64)|
            #[trigger] self.profile_fund_details@.contains_key(k) ==> self.profile_fund_details@[k].deposit
                <= self.total_of(k.0)
    }

    /// Empty storage with the default fees: 1000 to register, 100 to challenge.
    pub fn new() -> (r: Pallet)
        ensures
            r.wf(),
            r.something == None::<u32>,
            r.next_citizen_id == FIRST_CITIZEN_ID,
            r.get_citizen_id@ == Map::<u64, u64>::empty(),
            r.citizen_profile@ == Map::<u64, CitizenDetailsPost>::empty(),
            r.registration_fee == 1000,
            r.registration_challenge_fee == 100,
            r.profile_fund_details@ == Map::<(u64, u64), ProfileFundInfo>::empty(),
            r.profile_total_fund_collected@ == Map::<u64, u64>::empty(),
            r.events@ == Seq::<Event>::empty(),
    {
        Pallet {
            something: None,
            next_citizen_id: DefaultForNextCitizenId(),
            get_citizen_id: BTreeMap::new(),
            citizen_profile: BTreeMap::new(),
            registration_fee: DefaultRegistrationFee(),
            registration_challenge_fee: DefaultRegistrationChallengeFee(),
            profile_fund_details: BTreeMap::new(),
            profile_total_fund_collected: BTreeMap::new(),
            events: Vec::new(),
        }
    }

    /// The profile of `who`, made at `block` and `time` with `content`: a new
    /// account becomes the next citizen; a citizen whose validation nobody has
    /// funded yet replaces its profile, keeping its citizen id; once funding
    /// began the profile can no longer change.
    pub fn add_citizen(&mut self, who: u64, content: Content, block: u64, time: u64) -> (r: Result<
        (),
        Error,
    >)
        requires
            old(self).wf(),
            old(self).next_citizen_id < u64::MAX,
        ensures
            final(self).wf(),
            r == if old(self).get_citizen_id@.contains_key(who) && old(self).total_of(who) > 0 {
                Err(Error::NoMoreUpdates)
            } else {
                Ok(())
            },
            r.is_err() ==> *final(self) == *old(self),
            r.is_ok() ==> {
                let exists = old(self).get_citizen_id@.contains_key(who);
                let id = if exists {
                    old(self).get_citizen_id@[who]
                } else {
                    old(self).next_citizen_id
                };
                &&& final(self).citizen_profile@ == old(self).citizen_profile@.insert(
                    who,
                    final(self).citizen_profile@[who],
                )
                &&& final(self).citizen_profile@[who]@ == (CitizenDetailsPostView {
                    created: WhoAndWhen { account: who, block, time },
                    content: content@,
                    citizen_id: id,
                    owner: who,
                    edited: false,
                    hidden: false,
                    upvotes_count: 0,
                    downvotes_count: 0,
                })
                &&& exists ==> {
                    &&& final(self).get_citizen_id == old(self).get_citizen_id
                    &&& final(self).next_citizen_id == old(self).next_citizen_id
                    &&& final(self).events == old(self).events
                }
                &&& !exists ==> {
                    &&& final(self).get_citizen_id@ == old(self).get_citizen_id@.insert(who, id)
                    &&& final(self).next_citizen_id == id + 1
                    &&& final(self).events@ == old(self).events@.push(Event::CreateCitizen(who, id))
                }
                &&& final(self).something == old(self).something
                &&& final(self).registration_fee == old(self).registration_fee
                &&& final(self).registration_challenge_fee == old(self).registration_challenge_fee
                &&& final(self).profile_fund_details == old(self).profile_fund_details
                &&& final(self).profile_total_fund_collected == old(self).profile_total_fund_collected
            },
    {
        match self.get_citizen_id.get(&who) {
            Some(citizen_id) => {
                let id = *citizen_id;
                let funded = match self.profile_total_fund_collected.get(&who) {
                    Some(t) => *t,
                    None => 0,
                };
                if funded > 0 {
                    return Err(Error::NoMoreUpdates);
                }
                let new_post = CitizenDetailsPost::new(id, who, content, block, time);
                self.citizen_profile.insert(who, new_post);
                proof {
                    self.lemma_wf_kept(*old(self));
                }
                Ok(())
            },
            None => {
                let count = self.next_citizen_id;
                self.get_citizen_id.insert(who, count);
                let new_post = CitizenDetailsPost::new(count, who, content, block, time);
                self.citizen_profile.insert(who, new_post);
                self.next_citizen_id = count + 1;
                self.events.push(Event::CreateCitizen(who, count));
                proof {
                    self.lemma_wf_kept(*old(self));
                }
                Ok(())
            },
        }
    }

    /// The invariant only reads the fee and the funds.
    proof fn lemma_wf_kept(&self, before: Pallet)
        requires
            before.wf(),
            self.registration_fee == before.registration_fee,
            self.profile_fund_details == before.profile_fund_details,
            self.profile_total_fund_collected == before.profile_total_fund_collected,
        ensures
            self.wf(),
    {
        assert forall|p: u64| #[trigger] self.total_of(p) <= self.registration_fee by {
            assert(before.total_of(p) <= before.registration_fee);
        }
        assert forall|k: (u64, u64)| #[trigger] self.profile_fund_details@.contains_key(k) implies self.profile_fund_details@[k].deposit
            <= self.total_of(k.0) by {
            assert(before.profile_fund_details@.contains_key(k));
        }
    }

    /// Refuses an account without a profile.
    pub fn ensure_account_id_has_profile(&self, account_id: u64) -> (r: Result<(), Error>)
        ensures
            r == if self.get_citizen_id@.contains_key(account_id) {
                Ok::<(), Error>(())
            } else {
                Err(Error::CitizenDoNotExists)
            },
    {
        match self.get_citizen_id.get(&account_id) {
            Some(_) => Ok(()),
            None => Err(Error::CitizenDoNotExists),
        }
    }

    /// `who` gives `amount_to_fund` towards the validation of the profile of
    /// `profile_user_account`, at block `now`; `withdrawal_ok` tells whether
    /// `who` can pay it, and on success the result is the amount to withdraw. No more than what is missing to the registration fee
    /// is accepted; the gift that completes it starts the validation game in
    /// `games`, in its evidence phase.
    pub fn add_profile_stake(
        &mut self,
        who: u64,
        profile_user_account: u64,
        amount_to_fund: u64,
        now: u64,
        withdrawal_ok: bool,
        games: &mut schelling_game_shared::Pallet,
    ) -> (r: Result<u64, Error>)
        requires
            old(self).wf(),
        ensures
            final(self).wf(),
            ({
                let p = profile_user_account;
                let total = old(self).total_of(p);
                let required = old(self).registration_fee - total;
                let completes = amount_to_fund == required;
                &&& r == if !old(self).get_citizen_id@.contains_key(p) {
                    Err(Error::CitizenDoNotExists)
                } else if amount_to_fund > required {
                    Err(Error::AmountFundedGreaterThanRequired)
                } else if completes && lookup(old(games).period_name@, validation_key(p, now)) is Some {
                    Err(Error::Game(schelling_game_shared::Error::PeriodExists))
                } else if !withdrawal_ok {
                    Err(Error::WithdrawFailed)
                } else {
                    Ok(amount_to_fund)
                }
                &&& r.is_err() ==> *final(self) == *old(self) && *final(games) == *old(games)
                &&& r.is_ok() ==> {
                    let k = (p, who);
                    let info = if old(self).profile_fund_details@.contains_key(k) {
                        ProfileFundInfo {
                            deposit: (old(self).profile_fund_details@[k].deposit + amount_to_fund) as u64,
                            ..old(self).profile_fund_details@[k]
                        }
                    } else {
                        ProfileFundInfo {
                            funder_account_id: who,
                            validation_account_id: p,
                            deposit: amount_to_fund,
                            deposit_returned: false,
                        }
                    };
                    &&& final(self).profile_fund_details@ == old(self).profile_fund_details@.insert(
                        k,
                        info,
                    )
                    &&& final(self).profile_total_fund_collected@ == old(self).profile_total_fund_collected@.insert(p, (total + amount_to_fund) as u64)
                    &&& final(self).events@ == old(self).events@.push(
                        Event::ProfileFund { profile: p, funder: who },
                    )
                    &&& *final(self) == (Pallet {
                        profile_fund_details: final(self).profile_fund_details,
                        profile_total_fund_collected: final(self).profile_total_fund_collected,
                        events: final(self).events,
                        ..*old(self)
                    })
                    &&& !completes ==> *final(games) == *old(games)
                    &&& completes ==> {
                        &&& forall|key: SumTreeKey| #[trigger] lookup(final(games).period_name@, key)
                            == if key == validation_key(p, now) {
                            Some(schelling_game_shared::Period::Evidence)
                        } else {
                            lookup(old(games).period_name@, key)
                        }
                        &&& forall|key: SumTreeKey| #[trigger] lookup(
                            final(games).evidence_start_time@,
                            key,
                        ) == if key == validation_key(p, now) {
                            Some(now)
                        } else {
                            lookup(old(games).evidence_start_time@, key)
                        }
                        &&& final(games).staking_start_time == old(games).staking_start_time
                        &&& final(games).min_block_time == old(games).min_block_time
                    }
                }
            }),
    {
        self.ensure_account_id_has_profile(profile_user_account)?;
        let registration_fee = self.registration_fee;
        let total_funded = match self.profile_total_fund_collected.get(&profile_user_account) {
            Some(t) => *t,
            None => 0,
        };
        proof {
            assert(old(self).total_of(profile_user_account) <= old(self).registration_fee);
        }
        let required_fund = registration_fee - total_funded;
        if amount_to_fund > required_fund {
            return Err(Error::AmountFundedGreaterThanRequired);
        }
        let key = SumTreeName::ProfileValidation {
            citizen_address: profile_user_account,
            block_number: now,
        };
        if amount_to_fund == required_fund {
            if let Some(_period) = games.get_period(&key) {
                return Err(Error::Game(schelling_game_shared::Error::PeriodExists));
            }
        }
        if !withdrawal_ok {
            return Err(Error::WithdrawFailed);
        }
        if amount_to_fund == required_fund {
            match games.set_to_evidence_period(key, now) {
                Ok(()) => {},
                Err(e) => return Err(Error::Game(e)),
            }
        }
        let fk = (profile_user_account, who);
        let info = match self.profile_fund_details.get(&fk) {
            Some(profile_fund_info) => {
                proof {
                    assert(old(self).profile_fund_details@.contains_key(fk));
                }
                let deposit = profile_fund_info.deposit;
                ProfileFundInfo { deposit: deposit + amount_to_fund, ..*profile_fund_info }
            },
            None => ProfileFundInfo {
                funder_account_id: who,
                validation_account_id: profile_user_account,
                deposit: amount_to_fund,
                deposit_returned: false,
            },
        };
        self.profile_fund_details.insert(fk, info);
        let next_total_fund = total_funded + amount_to_fund;
        self.profile_total_fund_collected.insert(profile_user_account, next_total_fund);
        self.events.push(Event::ProfileFund { profile: profile_user_account, funder: who });
        proof {
            assert forall|p: u64| #[trigger] self.total_of(p) <= self.registration_fee by {
                assert(old(self).total_of(p) <= old(self).registration_fee);
            }
            assert forall|k: (u64, u64)| #[trigger]
                self.profile_fund_details@.contains_key(k) implies self.profile_fund_details@[k].deposit
                <= self.total_of(k.0) by {
                assert(old(self).total_of(k.0) <= old(self).registration_fee);
                if k != fk {
                    assert(old(self).profile_fund_details@.contains_key(k));
                }
            }
        }
        Ok(amount_to_fund)
    }
}

} // verus!
