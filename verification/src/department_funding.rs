//! Funds that departments ask for, sized by a tipping class that caps the
//! amount and fixes the stake the asker pays.
use vstd::prelude::*;
use crate::support::{WhoAndWhen, new_who_and_when};
use std::collections::BTreeMap;

verus! {

pub const DEPARTMENT_REQUIRED_FUND_ID: u64 = 1;

/// The class of a fund request.
#[derive(PartialEq, Eq, Structural, Clone, Copy, Debug)]
pub enum TippingName {
    SmallTipper,
    BigTipper,
    SmallSpender,
    MediumSpender,
    BigSpender,
}

/// What a class allows and asks: the largest fund and the stake required.
#[derive(PartialEq, Eq, Structural, Clone, Copy, Debug)]
pub struct TippingValue {
    pub max_tipping_value: u64,
    pub stake_required: u64,
}

/// The cap and the stake of each class.
pub open spec fn tipping_value(tipping: TippingName) -> TippingValue {
    match tipping {
        TippingName::SmallTipper => TippingValue { max_tipping_value: 10_000, stake_required: 10 },
        TippingName::BigTipper => TippingValue { max_tipping_value: 100_000, stake_required: 50 },
        TippingName::SmallSpender => TippingValue { max_tipping_value: 1_000_000, stake_required: 100 },
        TippingName::MediumSpender => TippingValue { max_tipping_value: 10_000_000, stake_required: 200 },
        TippingName::BigSpender => TippingValue { max_tipping_value: 100_000_000, stake_required: 500 },
    }
}

/// The cap and the stake of the class `tipping`.
pub fn value_of_tipping_name(tipping: TippingName) -> (r: TippingValue)
    ensures
        r == tipping_value(tipping),
{
    match tipping {
        TippingName::SmallTipper => TippingValue { max_tipping_value: 10_000, stake_required: 10 },
        TippingName::BigTipper => TippingValue { max_tipping_value: 100_000, stake_required: 50 },
        TippingName::SmallSpender => TippingValue { max_tipping_value: 1_000_000, stake_required: 100 },
        TippingName::MediumSpender => TippingValue {
            max_tipping_value: 10_000_000,
            stake_required: 200,
        },
        TippingName::BigSpender => TippingValue { max_tipping_value: 100_000_000, stake_required: 500 },
    }
}

/// An amount to take from the free balance of `who`, which a call asks for.
#[derive(PartialEq, Eq, Structural, Clone, Copy, Debug)]
pub struct Withdrawal {
    pub who: u64,
    pub amount: u64,
}

/// A fund that a department asks for.
#[derive(PartialEq, Eq, Structural, Clone, Copy, Debug)]
pub struct DepartmentRequiredFund {
    pub created: WhoAndWhen,
    pub department_required_fund_id: u64,
    pub department_id: u64,
    pub tipping_name: TippingName,
    pub funding_needed: u64,
    pub creator: u64,
}

impl DepartmentRequiredFund {
    /// The request of `creator`, made at `block` and `time`.
    pub fn new(
        department_required_fund_id: u64,
        department_id: u64,
        tipping_name: TippingName,
        funding_needed: u64,
        creator: u64,
        block: u64,
        time: u64,
    ) -> (r: DepartmentRequiredFund)
        ensures
            r == (DepartmentRequiredFund {
                created: WhoAndWhen { account: creator, block, time },
                department_required_fund_id,
                department_id,
                tipping_name,
                funding_needed,
                creator,
            }),
    {
        DepartmentRequiredFund {
            created: new_who_and_when(creator, block, time),
            department_required_fund_id,
            department_id,
            tipping_name,
            funding_needed,
            creator,
        }
    }
}

/// What the pallet reports.
#[derive(PartialEq, Eq, Structural, Clone, Copy, Debug)]
pub enum Event {
    SomethingStored { something: u32, who: u64 },
    DepartmentFundCreated { account: u64, department_required_fund_id: u64 },
    StakingPeriodStarted { department_required_fund_id: u64, block_number: u64 },
    ApplyJurors { department_required_fund_id: u64, block_number: u64, account: u64 },
}

/// Why a call was refused.
#[derive(PartialEq, Eq, Structural, Clone, Copy, Debug)]
pub enum Error {
    NoneValue,
    StorageOverflow,
    LessThanMinStake,
    CannotStakeNow,
    ChoiceOutOfRange,
    FundingMoreThanTippingValue,
    DepartmentRequiredFundDontExits,
    BlockDepartmentRequiredFundIdNotExists,
    ValidationForDepartmentRequiredFundIdIsOff,
    FundingStatusProcessing,
    ReapplicationTimeNotReached,
    ConditionDontMatch,
    /// The asker's account could not pay the stake.
    WithdrawFailed,
}

/// The stake a department needs to take tips.
pub fn MinimumDepartmentStake() -> (r: u64)
    ensures
        r == 10000,
{
    10000
}

/// The first fund request id.
pub fn DefaultForNextDepartmentRequiredFundId() -> (r: u64)
    ensures
        r == DEPARTMENT_REQUIRED_FUND_ID,
{
    DEPARTMENT_REQUIRED_FUND_ID
}

/// The storage of the pallet.
pub struct Pallet {
    pub something: Option<u32>,
    pub next_department_required_fund_id: u64,
    pub department_required_funds: BTreeMap<u64, DepartmentRequiredFund>,
    pub validate_department_required_fund: BTreeMap<u64, bool>,
    pub validation_department_required_funds_block: BTreeMap<u64, u64>,
    pub events: Vec<Event>,
}

impl Pallet {
    /// No request yet.
    pub fn new() -> (r: Pallet)
        ensures
            r.something == None::<u32>,
            r.next_department_required_fund_id == DEPARTMENT_REQUIRED_FUND_ID,
            r.department_required_funds@ == Map::<u64, DepartmentRequiredFund>::empty(),
            r.validate_department_required_fund@ == Map::<u64, bool>::empty(),
            r.validation_department_required_funds_block@ == Map::<u64, u64>::empty(),
            r.events@ == Seq::<Event>::empty(),
    {
        Pallet {
            something: None,
            next_department_required_fund_id: DefaultForNextDepartmentRequiredFundId(),
            department_required_funds: BTreeMap::new(),
            validate_department_required_fund: BTreeMap::new(),
            validation_department_required_funds_block: BTreeMap::new(),
            events: Vec::new(),
        }
    }

    /// `who` asks, at `block` and `time`, for `funding_needed` for department
    /// `department_id` in the class `tipping_name`, under the next request id;
    /// the amount may not pass the cap of the class, and `withdrawal_ok` tells
    /// whether `who` can pay the stake of the class. The stake is withdrawn as
    /// the returned withdrawal says.
    pub fn create_department_required_fund(
        &mut self,
        who: u64,
        department_id: u64,
        tipping_name: TippingName,
        funding_needed: u64,
        block: u64,
        time: u64,
        withdrawal_ok: bool,
    ) -> (r: Result<Withdrawal, Error>)
        requires
            old(self).next_department_required_fund_id < u64::MAX,
        ensures
            r == if funding_needed > tipping_value(tipping_name).max_tipping_value {
                Err(Error::FundingMoreThanTippingValue)
            } else if !withdrawal_ok {
                Err(Error::WithdrawFailed)
            } else {
                Ok(Withdrawal { who, amount: tipping_value(tipping_name).stake_required })
            },
            r.is_err() ==> *final(self) == *old(self),
            r.is_ok() ==> {
                let id = old(self).next_department_required_fund_id;
                &&& final(self).department_required_funds@ == old(self).department_required_funds@.insert(
                    id,
                    DepartmentRequiredFund {
                        created: WhoAndWhen { account: who, block, time },
                        department_required_fund_id: id,
                        department_id,
                        tipping_name,
                        funding_needed,
                        creator: who,
                    },
                )
                &&& final(self).next_department_required_fund_id == id + 1
                &&& final(self).events@ == old(self).events@.push(
                    Event::DepartmentFundCreated { account: who, department_required_fund_id: id },
                )
                &&& final(self).something == old(self).something
                &&& final(self).validate_department_required_fund == old(self).validate_department_required_fund
                &&& final(self).validation_department_required_funds_block == old(self).validation_department_required_funds_block
            },
    {
        let tipping_value = value_of_tipping_name(tipping_name);
        let max_tipping_value = tipping_value.max_tipping_value;
        let new_department_fund_id = self.next_department_required_fund_id;
        let new_department_fund = DepartmentRequiredFund::new(
            new_department_fund_id,
            department_id,
            tipping_name,
            funding_needed,
            who,
            block,
            time,
        );
        if funding_needed > max_tipping_value {
            return Err(Error::FundingMoreThanTippingValue);
        }
        if !withdrawal_ok {
            return Err(Error::WithdrawFailed);
        }
        self.department_required_funds.insert(new_department_fund_id, new_department_fund);
        self.next_department_required_fund_id = new_department_fund_id + 1;
        self.events.push(
            Event::DepartmentFundCreated {
                account: who,
                department_required_fund_id: new_department_fund_id,
            },
        );
        Ok(Withdrawal { who, amount: tipping_value.stake_required })
    }

    /// Refuses a request whose validation is not turned on.
    pub fn ensure_validation_on_positive_externality(&self, department_required_fund_id: u64) -> (r:
        Result<(), Error>)
        ensures
            r == if self.validate_department_required_fund@.contains_key(department_required_fund_id)
                && self.validate_department_required_fund@[department_required_fund_id] {
                Ok::<(), Error>(())
            } else {
                Err(Error::ValidationForDepartmentRequiredFundIdIsOff)
            },
    {
        let bool_data = match self.validate_department_required_fund.get(&department_required_fund_id) {
            Some(b) => *b,
            None => false,
        };
        if !bool_data {
            return Err(Error::ValidationForDepartmentRequiredFundIdIsOff);
        }
        Ok(())
    }

    /// The department of a request: every request belongs to department 1.
    pub fn get_department_id_from_department_required_fund_id(&self, department_required_fund_id: u64) -> (r:
        Result<u64, Error>)
        ensures
            r == Ok::<u64, Error>(1),
    {
        Ok(1)
    }

    /// The block at which the validation game of a request started.
    pub fn get_block_number_of_schelling_game(&self, department_required_fund_id: u64) -> (r: Result<
        u64,
        Error,
    >)
        ensures
            r == if self.validation_department_required_funds_block@.contains_key(
                department_required_fund_id,
            ) {
                Ok::<u64, Error>(self.validation_department_required_funds_block@[department_required_fund_id])
            } else {
                Err(Error::BlockDepartmentRequiredFundIdNotExists)
            },
    {
        match self.validation_department_required_funds_block.get(&department_required_fund_id) {
            Some(block_number) => Ok(*block_number),
            None => Err(Error::BlockDepartmentRequiredFundIdNotExists),
        }
    }

    /// A `u64` as a balance; balances are `u64`, so it is unchanged.
    pub fn u64_to_balance_saturated(input: u64) -> (r: u64)
        ensures
            r == input,
    {
        input
    }

    /// A `u64` as a block number; block numbers are `u64`, so it is unchanged.
    pub fn u64_to_block_saturated(input: u64) -> (r: u64)
        ensures
            r == input,
    {
        input
    }
}

} // verus!
