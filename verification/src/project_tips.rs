//! Projects that ask for tips from a department, in the tipping classes of
//! the department funds.
use vstd::prelude::*;
use crate::support::{WhoAndWhen, new_who_and_when};
use std::collections::BTreeMap;

pub use crate::department_funding::{TippingName, TippingValue, value_of_tipping_name};

verus! {

pub const PROJECT_ID: u64 = 1;

/// A project asking for tips.
#[derive(PartialEq, Eq, Structural, Clone, Copy, Debug)]
pub struct Project {
    pub created: WhoAndWhen,
    pub project_id: u64,
    pub department_id: u64,
    pub tipping_name: TippingName,
    pub funding_needed: u64,
    pub project_leader: u64,
}

impl Project {
    /// The project of `project_leader`, made at `block` and `time`.
    pub fn new(
        project_id: u64,
        department_id: u64,
        tipping_name: TippingName,
        funding_needed: u64,
        project_leader: u64,
        block: u64,
        time: u64,
    ) -> (r: Project)
        ensures
            r == (Project {
                created: WhoAndWhen { account: project_leader, block, time },
                project_id,
                department_id,
                tipping_name,
                funding_needed,
                project_leader,
            }),
    {
        Project {
            created: new_who_and_when(project_leader, block, time),
            project_id,
            department_id,
            tipping_name,
            funding_needed,
            project_leader,
        }
    }
}

/// Why a call was refused.
#[derive(PartialEq, Eq, Structural, Clone, Copy, Debug)]
pub enum Error {
    NoneValue,
    StorageOverflow,
    LessThanMinStake,
}

/// The stakes of the departments.
pub struct Pallet {
    /// Department to its stake.
    pub department_stake_balance: BTreeMap<u64, u64>,
    pub minimum_department_stake: u64,
}

impl Pallet {
    /// No stake yet; a department needs 10000 to take tips.
    pub fn new() -> (r: Pallet)
        ensures
            r.department_stake_balance@ == Map::<u64, u64>::empty(),
            r.minimum_department_stake == 10000,
    {
        Pallet {
            department_stake_balance: BTreeMap::new(),
            minimum_department_stake: crate::department_funding::MinimumDepartmentStake(),
        }
    }

    /// Refuses a department whose stake is below the minimum.
    pub fn ensure_min_stake_deparment(&self, department_id: u64) -> (r: Result<(), Error>)
        ensures
            r == if (if self.department_stake_balance@.contains_key(department_id) {
                self.department_stake_balance@[department_id]
            } else {
                0
            }) >= self.minimum_department_stake {
                Ok::<(), Error>(())
            } else {
                Err(Error::LessThanMinStake)
            },
    {
        let stake = match self.department_stake_balance.get(&department_id) {
            Some(s) => *s,
            None => 0,
        };
        if stake < self.minimum_department_stake {
            return Err(Error::LessThanMinStake);
        }
        Ok(())
    }
}

} // verus!
