//! The storage the pallets share: the accounts of approved citizens.
use vstd::prelude::*;
use crate::sorted::{binary_search, strictly_sorted};

verus! {

/// Why a check failed.
#[derive(PartialEq, Eq, Structural, Clone, Copy, Debug)]
pub enum Error {
    NoneValue,
    StorageOverflow,
    CitizenNotApproved,
}

/// The shared storage.
pub struct Pallet {
    /// The approved citizens, in increasing order.
    pub approved_citizen_address: Vec<u64>,
}

impl Pallet {
    /// The approved citizens are in increasing order.
    pub open spec fn wf(&self) -> bool {
        strictly_sorted(self.approved_citizen_address@)
    }

    /// Refuses an account that is not an approved citizen.
    pub fn check_citizen_is_approved(&self, address: u64) -> (r: Result<(), Error>)
        requires
            self.wf(),
        ensures
            r == if self.approved_citizen_address@.contains(address) {
                Ok::<(), Error>(())
            } else {
                Err(Error::CitizenNotApproved)
            },
    {
        match binary_search(&self.approved_citizen_address, address) {
            Ok(_index) => Ok(()),
            Err(_) => Err(Error::CitizenNotApproved),
        }
    }

    /// The number of approved citizens.
    pub fn get_approved_citizen_count(&self) -> (r: u64)
        ensures
            r == self.approved_citizen_address@.len(),
    {
        self.approved_citizen_address.len() as u64
    }
}

} // verus!
