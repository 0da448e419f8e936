//! The universal basic income: each month a hundredth of the issuance, shared
//! among the validated citizens.
use vstd::prelude::*;

verus! {

/// Why a payment was refused.
#[derive(PartialEq, Eq, Structural, Clone, Copy, Debug)]
pub enum Error {
    NoneValue,
    StorageOverflow,
    /// The account is not a validated citizen.
    NotValidated,
}

/// The monthly income of one citizen: a hundredth of the issuance, over twelve
/// months, over the validated citizens, each division rounding down.
pub open spec fn ubi_per_person(total_issuance: u64, validated: u64) -> int {
    total_issuance as int / 100 / 12 / validated as int
}

/// The income `who` receives, given whether it is validated, how many
/// citizens are, and the total issuance.
pub fn fun_ubi(who: u64, account_validated: bool, number_of_validated_accounts: u64, total_issuance: u64) -> (r:
    Result<u64, Error>)
    requires
        account_validated ==> number_of_validated_accounts > 0,
    ensures
        r == if !account_validated {
            Err::<u64, Error>(Error::NotValidated)
        } else {
            Ok(ubi_per_person(total_issuance, number_of_validated_accounts) as u64)
        },
{
    if !account_validated {
        return Err(Error::NotValidated);
    }
    let one_percentage_issuance = total_issuance / 100;
    let total_ubi_per_month = one_percentage_issuance / 12;
    let ubi_person = total_ubi_per_month / number_of_validated_accounts;
    Ok(ubi_person)
}

} // verus!
