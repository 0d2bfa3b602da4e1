use vstd::prelude::*;

use crate::MarketError;

verus! {

/// The anti-spam payment: exactly one indivisible unit must be attached.
pub fn assert_one_yocto(attached_deposit: u128) -> (r: Result<(), MarketError>)
    ensures
        r == (if attached_deposit == 1 { Ok::<(), MarketError>(()) } else { Err(MarketError::InsufficientDeposit) }),
{
    if attached_deposit == 1 {
        Ok(())
    } else {
        Err(MarketError::InsufficientDeposit)
    }
}

} // verus!
