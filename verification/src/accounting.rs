//! The kinds of transactions on an account.

use vstd::prelude::*;

verus! {

/// The name of the kind of a transaction: a deposit where the amount is
/// above zero, a withdrawal where it is not.
pub open spec fn kind_of(amount_is_positive: bool) -> Seq<char> {
    if amount_is_positive {
        "deposit"@
    } else {
        "withdraw"@
    }
}

/// The name of the kind of a transaction, by whether its amount is above zero.
pub fn transaction_type(amount_is_positive: bool) -> (kind: &'static str)
    ensures
        kind@ == kind_of(amount_is_positive),
{
    match amount_is_positive {
        true => "deposit",
        false => "withdraw",
    }
}

} // verus!
