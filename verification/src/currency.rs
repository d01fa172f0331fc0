use vstd::prelude::*;

verus! {

/// Currency unit of an account, in a small fixed enumeration.
/// No conversion is ever performed: every entry posted against an account is
/// assumed to already be denominated in that account's unit.
#[derive(Clone, Copy, Debug, PartialEq, Eq, Structural)]
pub enum Currency {
    NGN,
    USD,
    EUR,
    GBP,
}

} // verus!
