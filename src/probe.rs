//! A small probe contract used to try swaps by hand: it holds one flag, and
//! describes a swap step by the pool it goes through and its limits.
use vstd::prelude::*;
use crate::account::AccountId;

verus! {

/// One step of a routed swap: the pool, the amount or limit in, the amount or
/// limit out, and the highest spot price accepted.
#[derive(Debug, Clone, Copy, PartialEq, Eq, Structural)]
pub struct Swap {
    pub pool: AccountId,
    pub token_in_param: u128,
    pub token_out_param: u128,
    pub max_price: u128,
}

#[derive(Debug, Clone, Copy, PartialEq, Eq, Structural)]
pub struct Test {
    pub value: bool,
}

impl Test {
    pub fn new(init_value: bool) -> (r: Test)
        ensures
            r.value == init_value,
    {
        Test { value: init_value }
    }

    /// A probe with its flag down.
    pub fn default() -> (r: Test)
        ensures
            !r.value,
    {
        Self::new(false)
    }
}

} // verus!
