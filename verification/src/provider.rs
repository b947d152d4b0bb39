//! Request limits that a mod provider grants.
use vstd::prelude::*;

verus! {

/// A provider's request allowance: how many requests the period allows, how many are
/// left, and when the period resets.
#[derive(Clone, Copy, Debug, PartialEq, Eq, Structural)]
pub struct Limits {
    pub limit: i32,
    pub remaining: i32,
    pub reset: usize,
}

/// The allowance assumed before a provider has reported one: 2500 requests, all left,
/// with no reset in sight.
pub open spec fn default_limits() -> Limits {
    Limits { limit: 2500, remaining: 2500, reset: usize::MAX }
}

impl Default for Limits {
    fn default() -> (r: Self)
        ensures
            r == default_limits(),
    {
        Limits { limit: 2500, remaining: 2500, reset: usize::MAX }
    }
}

} // verus!
