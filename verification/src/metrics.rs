use vstd::prelude::*;

verus! {

/// Whether a configuration reload succeeded.
#[derive(Debug, Clone, Copy, PartialEq, Eq, Structural)]
pub enum ReloadResult {
    Success,
    Failure,
}

impl ReloadResult {
    /// The value of the `result` label a reload is counted under.
    pub fn label(&self) -> (r: &'static str)
        ensures
            r@ == match self {
                ReloadResult::Success => "success"@,
                ReloadResult::Failure => "failure"@,
            },
    {
        match self {
            ReloadResult::Success => "success",
            ReloadResult::Failure => "failure",
        }
    }
}

/// The value a backend's health gauge is set to: 1 for healthy, 0 for not.
pub fn health_gauge_value(healthy: bool) -> (r: i64)
    ensures
        r == if healthy {
            1i64
        } else {
            0i64
        },
{
    if healthy {
        1
    } else {
        0
    }
}

} // verus!
