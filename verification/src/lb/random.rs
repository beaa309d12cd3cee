use vstd::prelude::*;

use super::LoadBalancingStrategy;
use crate::addr::SocketAddr;
use crate::backend::Backend;
use crate::config::Algorithm;

verus! {

/// Draws a number below `n` with `rand::random_range(0..n)`, from the
/// thread-local generator. Claimed: the number is below `n` (the call panics
/// on an empty range, which `requires` leaves out). Which number comes is
/// chance and is not stated.
#[verifier::external_body]
fn random_below(n: usize) -> (r: usize)
    requires
        n > 0,
    ensures
        r < n,
{
    rand::random_range(0..n)
}

/// Sends each request to a backend drawn at random.
#[derive(Debug, Clone, Copy)]
pub struct Random;

impl Random {
    pub fn new() -> (r: Random) {
        Random
    }
}

impl LoadBalancingStrategy for Random {
    open spec fn accepts(&self, backends: Seq<Backend>) -> bool {
        true
    }

    open spec fn kind(&self) -> Algorithm {
        Algorithm::Random
    }

    fn select(&mut self, backends: &[Backend], client_addr: Option<&SocketAddr>) -> (r: Option<
        usize,
    >)
        ensures
            *final(self) == *old(self),
    {
        if backends.len() == 0 {
            return None;
        }
        let index = random_below(backends.len());
        Some(index)
    }

    fn algorithm(&self) -> (r: Algorithm) {
        Algorithm::Random
    }

    fn can_select(&self, backends: &[Backend]) -> (r: bool) {
        true
    }
}

} // verus!
