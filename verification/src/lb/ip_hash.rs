use vstd::prelude::*;

use super::LoadBalancingStrategy;
use crate::addr::SocketAddr;
use crate::backend::Backend;
use crate::config::Algorithm;

verus! {

/// The hash nginx gives an IP address by its octets: start at 89, and for
/// each octet `b`, in order, go to `(h * 113 + b) % 6271`.
pub open spec fn nginx_ip_hash(octets: Seq<u8>) -> nat
    decreases octets.len(),
{
    if octets.len() == 0 {
        89
    } else {
        ((nginx_ip_hash(octets.drop_last()) * 113 + octets.last()) % 6271) as nat
    }
}

/// Sends all requests of one client IP address to the same backend, chosen
/// by a hash of the address.
#[derive(Debug, Clone, Copy)]
pub struct IpHash;

impl IpHash {
    pub fn new() -> (r: IpHash) {
        IpHash
    }

    /// The hash of the IP part of `addr`.
    fn hash_ip(addr: &SocketAddr) -> (r: usize)
        ensures
            r == nginx_ip_hash(addr.octets()),
    {
        let octets = addr.ip_octets();
        let n = octets.len();
        let mut hash: usize = 89;
        let mut i: usize = 0;
        while i < n
            invariant
                n == octets@.len(),
                i <= n,
                hash == nginx_ip_hash(octets@.take(i as int)),
                hash <= 6270,
            decreases n - i,
        {
            assert(octets@.take(i + 1).drop_last() =~= octets@.take(i as int));
            hash = (hash * 113 + octets[i] as usize) % 6271;
            i = i + 1;
        }
        assert(octets@.take(n as int) =~= octets@);
        hash
    }

    /// The choice among `backends` for a client at `client_addr`: the hash of
    /// its IP address modulo the number of backends, or the first backend
    /// where the client's address is not known.
    pub open spec fn choice(backends: Seq<Backend>, client_addr: Option<&SocketAddr>) -> Option<
        usize,
    > {
        if backends.len() == 0 {
            None
        } else {
            match client_addr {
                None => Some(0usize),
                Some(a) => Some((nginx_ip_hash(a.octets()) % backends.len()) as usize),
            }
        }
    }
}

impl Default for IpHash {
    fn default() -> (r: IpHash) {
        IpHash::new()
    }
}

impl LoadBalancingStrategy for IpHash {
    open spec fn accepts(&self, backends: Seq<Backend>) -> bool {
        true
    }

    open spec fn kind(&self) -> Algorithm {
        Algorithm::IpHash
    }

    fn select(&mut self, backends: &[Backend], client_addr: Option<&SocketAddr>) -> (r: Option<
        usize,
    >)
        ensures
            r == IpHash::choice(backends@, client_addr),
            *final(self) == *old(self),
    {
        if backends.len() == 0 {
            return None;
        }
        let index = match client_addr {
            None => 0,
            Some(addr) => Self::hash_ip(addr) % backends.len(),
        };
        Some(index)
    }

    fn algorithm(&self) -> (r: Algorithm) {
        Algorithm::IpHash
    }

    fn can_select(&self, backends: &[Backend]) -> (r: bool) {
        true
    }
}

/// The choice for a client depends on its IP address alone: two clients at
/// the same IP address (on any ports) are sent to the same backend.
pub proof fn law_ip_hash_same_ip(backends: Seq<Backend>, a: SocketAddr, b: SocketAddr)
    requires
        a.octets() == b.octets(),
    ensures
        IpHash::choice(backends, Some(&a)) == IpHash::choice(backends, Some(&b)),
{
}


/// For any client address, IPv4 or IPv6, and a non-empty list, the choice is
/// the nginx hash of all the address's octets modulo the number of backends;
/// a client whose address is not known gets the first backend, and an empty
/// list gets no choice.
pub proof fn law_ip_hash_choice(backends: Seq<Backend>, a: SocketAddr)
    requires
        0 < backends.len() <= usize::MAX,
    ensures
        IpHash::choice(backends, Some(&a)) matches Some(k) && k < backends.len() && k as int
            == nginx_ip_hash(a.octets()) as int % backends.len() as int,
        IpHash::choice(backends, None) == Some(0usize),
        IpHash::choice(Seq::<Backend>::empty(), Some(&a)) is None,
{
}

/// Two clients, of either address family, are sent to the same backend
/// exactly when the nginx hashes of their addresses' octets agree modulo
/// the number of backends.
pub proof fn law_ip_hash_separates(backends: Seq<Backend>, a: SocketAddr, b: SocketAddr)
    requires
        0 < backends.len() <= usize::MAX,
    ensures
        IpHash::choice(backends, Some(&a)) == IpHash::choice(backends, Some(&b)) <==> nginx_ip_hash(
            a.octets(),
        ) as int % backends.len() as int == nginx_ip_hash(b.octets()) as int % backends.len() as int,
{
}


/// The nginx IP hash starts at 89 and takes in each octet `b` as
/// `(h * 113 + b) % 6271`, so it always stays below 6271.
pub proof fn law_nginx_ip_hash_steps(octets: Seq<u8>, b: u8)
    ensures
        nginx_ip_hash(Seq::<u8>::empty()) == 89,
        nginx_ip_hash(octets.push(b)) == (nginx_ip_hash(octets) * 113 + b) % 6271,
        nginx_ip_hash(octets) < 6271,
{
    assert(octets.push(b).drop_last() =~= octets);
    if octets.len() > 0 {
        assert(nginx_ip_hash(octets) == ((nginx_ip_hash(octets.drop_last()) * 113 + octets.last())
            % 6271) as nat);
    }
}

} // verus!
