use vstd::prelude::*;

verus! {

/// An IP socket address, held as plain values: an IPv4 address (its 32 bits,
/// most significant octet first) with a port, or an IPv6 address (its 128 bits,
/// most significant octet first) with a port, a flow label and a scope id.
#[derive(Clone, Copy, Debug, PartialEq, Eq, Structural)]
pub enum SocketAddr {
    V4 { ip: u32, port: u16 },
    V6 { ip: u128, port: u16, flowinfo: u32, scope_id: u32 },
}

/// The error for a text that is no socket address.
#[derive(Clone, Copy, Debug, PartialEq, Eq, Structural)]
pub struct AddrParseError;

/// Octet `k` (counted from the most significant one) of a 32-bit IPv4 address.
pub open spec fn v4_octet(ip: u32, k: int) -> u8 {
    ((ip >> ((24 - 8 * k) as u32)) & 0xff) as u8
}

/// Octet `k` (counted from the most significant one) of a 128-bit IPv6 address.
pub open spec fn v6_octet(ip: u128, k: int) -> u8 {
    ((ip >> ((120 - 8 * k) as u32)) & 0xff) as u8
}

impl SocketAddr {
    /// The octets of the address's IP part, most significant first: four for
    /// IPv4, sixteen for IPv6.
    pub open spec fn octets(self) -> Seq<u8> {
        match self {
            SocketAddr::V4 { ip, .. } => Seq::new(4, |k: int| v4_octet(ip, k)),
            SocketAddr::V6 { ip, .. } => Seq::new(16, |k: int| v6_octet(ip, k)),
        }
    }

    /// Returns the octets of the IP part, most significant first.
    pub fn ip_octets(&self) -> (r: Vec<u8>)
        ensures
            r@ == self.octets(),
    {
        let mut out: Vec<u8> = Vec::new();
        match *self {
            SocketAddr::V4 { ip, .. } => {
                let mut k: u32 = 0;
                while k < 4
                    invariant
                        k <= 4,
                        out@ =~= Seq::new(k as nat, |j: int| v4_octet(ip, j)),
                    decreases 4 - k,
                {
                    let byte: u8 = ((ip >> (24 - 8 * k)) & 0xff) as u8;
                    out.push(byte);
                    k = k + 1;
                }
            },
            SocketAddr::V6 { ip, .. } => {
                let mut k: u32 = 0;
                while k < 16
                    invariant
                        k <= 16,
                        out@ =~= Seq::new(k as nat, |j: int| v6_octet(ip, j)),
                    decreases 16 - k,
                {
                    let byte: u8 = ((ip >> (120 - 8 * k)) & 0xff) as u8;
                    out.push(byte);
                    k = k + 1;
                }
            },
        }
        out
    }
}


/// The octets of an IPv4 address are its four bytes, most significant first:
/// put back together in base 256 they give the address.
pub proof fn law_v4_octets(ip: u32, port: u16)
    ensures
        ({
            let o = (SocketAddr::V4 { ip, port }).octets();
            &&& o.len() == 4
            &&& ip == o[0] * 0x1000000 + o[1] * 0x10000 + o[2] * 0x100 + o[3]
        }),
{
    let o = (SocketAddr::V4 { ip, port }).octets();
    assert(o[0] == v4_octet(ip, 0) && o[1] == v4_octet(ip, 1) && o[2] == v4_octet(ip, 2) && o[3]
        == v4_octet(ip, 3));
    assert(ip == ((ip >> 24u32) & 0xff) as u8 * 0x1000000 + ((ip >> 16u32) & 0xff) as u8 * 0x10000
        + ((ip >> 8u32) & 0xff) as u8 * 0x100 + ((ip >> 0u32) & 0xff) as u8) by (bit_vector);
}

/// The octets of an IPv6 address are its sixteen bytes, most significant
/// first: each pair of them, put together in base 256, gives the matching
/// 16-bit group of the address.
pub proof fn law_v6_octets(ip: u128, port: u16, flowinfo: u32, scope_id: u32)
    ensures
        ({
            let o = (SocketAddr::V6 { ip, port, flowinfo, scope_id }).octets();
            &&& o.len() == 16
            &&& forall|g: int|
                0 <= g < 8 ==> (ip >> ((112 - 16 * g) as u32)) & 0xffff == #[trigger] o[2 * g]
                    * 0x100 + o[2 * g + 1]
        }),
{
    let o = (SocketAddr::V6 { ip, port, flowinfo, scope_id }).octets();
    assert forall|g: int| 0 <= g < 8 implies (ip >> ((112 - 16 * g) as u32)) & 0xffff
        == #[trigger] o[2 * g] * 0x100 + o[2 * g + 1] by {
        let sh = (112 - 16 * g) as u32;
        assert(o[2 * g] == v6_octet(ip, 2 * g));
        assert(o[2 * g + 1] == v6_octet(ip, 2 * g + 1));
        assert(((120 - 8 * (2 * g)) as u32) == sh + 8);
        assert(((120 - 8 * (2 * g + 1)) as u32) == sh);
        assert(sh <= 112);
        assert((ip >> sh) & 0xffff == ((ip >> (sh + 8) as u32) & 0xff) as u8 * 0x100 + ((ip >> sh)
            & 0xff) as u8) by (bit_vector)
            requires
                sh <= 112,
        ;
    }
}

} // verus!
