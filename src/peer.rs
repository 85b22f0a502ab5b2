//! The sender: its verified identity and the address it connected from.
use multiaddr::Multiaddr;
use vstd::prelude::*;

verus! {

#[verifier::external_type_specification]
#[verifier::external_body]
pub struct ExMultiaddr(Multiaddr);

/// The bytes that a multiaddress holds: its components, each a protocol code
/// and that protocol's address bytes.
pub uninterp spec fn multiaddr_bytes(m: Multiaddr) -> Seq<u8>;

/// The identity that the transport verified for the connection.
pub struct PeerIdentity {
    pub name: String,
    pub public_key: Vec<u8>,
}

/// The IP address that a connection came from, as its octets.
#[derive(Clone, Copy, Debug, PartialEq, Eq)]
pub enum PeerIp {
    V4([u8; 4]),
    V6([u8; 16]),
}

/// The multiaddress code of an IPv4 address.
pub const IP4_CODE: u8 = 4;

/// The multiaddress code of an IPv6 address.
pub const IP6_CODE: u8 = 41;

/// The one multiaddress component that names `ip`: its protocol code, then
/// its octets in network order.
pub open spec fn ip_component(ip: PeerIp) -> Seq<u8> {
    match ip {
        PeerIp::V4(a) => seq![IP4_CODE] + a@,
        PeerIp::V6(a) => seq![IP6_CODE] + a@,
    }
}

/// Relies on `Multiaddr`'s `TryFrom<Vec<u8>>`: it reads the bytes as
/// components, accepts a lone `ip4` component (code 4 and four bytes) or
/// `ip6` component (code 41 and sixteen bytes), and keeps the bytes as given.
#[verifier::external_body]
fn multiaddr_from_bytes(b: Vec<u8>) -> (r: Multiaddr)
    requires
        (b@.len() == 5 && b@[0] == IP4_CODE) || (b@.len() == 17 && b@[0] == IP6_CODE),
    ensures
        multiaddr_bytes(r) == b@,
{
    Multiaddr::try_from(b).unwrap()
}

/// The multiaddress of the IP address `ip`.
pub fn peer_multiaddr(ip: &PeerIp) -> (r: Multiaddr)
    ensures
        multiaddr_bytes(r) == ip_component(*ip),
{
    let mut b: Vec<u8> = Vec::new();
    match ip {
        PeerIp::V4(a) => {
            b.push(IP4_CODE);
            let mut i: usize = 0;
            while i < 4
                invariant
                    i <= 4,
                    b@ == seq![IP4_CODE] + a@.take(i as int),
                decreases 4 - i,
            {
                b.push(a[i]);
                i = i + 1;
                assert(b@ =~= seq![IP4_CODE] + a@.take(i as int));
            }
            assert(a@.take(4) =~= a@);
        },
        PeerIp::V6(a) => {
            b.push(IP6_CODE);
            let mut i: usize = 0;
            while i < 16
                invariant
                    i <= 16,
                    b@ == seq![IP6_CODE] + a@.take(i as int),
                decreases 16 - i,
            {
                b.push(a[i]);
                i = i + 1;
                assert(b@ =~= seq![IP6_CODE] + a@.take(i as int));
            }
            assert(a@.take(16) =~= a@);
        },
    }
    multiaddr_from_bytes(b)
}

} // verus!
