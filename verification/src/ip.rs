//! IP addresses as numbers, and the routability policy that decides which of
//! them a node advertises.

use vstd::prelude::*;

verus! {

/// An IP address: the 32 bits of an IPv4 address or the 128 bits of an IPv6
/// address, first octet in the most significant position.
#[derive(Clone, Copy, Debug, PartialEq, Eq, Structural)]
pub enum IpAddress {
    V4(u32),
    V6(u128),
}

/// The four octets of an IPv4 address, first octet first.
pub open spec fn octets(a: u32) -> Seq<u8> {
    seq![(a >> 24u32) as u8, (a >> 16u32) as u8, (a >> 8u32) as u8, a as u8]
}

/// The eight 16-bit groups of an IPv6 address, first group first.
pub open spec fn segments(x: u128) -> Seq<u16> {
    seq![
        (x >> 112u32) as u16,
        (x >> 96u32) as u16,
        (x >> 80u32) as u16,
        (x >> 64u32) as u16,
        (x >> 48u32) as u16,
        (x >> 32u32) as u16,
        (x >> 16u32) as u16,
        x as u16,
    ]
}

/// The IPv4 address whose octets are `o`.
pub open spec fn v4_from_octets(o: Seq<u8>) -> u32 {
    ((o[0] as u32) << 24u32) | ((o[1] as u32) << 16u32) | ((o[2] as u32) << 8u32) | (o[3] as u32)
}

/// The number that `bytes` spell, first byte most significant.
pub open spec fn be_value(bytes: Seq<u8>) -> u128
    decreases bytes.len(),
{
    if bytes.len() == 0 {
        0
    } else {
        (be_value(bytes.drop_last()) << 8u32) | (bytes.last() as u128)
    }
}

/// RFC 1918 private use: 10.0.0.0/8, 172.16.0.0/12, 192.168.0.0/16.
pub open spec fn v4_private(a: u32) -> bool {
    let o = octets(a);
    o[0] == 10 || (o[0] == 172 && 16 <= o[1] <= 31) || (o[0] == 192 && o[1] == 168)
}

/// 0.0.0.0.
pub open spec fn v4_unspecified(a: u32) -> bool {
    let o = octets(a);
    o[0] == 0 && o[1] == 0 && o[2] == 0 && o[3] == 0
}

/// 127.0.0.0/8.
pub open spec fn v4_loopback(a: u32) -> bool {
    octets(a)[0] == 127
}

/// 169.254.0.0/16.
pub open spec fn v4_link_local(a: u32) -> bool {
    let o = octets(a);
    o[0] == 169 && o[1] == 254
}

/// 224.0.0.0/4.
pub open spec fn v4_multicast(a: u32) -> bool {
    224 <= octets(a)[0] <= 239
}

/// Ranges that are neither private nor reachable from the public internet:
/// "this network" 0.0.0.0/8, shared address space 100.64.0.0/10, protocol
/// assignments 192.0.0.0/24 (but for 192.0.0.9 and 192.0.0.10), the
/// documentation ranges 192.0.2.0/24, 198.51.100.0/24 and 203.0.113.0/24,
/// benchmarking 198.18.0.0/15, and the reserved range 240.0.0.0/4, which
/// includes the broadcast address.
pub open spec fn v4_special_purpose(a: u32) -> bool {
    let o = octets(a);
    ||| o[0] == 0
    ||| (o[0] == 100 && 64 <= o[1] <= 127)
    ||| (o[0] == 192 && o[1] == 0 && o[2] == 0 && o[3] != 9 && o[3] != 10)
    ||| (o[0] == 192 && o[1] == 0 && o[2] == 2)
    ||| (o[0] == 198 && o[1] == 51 && o[2] == 100)
    ||| (o[0] == 203 && o[1] == 0 && o[2] == 113)
    ||| (o[0] == 198 && 18 <= o[1] <= 19)
    ||| o[0] >= 240
}

/// Reachable from the public internet.
pub open spec fn v4_public(a: u32) -> bool {
    &&& !v4_private(a)
    &&& !v4_loopback(a)
    &&& !v4_link_local(a)
    &&& !v4_multicast(a)
    &&& !v4_special_purpose(a)
}

/// The IPv4 addresses worth advertising: private use or public.
pub open spec fn v4_advertised(a: u32) -> bool {
    v4_private(a) || v4_public(a)
}

/// `::`.
pub open spec fn v6_unspecified(x: u128) -> bool {
    let s = segments(x);
    forall|i: int| 0 <= i < 8 ==> s[i] == 0
}

/// `::1`.
pub open spec fn v6_loopback(x: u128) -> bool {
    let s = segments(x);
    s[7] == 1 && forall|i: int| 0 <= i < 7 ==> s[i] == 0
}

/// `ff00::/8`.
pub open spec fn v6_multicast(x: u128) -> bool {
    segments(x)[0] >= 0xff00
}

/// Link-local unicast, `fe80::/10`.
pub open spec fn v6_link_local(x: u128) -> bool {
    0xfe80 <= segments(x)[0] <= 0xfebf
}

/// Unique local, `fc00::/7`.
pub open spec fn v6_unique_local(x: u128) -> bool {
    0xfc00 <= segments(x)[0] <= 0xfdff
}

/// Documentation, `2001:db8::/32`.
pub open spec fn v6_documentation(x: u128) -> bool {
    let s = segments(x);
    s[0] == 0x2001 && s[1] == 0x0db8
}

/// The IPv6 addresses worth advertising: those of global scope.
pub open spec fn v6_global(x: u128) -> bool {
    &&& !v6_unspecified(x)
    &&& !v6_loopback(x)
    &&& !v6_multicast(x)
    &&& !v6_link_local(x)
    &&& !v6_unique_local(x)
    &&& !v6_documentation(x)
}

/// The four octets of an IPv4 address, first octet first.
pub fn octets_of(a: u32) -> (o: [u8; 4])
    ensures
        o@ == octets(a),
{
    let o = [
        #[verifier::truncate]
        ((a >> 24u32) as u8),
        #[verifier::truncate]
        ((a >> 16u32) as u8),
        #[verifier::truncate]
        ((a >> 8u32) as u8),
        #[verifier::truncate]
        (a as u8),
    ];
    assert(o@ =~= octets(a));
    o
}

/// The eight groups of an IPv6 address, first group first.
pub fn segments_of(x: u128) -> (s: [u16; 8])
    ensures
        s@ == segments(x),
{
    let s = [
        #[verifier::truncate]
        ((x >> 112u32) as u16),
        #[verifier::truncate]
        ((x >> 96u32) as u16),
        #[verifier::truncate]
        ((x >> 80u32) as u16),
        #[verifier::truncate]
        ((x >> 64u32) as u16),
        #[verifier::truncate]
        ((x >> 48u32) as u16),
        #[verifier::truncate]
        ((x >> 32u32) as u16),
        #[verifier::truncate]
        ((x >> 16u32) as u16),
        #[verifier::truncate]
        (x as u16),
    ];
    assert(s@ =~= segments(x));
    s
}

/// Reads the address that four raw octets hold.
pub(crate) fn v4_from_raw(raw: &[u8]) -> (a: u32)
    requires
        raw@.len() == 4,
    ensures
        a == v4_from_octets(raw@),
{
    ((raw[0] as u32) << 24u32) | ((raw[1] as u32) << 16u32) | ((raw[2] as u32) << 8u32) | (raw[3] as u32)
}

/// Reads the address that sixteen raw octets hold.
pub(crate) fn v6_from_raw(raw: &[u8]) -> (x: u128)
    requires
        raw@.len() == 16,
    ensures
        x == be_value(raw@),
{
    let mut x: u128 = 0;
    let mut i: usize = 0;
    while i < 16
        invariant
            i <= 16,
            raw@.len() == 16,
            x == be_value(raw@.take(i as int)),
        decreases 16 - i,
    {
        assert(raw@.take(i + 1).drop_last() == raw@.take(i as int));
        x = (x << 8u32) | (raw[i] as u128);
        i = i + 1;
    }
    assert(raw@.take(16) == raw@);
    x
}

impl IpAddress {
    /// Whether the policy lets a node advertise this address.
    pub open spec fn advertised(self) -> bool {
        match self {
            IpAddress::V4(a) => v4_advertised(a),
            IpAddress::V6(x) => v6_global(x),
        }
    }

    /// Whether the policy lets a node advertise this address.
    pub fn is_advertised(&self) -> (b: bool)
        ensures
            b == self.advertised(),
    {
        match self {
            IpAddress::V4(a) => v4_is_advertised(*a),
            IpAddress::V6(x) => v6_is_global(*x),
        }
    }

    /// Whether this is an IPv4 address.
    pub fn is_ipv4(&self) -> (b: bool)
        ensures
            b == (self is V4),
    {
        match self {
            IpAddress::V4(_) => true,
            IpAddress::V6(_) => false,
        }
    }
}

/// Whether `a` is of private use.
pub fn v4_is_private(a: u32) -> (b: bool)
    ensures
        b == v4_private(a),
{
    let o = octets_of(a);
    o[0] == 10 || (o[0] == 172 && 16 <= o[1] && o[1] <= 31) || (o[0] == 192 && o[1] == 168)
}

/// Whether `a` is reachable from the public internet.
pub fn v4_is_public(a: u32) -> (b: bool)
    ensures
        b == v4_public(a),
{
    let o = octets_of(a);
    let special = o[0] == 0 || (o[0] == 100 && 64 <= o[1] && o[1] <= 127) || (o[0] == 192 && o[1]
        == 0 && o[2] == 0 && o[3] != 9 && o[3] != 10) || (o[0] == 192 && o[1] == 0 && o[2] == 2)
        || (o[0] == 198 && o[1] == 51 && o[2] == 100) || (o[0] == 203 && o[1] == 0 && o[2] == 113)
        || (o[0] == 198 && 18 <= o[1] && o[1] <= 19) || o[0] >= 240;
    let loopback = o[0] == 127;
    let link_local = o[0] == 169 && o[1] == 254;
    let multicast = 224 <= o[0] && o[0] <= 239;
    !v4_is_private(a) && !loopback && !link_local && !multicast && !special
}

/// Whether the policy lets a node advertise the IPv4 address `a`.
pub fn v4_is_advertised(a: u32) -> (b: bool)
    ensures
        b == v4_advertised(a),
{
    v4_is_private(a) || v4_is_public(a)
}

/// Whether the IPv6 address `x` is of global scope.
pub fn v6_is_global(x: u128) -> (b: bool)
    ensures
        b == v6_global(x),
{
    let s = segments_of(x);
    let leading_zero = s[0] == 0 && s[1] == 0 && s[2] == 0 && s[3] == 0 && s[4] == 0 && s[5] == 0
        && s[6] == 0;
    let unspecified = leading_zero && s[7] == 0;
    let loopback = leading_zero && s[7] == 1;
    let multicast = s[0] >= 0xff00;
    let link_local = 0xfe80 <= s[0] && s[0] <= 0xfebf;
    let unique_local = 0xfc00 <= s[0] && s[0] <= 0xfdff;
    let documentation = s[0] == 0x2001 && s[1] == 0x0db8;
    !unspecified && !loopback && !multicast && !link_local && !unique_local && !documentation
}

/// No IPv4 address that is loopback, link-local, multicast or unspecified is
/// advertised, and no IPv6 address outside global scope is.
pub proof fn lemma_unroutable_not_advertised(addr: IpAddress)
    ensures
        addr matches IpAddress::V4(a) && (v4_loopback(a) || v4_link_local(a) || v4_multicast(a)
            || v4_unspecified(a)) ==> !addr.advertised(),
        addr matches IpAddress::V6(x) && (v6_unspecified(x) || v6_loopback(x) || v6_multicast(x)
            || v6_link_local(x) || v6_unique_local(x) || v6_documentation(x))
            ==> !addr.advertised(),
{
}

} // verus!
