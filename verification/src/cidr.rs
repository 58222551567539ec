//! Address blocks in CIDR notation: an address and the length of the prefix
//! that a member shares with it.

use crate::ip::IpAddress;
use vstd::prelude::*;

verus! {

/// An address block. A block is well formed where its prefix is no longer
/// than its address: 32 bits for IPv4, 128 for IPv6.
#[derive(Clone, Copy, Debug, PartialEq, Eq, Structural)]
pub struct Cidr {
    pub addr: IpAddress,
    pub prefix_len: u8,
}

/// The number of bits of an address of the family of `addr`.
pub open spec fn address_bits(addr: IpAddress) -> u8 {
    match addr {
        IpAddress::V4(_) => 32,
        IpAddress::V6(_) => 128,
    }
}

/// The IPv4 mask whose first `prefix_len` bits are set.
pub open spec fn netmask4(prefix_len: u8) -> u32 {
    if prefix_len == 0 {
        0
    } else if prefix_len >= 32 {
        0xffff_ffff
    } else {
        0xffff_ffffu32 << ((32 - prefix_len) as u32)
    }
}

/// The IPv4 mask whose bits behind the first `prefix_len` are set.
pub open spec fn hostmask4(prefix_len: u8) -> u32 {
    if prefix_len >= 32 {
        0
    } else {
        0xffff_ffffu32 >> (prefix_len as u32)
    }
}

/// The IPv6 mask whose first `prefix_len` bits are set.
pub open spec fn netmask6(prefix_len: u8) -> u128 {
    if prefix_len == 0 {
        0
    } else if prefix_len >= 128 {
        0xffff_ffff_ffff_ffff_ffff_ffff_ffff_ffff
    } else {
        0xffff_ffff_ffff_ffff_ffff_ffff_ffff_ffffu128 << ((128 - prefix_len) as u32)
    }
}

/// The IPv6 mask whose bits behind the first `prefix_len` are set.
pub open spec fn hostmask6(prefix_len: u8) -> u128 {
    if prefix_len >= 128 {
        0
    } else {
        0xffff_ffff_ffff_ffff_ffff_ffff_ffff_ffffu128 >> (prefix_len as u32)
    }
}

impl Cidr {
    /// Whether the prefix is no longer than the address.
    pub open spec fn well_formed(self) -> bool {
        self.prefix_len <= address_bits(self.addr)
    }

    /// Whether `ip` lies in the block: it is of the block's family and lies
    /// between the block's first address, whose bits behind the prefix are
    /// zero, and its last, whose bits behind the prefix are one.
    pub open spec fn holds(self, ip: IpAddress) -> bool {
        match (self.addr, ip) {
            (IpAddress::V4(base), IpAddress::V4(a)) => (base & netmask4(self.prefix_len)) <= a <= (
            base | hostmask4(self.prefix_len)),
            (IpAddress::V6(base), IpAddress::V6(x)) => (base & netmask6(self.prefix_len)) <= x <= (
            base | hostmask6(self.prefix_len)),
            _ => false,
        }
    }

    /// The block of `addr` with a prefix of `prefix_len` bits; `None` where
    /// the prefix would be longer than the address.
    pub fn new(addr: IpAddress, prefix_len: u8) -> (r: Option<Cidr>)
        ensures
            r is Some <==> prefix_len <= address_bits(addr),
            r matches Some(net) ==> net.addr == addr && net.prefix_len == prefix_len
                && net.well_formed(),
    {
        let bits: u8 = match addr {
            IpAddress::V4(_) => 32,
            IpAddress::V6(_) => 128,
        };
        if prefix_len <= bits {
            Some(Cidr { addr, prefix_len })
        } else {
            None
        }
    }

    /// Whether `ip` lies in the block.
    pub fn contains(&self, ip: &IpAddress) -> (b: bool)
        ensures
            b == self.holds(*ip),
    {
        let p = self.prefix_len;
        match (self.addr, *ip) {
            (IpAddress::V4(base), IpAddress::V4(a)) => {
                let netmask: u32 = if p == 0 {
                    0
                } else if p >= 32 {
                    0xffff_ffff
                } else {
                    0xffff_ffffu32 << ((32 - p) as u32)
                };
                let hostmask: u32 = if p >= 32 {
                    0
                } else {
                    0xffff_ffffu32 >> (p as u32)
                };
                (base & netmask) <= a && a <= (base | hostmask)
            },
            (IpAddress::V6(base), IpAddress::V6(x)) => {
                let netmask: u128 = if p == 0 {
                    0
                } else if p >= 128 {
                    0xffff_ffff_ffff_ffff_ffff_ffff_ffff_ffff
                } else {
                    0xffff_ffff_ffff_ffff_ffff_ffff_ffff_ffffu128 << ((128 - p) as u32)
                };
                let hostmask: u128 = if p >= 128 {
                    0
                } else {
                    0xffff_ffff_ffff_ffff_ffff_ffff_ffff_ffffu128 >> (p as u32)
                };
                (base & netmask) <= x && x <= (base | hostmask)
            },
            _ => false,
        }
    }
}

} // verus!
