//! The address classifier: from the raw bytes of a kernel address attribute to
//! the text under which the address is advertised, if it is advertised at all.

use crate::ip::{
    be_value, lemma_unroutable_not_advertised, v4_from_octets, v4_from_raw, v4_link_local,
    v4_loopback, v4_multicast, v4_unspecified, v6_from_raw, v6_global, IpAddress,
};
use crate::ip_parse::parsed_ip;
use crate::ip_text::ip_text;
use crate::round_trip::lemma_text_round_trip;
use vstd::prelude::*;

verus! {

/// A raw address whose length is that of neither address family.
#[derive(Clone, Copy, Debug, PartialEq, Eq, Structural)]
pub struct MalformedAddress {
    /// The number of bytes that the address had.
    pub length: usize,
}

/// Whether `raw` has the length of an IPv4 or of an IPv6 address.
pub open spec fn well_sized(raw: Seq<u8>) -> bool {
    raw.len() == 4 || raw.len() == 16
}

/// The address that `raw` holds: four bytes are an IPv4 address, sixteen an
/// IPv6 address.
pub open spec fn decoded(raw: Seq<u8>) -> IpAddress
    recommends
        well_sized(raw),
{
    if raw.len() == 4 {
        IpAddress::V4(v4_from_octets(raw))
    } else {
        IpAddress::V6(be_value(raw))
    }
}

/// The text under which the address in `raw` is advertised, or `None` where
/// the policy keeps it out.
pub open spec fn advertised_text(raw: Seq<u8>) -> Option<Seq<char>>
    recommends
        well_sized(raw),
{
    if decoded(raw).advertised() {
        Some(ip_text(decoded(raw)))
    } else {
        None
    }
}

/// An IPv4 address that is loopback, link-local, multicast or unspecified,
/// and an IPv6 address that is not of global scope, has no advertised text.
pub proof fn lemma_unroutable_rejected(raw: Seq<u8>)
    requires
        well_sized(raw),
    ensures
        decoded(raw) matches IpAddress::V4(a) && (v4_loopback(a) || v4_link_local(a)
            || v4_multicast(a) || v4_unspecified(a)) ==> advertised_text(raw) is None,
        decoded(raw) matches IpAddress::V6(x) && !v6_global(x) ==> advertised_text(raw) is None,
{
    lemma_unroutable_not_advertised(decoded(raw));
}

/// The text under which an address is advertised spells that address.
pub proof fn lemma_advertised_text_spells_the_address(raw: Seq<u8>)
    requires
        well_sized(raw),
        advertised_text(raw) is Some,
    ensures
        parsed_ip(advertised_text(raw)->0) == Some(decoded(raw)),
{
    lemma_text_round_trip(decoded(raw));
}

/// Decodes a raw address of four or sixteen bytes.
pub fn decode(raw: &[u8]) -> (r: Result<IpAddress, MalformedAddress>)
    ensures
        r is Ok <==> well_sized(raw@),
        r matches Ok(addr) ==> addr == decoded(raw@),
        r matches Err(e) ==> e.length == raw@.len(),
{
    if raw.len() == 4 {
        Ok(IpAddress::V4(v4_from_raw(raw)))
    } else if raw.len() == 16 {
        Ok(IpAddress::V6(v6_from_raw(raw)))
    } else {
        Err(MalformedAddress { length: raw.len() })
    }
}

/// Classifies a raw address. A length other than 4 or 16 is an error. An
/// address that the routability policy rejects gives `None`; any other gives
/// its text.
pub fn classify(raw: &[u8]) -> (r: Result<Option<String>, MalformedAddress>)
    ensures
        r is Err <==> !well_sized(raw@),
        r matches Err(e) ==> e.length == raw@.len(),
        r matches Ok(text) ==> (text is Some <==> decoded(raw@).advertised()),
        r matches Ok(Some(text)) ==> Some(text@) == advertised_text(raw@),
        r matches Ok(None) ==> advertised_text(raw@) is None,
{
    match decode(raw) {
        Ok(addr) => {
            if addr.is_advertised() {
                Ok(Some(addr.to_text()))
            } else {
                Ok(None)
            }
        },
        Err(e) => Err(e),
    }
}

} // verus!
