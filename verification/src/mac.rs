//! Hardware addresses and their text.

use crate::ip_text::hex_digit;
use vstd::prelude::*;

verus! {

/// `eui48::ParseError`, the error of `eui48::MacAddress::from_bytes`. Nothing
/// is known of what it holds.
#[verifier::external_type_specification]
#[verifier::external_body]
pub struct ExMacParseError(eui48::ParseError);

/// An octet as two lowercase hexadecimal digits.
pub open spec fn hex_pair(b: u8) -> Seq<char> {
    seq![hex_digit((b / 16) as u16), hex_digit((b % 16) as u16)]
}

/// Six octets in hexadecimal with colons between them, as in
/// `00:1b:44:11:3a:b7`.
pub open spec fn mac_text(o: Seq<u8>) -> Seq<char> {
    hex_pair(o[0]) + seq![':'] + hex_pair(o[1]) + seq![':'] + hex_pair(o[2]) + seq![':']
        + hex_pair(o[3]) + seq![':'] + hex_pair(o[4]) + seq![':'] + hex_pair(o[5])
}

/// `eui48::MacAddress::from_bytes` followed by `to_hex_string`. The first
/// accepts exactly the slices of six bytes; the second writes each byte as
/// two lowercase hexadecimal digits and puts colons between the bytes.
#[verifier::external_body]
fn mac_hex_string(raw: &[u8]) -> (r: Result<String, eui48::ParseError>)
    ensures
        r is Ok <==> raw@.len() == 6,
        r matches Ok(text) ==> text@ == mac_text(raw@),
{
    match eui48::MacAddress::from_bytes(raw) {
        Ok(mac) => Ok(mac.to_hex_string()),
        Err(e) => Err(e),
    }
}

/// A hardware address that does not have six bytes.
#[derive(Clone, Copy, Debug, PartialEq, Eq, Structural)]
pub struct BadHardwareAddress {
    /// The number of bytes that it had.
    pub length: usize,
}

/// The text of the hardware address with the raw bytes `raw`: six bytes give
/// their text, any other length is an error.
pub fn hardware_address_text(raw: &[u8]) -> (r: Result<String, BadHardwareAddress>)
    ensures
        r is Ok <==> raw@.len() == 6,
        r matches Ok(text) ==> text@ == mac_text(raw@),
        r matches Err(e) ==> e.length == raw@.len(),
{
    match mac_hex_string(raw) {
        Ok(text) => Ok(text),
        Err(_) => Err(BadHardwareAddress { length: raw.len() }),
    }
}

} // verus!
