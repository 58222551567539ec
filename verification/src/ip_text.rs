//! The textual form of IP addresses: dotted decimal for IPv4, and for IPv6
//! lowercase hexadecimal groups with the longest run of zero groups shortened
//! to `::`.

use crate::ip::{octets, octets_of, segments, segments_of, IpAddress};
use vstd::prelude::*;

verus! {

/// The decimal digit `d`, for `0 <= d <= 9`.
pub open spec fn dec_digit(d: u8) -> char {
    (48 + d) as char
}

/// The lowercase hexadecimal digit `d`, for `0 <= d <= 15`.
pub open spec fn hex_digit(d: u16) -> char {
    if d < 10 {
        (48 + d) as char
    } else {
        (87 + d) as char
    }
}

/// `n` in decimal, without leading zeros.
pub open spec fn decimal(n: u8) -> Seq<char> {
    if n < 10 {
        seq![dec_digit(n)]
    } else if n < 100 {
        seq![dec_digit(n / 10), dec_digit(n % 10)]
    } else {
        seq![dec_digit(n / 100), dec_digit(n / 10 % 10), dec_digit(n % 10)]
    }
}

/// `g` in lowercase hexadecimal, without leading zeros.
pub open spec fn hex(g: u16) -> Seq<char> {
    if g < 0x10 {
        seq![hex_digit(g)]
    } else if g < 0x100 {
        seq![hex_digit(g / 16), hex_digit(g % 16)]
    } else if g < 0x1000 {
        seq![hex_digit(g / 256), hex_digit(g / 16 % 16), hex_digit(g % 16)]
    } else {
        seq![hex_digit(g / 4096), hex_digit(g / 256 % 16), hex_digit(g / 16 % 16), hex_digit(g % 16)]
    }
}

/// Four octets in dotted decimal.
pub open spec fn dotted(o: Seq<u8>) -> Seq<char> {
    decimal(o[0]) + seq!['.'] + decimal(o[1]) + seq!['.'] + decimal(o[2]) + seq!['.'] + decimal(
        o[3],
    )
}

/// Groups in hexadecimal, joined by colons.
pub open spec fn groups_text(groups: Seq<u16>) -> Seq<char>
    decreases groups.len(),
{
    if groups.len() == 0 {
        Seq::<char>::empty()
    } else if groups.len() == 1 {
        hex(groups[0])
    } else {
        groups_text(groups.drop_last()) + seq![':'] + hex(groups.last())
    }
}

/// How many consecutive zero groups `s` has from position `i` on.
pub open spec fn zero_run(s: Seq<u16>, i: int) -> int
    decreases s.len() - i,
{
    if 0 <= i < s.len() && s[i] == 0 {
        1 + zero_run(s, i + 1)
    } else {
        0
    }
}

/// Start and length of the longest run of zero groups of `s` that starts at
/// `from` or later; of several longest runs the first. `(0, 0)` if there is
/// no zero group.
pub open spec fn longest_zero_run(s: Seq<u16>, from: int) -> (int, int)
    decreases s.len() - from,
{
    if from < 0 || from >= s.len() {
        (0, 0)
    } else {
        let later = longest_zero_run(s, from + 1);
        let here = zero_run(s, from);
        if here > 0 && here >= later.1 {
            (from, here)
        } else {
            later
        }
    }
}

/// Whether the groups are those of an IPv4-mapped address, `::ffff:0:0/96`.
pub open spec fn mapped(s: Seq<u16>) -> bool {
    s[0] == 0 && s[1] == 0 && s[2] == 0 && s[3] == 0 && s[4] == 0 && s[5] == 0xffff
}

/// The octets held by the last two groups.
pub open spec fn embedded_octets(s: Seq<u16>) -> Seq<u8> {
    seq![(s[6] / 256) as u8, (s[6] % 256) as u8, (s[7] / 256) as u8, (s[7] % 256) as u8]
}

/// The text of the IPv6 address with groups `s`: an IPv4-mapped address shows
/// its last 32 bits in dotted decimal behind `::ffff:`; any other address shows
/// its groups, with the longest run of two or more zero groups as `::`.
pub open spec fn groups_form(s: Seq<u16>) -> Seq<char> {
    if mapped(s) {
        seq![':', ':', 'f', 'f', 'f', 'f', ':'] + dotted(embedded_octets(s))
    } else {
        let run = longest_zero_run(s, 0);
        if run.1 > 1 {
            groups_text(s.take(run.0)) + seq![':', ':'] + groups_text(s.skip(run.0 + run.1))
        } else {
            groups_text(s)
        }
    }
}

/// The text of an address.
pub open spec fn ip_text(addr: IpAddress) -> Seq<char> {
    match addr {
        IpAddress::V4(a) => dotted(octets(a)),
        IpAddress::V6(x) => groups_form(segments(x)),
    }
}

fn dec_char(d: u8) -> (c: char)
    requires
        d < 10,
    ensures
        c == dec_digit(d),
{
    (48 + d) as char
}

fn hex_char(d: u16) -> (c: char)
    requires
        d < 16,
    ensures
        c == hex_digit(d),
{
    let low = d as u8;
    if low < 10 {
        (48 + low) as char
    } else {
        (87 + low) as char
    }
}

fn push_decimal(out: &mut String, n: u8)
    ensures
        final(out)@ == old(out)@ + decimal(n),
{
    if n >= 100 {
        out.push(dec_char(n / 100));
    }
    if n >= 10 {
        out.push(dec_char(n / 10 % 10));
    }
    out.push(dec_char(n % 10));
    assert(out@ =~= old(out)@ + decimal(n));
}

fn push_hex(out: &mut String, g: u16)
    ensures
        final(out)@ == old(out)@ + hex(g),
{
    if g >= 0x1000 {
        out.push(hex_char(g / 4096));
    }
    if g >= 0x100 {
        out.push(hex_char(g / 256 % 16));
    }
    if g >= 0x10 {
        out.push(hex_char(g / 16 % 16));
    }
    out.push(hex_char(g % 16));
    assert(out@ =~= old(out)@ + hex(g));
}

fn push_dotted(out: &mut String, o: &[u8; 4])
    ensures
        final(out)@ == old(out)@ + dotted(o@),
{
    push_decimal(out, o[0]);
    out.push('.');
    push_decimal(out, o[1]);
    out.push('.');
    push_decimal(out, o[2]);
    out.push('.');
    push_decimal(out, o[3]);
    assert(out@ =~= old(out)@ + dotted(o@));
}

fn push_groups(out: &mut String, s: &[u16; 8], from: usize, to: usize)
    requires
        from <= to <= 8,
    ensures
        final(out)@ == old(out)@ + groups_text(s@.subrange(from as int, to as int)),
{
    let mut i: usize = from;
    while i < to
        invariant
            from <= i <= to <= 8,
            out@ == old(out)@ + groups_text(s@.subrange(from as int, i as int)),
        decreases to - i,
    {
        let ghost done = s@.subrange(from as int, i as int);
        let ghost next = s@.subrange(from as int, i + 1);
        let ghost before = out@;
        assert(next.drop_last() == done);
        if i > from {
            out.push(':');
        }
        push_hex(out, s[i]);
        assert(out@ =~= old(out)@ + groups_text(next));
        i = i + 1;
    }
}

/// Finds the first longest run of zero groups.
fn find_zero_run(s: &[u16; 8]) -> (run: (usize, usize))
    ensures
        (run.0 as int, run.1 as int) == longest_zero_run(s@, 0),
        run.0 + run.1 <= 8,
{
    let mut start: usize = 0;
    let mut len: usize = 0;
    let mut here: usize = 0;
    let mut i: usize = 8;
    while i > 0
        invariant
            i <= 8,
            here as int == zero_run(s@, i as int),
            (start as int, len as int) == longest_zero_run(s@, i as int),
            here <= 8 - i,
            start + len <= 8,
            len > 0 ==> start >= i,
        decreases i,
    {
        i = i - 1;
        if s[i] == 0 {
            here = here + 1;
        } else {
            here = 0;
        }
        if here > 0 && here >= len {
            start = i;
            len = here;
        }
    }
    (start, len)
}

/// Dotted decimal text of an IPv4 address.
pub fn v4_to_string(a: u32) -> (text: String)
    ensures
        text@ == dotted(octets(a)),
{
    let mut text = String::new();
    let o = octets_of(a);
    push_dotted(&mut text, &o);
    text
}

/// Text of an IPv6 address.
pub fn v6_to_string(x: u128) -> (text: String)
    ensures
        text@ == groups_form(segments(x)),
{
    let s = segments_of(x);
    let mut text = String::new();
    if s[0] == 0 && s[1] == 0 && s[2] == 0 && s[3] == 0 && s[4] == 0 && s[5] == 0xffff {
        text.push(':');
        text.push(':');
        text.push('f');
        text.push('f');
        text.push('f');
        text.push('f');
        text.push(':');
        let o = [(s[6] / 256) as u8, (s[6] % 256) as u8, (s[7] / 256) as u8, (s[7] % 256) as u8];
        assert(o@ =~= embedded_octets(s@));
        push_dotted(&mut text, &o);
        assert(text@ =~= groups_form(s@));
    } else {
        let run = find_zero_run(&s);
        if run.1 > 1 {
            push_groups(&mut text, &s, 0, run.0);
            text.push(':');
            text.push(':');
            push_groups(&mut text, &s, run.0 + run.1, 8);
            assert(s@.subrange(0, run.0 as int) == s@.take(run.0 as int));
            assert(s@.subrange(run.0 + run.1, 8) == s@.skip(run.0 + run.1));
            assert(text@ =~= groups_form(s@));
        } else {
            push_groups(&mut text, &s, 0, 8);
            assert(s@.subrange(0, 8) == s@);
        }
    }
    text
}

impl IpAddress {
    /// The text of this address.
    pub fn to_text(&self) -> (text: String)
        ensures
            text@ == ip_text(*self),
    {
        match self {
            IpAddress::V4(a) => v4_to_string(*a),
            IpAddress::V6(x) => v6_to_string(*x),
        }
    }
}

} // verus!
