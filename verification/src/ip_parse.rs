//! Reading IP addresses from text: dotted decimal for IPv4; for IPv6 groups
//! of hexadecimal digits between colons, where `::` may stand once for one or
//! more groups of zeros and the last 32 bits may be given in dotted decimal.

use crate::ip::{v4_from_octets, IpAddress};
use crate::text::{chars_of, piece_views, split, split_chars};
use vstd::prelude::*;

verus! {

/// Whether `c` is a decimal digit.
pub open spec fn is_dec_digit(c: char) -> bool {
    '0' <= c <= '9'
}

/// The value of the decimal digit `c`.
pub open spec fn dec_value(c: char) -> int {
    c as int - 48
}

/// Whether `c` is a hexadecimal digit, of either case.
pub open spec fn is_hex_digit(c: char) -> bool {
    '0' <= c <= '9' || 'a' <= c <= 'f' || 'A' <= c <= 'F'
}

/// The value of the hexadecimal digit `c`.
pub open spec fn hex_value(c: char) -> int {
    if '0' <= c <= '9' {
        c as int - 48
    } else if 'a' <= c <= 'f' {
        c as int - 87
    } else {
        c as int - 55
    }
}

/// The octet that `s` spells in decimal: one to three digits, without a
/// leading zero unless the octet is written `0`, and no more than 255.
pub open spec fn parsed_octet(s: Seq<char>) -> Option<u8> {
    if s.len() == 1 && is_dec_digit(s[0]) {
        Some(dec_value(s[0]) as u8)
    } else if s.len() == 2 && is_dec_digit(s[0]) && is_dec_digit(s[1]) && s[0] != '0' {
        Some((10 * dec_value(s[0]) + dec_value(s[1])) as u8)
    } else if s.len() == 3 && is_dec_digit(s[0]) && is_dec_digit(s[1]) && is_dec_digit(s[2])
        && s[0] != '0' && 100 * dec_value(s[0]) + 10 * dec_value(s[1]) + dec_value(s[2]) <= 255 {
        Some((100 * dec_value(s[0]) + 10 * dec_value(s[1]) + dec_value(s[2])) as u8)
    } else {
        None
    }
}

/// The group that `s` spells in hexadecimal: one to four digits.
pub open spec fn parsed_group(s: Seq<char>) -> Option<u16> {
    if s.len() == 1 && is_hex_digit(s[0]) {
        Some(hex_value(s[0]) as u16)
    } else if s.len() == 2 && is_hex_digit(s[0]) && is_hex_digit(s[1]) {
        Some((16 * hex_value(s[0]) + hex_value(s[1])) as u16)
    } else if s.len() == 3 && is_hex_digit(s[0]) && is_hex_digit(s[1]) && is_hex_digit(s[2]) {
        Some((256 * hex_value(s[0]) + 16 * hex_value(s[1]) + hex_value(s[2])) as u16)
    } else if s.len() == 4 && is_hex_digit(s[0]) && is_hex_digit(s[1]) && is_hex_digit(s[2])
        && is_hex_digit(s[3]) {
        Some(
            (4096 * hex_value(s[0]) + 256 * hex_value(s[1]) + 16 * hex_value(s[2]) + hex_value(
                s[3],
            )) as u16,
        )
    } else {
        None
    }
}

/// The IPv4 address that `s` spells: four octets with dots between them.
pub open spec fn parsed_v4(s: Seq<char>) -> Option<u32> {
    let p = split(s, '.');
    if p.len() == 4 && parsed_octet(p[0]) is Some && parsed_octet(p[1]) is Some && parsed_octet(
        p[2],
    ) is Some && parsed_octet(p[3]) is Some {
        Some(
            v4_from_octets(
                seq![
                    parsed_octet(p[0])->0,
                    parsed_octet(p[1])->0,
                    parsed_octet(p[2])->0,
                    parsed_octet(p[3])->0,
                ],
            ),
        )
    } else {
        None
    }
}

/// The upper and the lower half of an IPv4 address, as two groups.
pub open spec fn halves(a: u32) -> Seq<u16> {
    seq![(a >> 16u32) as u16, a as u16]
}

/// The groups that the pieces spell: each piece one group; with `allow_v4`
/// the last piece may instead be an IPv4 address, which gives two groups.
pub open spec fn pieces_groups(pieces: Seq<Seq<char>>, allow_v4: bool) -> Option<Seq<u16>>
    decreases pieces.len(),
{
    if pieces.len() == 0 {
        Some(Seq::<u16>::empty())
    } else {
        match pieces_groups(pieces.drop_last(), false) {
            None => None,
            Some(before) => match parsed_group(pieces.last()) {
                Some(g) => Some(before.push(g)),
                None => if allow_v4 && parsed_v4(pieces.last()) is Some {
                    Some(before + halves(parsed_v4(pieces.last())->0))
                } else {
                    None
                },
            },
        }
    }
}

/// The groups that `s` spells: groups with colons between them. The empty
/// text spells no group.
pub open spec fn parsed_groups(s: Seq<char>, allow_v4: bool) -> Option<Seq<u16>> {
    if s.len() == 0 {
        Some(Seq::<u16>::empty())
    } else {
        pieces_groups(split(s, ':'), allow_v4)
    }
}

/// Position of the first `::` that begins before `upto`; `upto` if there is
/// none.
pub open spec fn double_colon(s: Seq<char>, upto: int) -> int
    decreases upto,
{
    if upto <= 0 {
        0
    } else {
        let k = double_colon(s, upto - 1);
        if k < upto - 1 || (upto < s.len() && s[upto - 1] == ':' && s[upto] == ':') {
            k
        } else {
            upto
        }
    }
}

/// The IPv6 address with the eight groups `g`.
pub open spec fn v6_from_segments(g: Seq<u16>) -> u128 {
    ((g[0] as u128) << 112u32) | ((g[1] as u128) << 96u32) | ((g[2] as u128) << 80u32) | ((
    g[3] as u128) << 64u32) | ((g[4] as u128) << 48u32) | ((g[5] as u128) << 32u32) | ((
    g[6] as u128) << 16u32) | (g[7] as u128)
}

/// `n` groups of zero.
pub open spec fn zeros(n: int) -> Seq<u16> {
    Seq::new(n as nat, |i: int| 0u16)
}

/// The IPv6 address that `s` spells. Without `::` the text spells all eight
/// groups. With `::`, the first of them splits the text: before it stand
/// groups, behind it groups whose last 32 bits may be in dotted decimal, at
/// most seven groups in all, and the `::` stands for the zero groups between
/// them.
pub open spec fn parsed_v6(s: Seq<char>) -> Option<u128> {
    let k = double_colon(s, s.len() as int);
    if k >= s.len() {
        match parsed_groups(s, true) {
            Some(g) => if g.len() == 8 {
                Some(v6_from_segments(g))
            } else {
                None
            },
            None => None,
        }
    } else {
        match (parsed_groups(s.take(k), false), parsed_groups(s.skip(k + 2), true)) {
            (Some(head), Some(tail)) => if head.len() + tail.len() <= 7 {
                Some(v6_from_segments(head + zeros(8 - head.len() - tail.len()) + tail))
            } else {
                None
            },
            _ => None,
        }
    }
}

/// The address that `s` spells: an IPv4 address, or else an IPv6 address.
pub open spec fn parsed_ip(s: Seq<char>) -> Option<IpAddress> {
    match parsed_v4(s) {
        Some(a) => Some(IpAddress::V4(a)),
        None => match parsed_v6(s) {
            Some(x) => Some(IpAddress::V6(x)),
            None => None,
        },
    }
}

fn dec_digit_value(c: char) -> (v: Option<u8>)
    ensures
        v is Some <==> is_dec_digit(c),
        v matches Some(d) ==> d == dec_value(c),
{
    if '0' <= c && c <= '9' {
        Some((c as u32 - 48) as u8)
    } else {
        None
    }
}

fn hex_digit_value(c: char) -> (v: Option<u16>)
    ensures
        v is Some <==> is_hex_digit(c),
        v matches Some(d) ==> d == hex_value(c) && d < 16,
{
    if '0' <= c && c <= '9' {
        Some((c as u32 - 48) as u16)
    } else if 'a' <= c && c <= 'f' {
        Some((c as u32 - 87) as u16)
    } else if 'A' <= c && c <= 'F' {
        Some((c as u32 - 55) as u16)
    } else {
        None
    }
}

/// Reads an octet in decimal.
pub fn parse_octet(s: &Vec<char>) -> (r: Option<u8>)
    ensures
        r == parsed_octet(s@),
{
    let n = s.len();
    if n == 0 || n > 3 {
        return None;
    }
    let d0 = match dec_digit_value(s[0]) {
        Some(d) => d,
        None => {
            return None;
        },
    };
    if n == 1 {
        return Some(d0);
    }
    let d1 = match dec_digit_value(s[1]) {
        Some(d) => d,
        None => {
            return None;
        },
    };
    if d0 == 0 {
        return None;
    }
    if n == 2 {
        return Some(10 * d0 + d1);
    }
    let d2 = match dec_digit_value(s[2]) {
        Some(d) => d,
        None => {
            return None;
        },
    };
    let value: u16 = 100 * (d0 as u16) + 10 * (d1 as u16) + (d2 as u16);
    if value <= 255 {
        Some(value as u8)
    } else {
        None
    }
}

/// Reads a group in hexadecimal.
pub fn parse_group(s: &Vec<char>) -> (r: Option<u16>)
    ensures
        r == parsed_group(s@),
{
    let n = s.len();
    if n == 0 || n > 4 {
        return None;
    }
    let d0 = match hex_digit_value(s[0]) {
        Some(d) => d,
        None => {
            return None;
        },
    };
    if n == 1 {
        return Some(d0);
    }
    let d1 = match hex_digit_value(s[1]) {
        Some(d) => d,
        None => {
            return None;
        },
    };
    if n == 2 {
        return Some(16 * d0 + d1);
    }
    let d2 = match hex_digit_value(s[2]) {
        Some(d) => d,
        None => {
            return None;
        },
    };
    if n == 3 {
        return Some(256 * d0 + 16 * d1 + d2);
    }
    let d3 = match hex_digit_value(s[3]) {
        Some(d) => d,
        None => {
            return None;
        },
    };
    Some(4096 * d0 + 256 * d1 + 16 * d2 + d3)
}

/// Reads an IPv4 address from `chars[from..to]`.
fn parse_v4(chars: &Vec<char>, from: usize, to: usize) -> (r: Option<u32>)
    requires
        from <= to <= chars.len(),
    ensures
        r == parsed_v4(chars@.subrange(from as int, to as int)),
{
    let pieces = split_chars(chars, from, to, '.');
    if pieces.len() != 4 {
        return None;
    }
    proof {
        let p = piece_views(pieces@);
        assert(p[0] == pieces@[0]@ && p[1] == pieces@[1]@ && p[2] == pieces@[2]@ && p[3]
            == pieces@[3]@);
    }
    let o0 = match parse_octet(&pieces[0]) {
        Some(o) => o,
        None => {
            return None;
        },
    };
    let o1 = match parse_octet(&pieces[1]) {
        Some(o) => o,
        None => {
            return None;
        },
    };
    let o2 = match parse_octet(&pieces[2]) {
        Some(o) => o,
        None => {
            return None;
        },
    };
    let o3 = match parse_octet(&pieces[3]) {
        Some(o) => o,
        None => {
            return None;
        },
    };
    Some(((o0 as u32) << 24u32) | ((o1 as u32) << 16u32) | ((o2 as u32) << 8u32) | (o3 as u32))
}

/// Reads groups with colons between them from `chars[from..to]`.
fn parse_groups(chars: &Vec<char>, from: usize, to: usize, allow_v4: bool) -> (r: Option<
    Vec<u16>,
>)
    requires
        from <= to <= chars.len(),
    ensures
        r is Some <==> parsed_groups(chars@.subrange(from as int, to as int), allow_v4) is Some,
        r matches Some(groups) ==> Some(groups@) == parsed_groups(
            chars@.subrange(from as int, to as int),
            allow_v4,
        ),
{
    let mut groups: Vec<u16> = Vec::new();
    if from == to {
        return Some(groups);
    }
    let pieces = split_chars(chars, from, to, ':');
    let ghost p = piece_views(pieces@);
    let mut i: usize = 0;
    while i < pieces.len()
        invariant
            i <= pieces.len(),
            from < to <= chars.len(),
            p == piece_views(pieces@),
            p == split(chars@.subrange(from as int, to as int), ':'),
            pieces_groups(p.take(i as int), false) == Some(groups@),
        decreases pieces.len() - i,
    {
        proof {
            assert(p.take(i + 1).drop_last() =~= p.take(i as int));
            assert(p.take(i + 1).last() == pieces@[i as int]@);
        }
        let last = i + 1 == pieces.len();
        match parse_group(&pieces[i]) {
            Some(g) => {
                groups.push(g);
            },
            None => {
                if last && allow_v4 {
                    let piece = &pieces[i];
                    proof {
                        assert(piece@.subrange(0, piece@.len() as int) =~= piece@);
                        assert(p.take(i + 1) =~= p);
                    }
                    match parse_v4(piece, 0, piece.len()) {
                        Some(a) => {
                            let ghost before = groups@;
                            groups.push(
                                #[verifier::truncate]
                                ((a >> 16u32) as u16),
                            );
                            groups.push(
                                #[verifier::truncate]
                                (a as u16),
                            );
                            proof {
                                assert(groups@ =~= before + halves(a));
                            }
                            return Some(groups);
                        },
                        None => {
                            return None;
                        },
                    }
                } else {
                    proof {
                        lemma_pieces_refused(p, i + 1, allow_v4);
                    }
                    return None;
                }
            },
        }
        proof {
            if last {
                assert(p.take(i + 1) =~= p);
            }
        }
        i = i + 1;
    }
    proof {
        assert(p.take(i as int) =~= p);
        lemma_last_piece(p, allow_v4);
    }
    Some(groups)
}

/// Where the last piece spells a group, it does not matter whether an IPv4
/// address is allowed in its place.
pub proof fn lemma_last_piece(p: Seq<Seq<char>>, allow_v4: bool)
    requires
        pieces_groups(p, false) is Some,
    ensures
        pieces_groups(p, allow_v4) == pieces_groups(p, false),
{
}

/// Pieces of which the first `n` spell no groups spell none as a whole.
pub proof fn lemma_pieces_refused(p: Seq<Seq<char>>, n: int, allow_v4: bool)
    requires
        0 <= n <= p.len(),
        pieces_groups(p.take(n), false) is None,
        n == p.len() ==> pieces_groups(p.take(n), allow_v4) is None,
    ensures
        pieces_groups(p, allow_v4) is None,
    decreases p.len() - n,
{
    if n < p.len() {
        assert(p.take(n + 1).drop_last() =~= p.take(n));
        lemma_pieces_refused(p, n + 1, allow_v4);
    } else {
        assert(p.take(n) =~= p);
    }
}

/// Finds the first `::`.
fn find_double_colon(chars: &Vec<char>) -> (k: usize)
    ensures
        k == double_colon(chars@, chars@.len() as int),
        k <= chars.len(),
        k < chars.len() ==> k + 2 <= chars.len(),
{
    let mut i: usize = 0;
    while i < chars.len()
        invariant
            i <= chars.len(),
            double_colon(chars@, i as int) == i,
        decreases chars.len() - i,
    {
        if chars[i] == ':' && i + 1 < chars.len() && chars[i + 1] == ':' {
            proof {
                lemma_double_colon_found(chars@, i + 1, chars@.len() as int);
            }
            return i;
        }
        i = i + 1;
    }
    i
}

/// A `::` that `double_colon` has found stays the first.
pub proof fn lemma_double_colon_found(s: Seq<char>, n: int, upto: int)
    requires
        0 < n <= upto <= s.len(),
        double_colon(s, n) == n - 1,
    ensures
        double_colon(s, upto) == n - 1,
    decreases upto - n,
{
    if n < upto {
        lemma_double_colon_found(s, n, upto - 1);
    }
}

fn segments_value(g: &Vec<u16>) -> (x: u128)
    requires
        g.len() == 8,
    ensures
        x == v6_from_segments(g@),
{
    ((g[0] as u128) << 112u32) | ((g[1] as u128) << 96u32) | ((g[2] as u128) << 80u32) | ((
    g[3] as u128) << 64u32) | ((g[4] as u128) << 48u32) | ((g[5] as u128) << 32u32) | ((
    g[6] as u128) << 16u32) | (g[7] as u128)
}

/// Reads an IPv6 address.
pub fn parse_v6(chars: &Vec<char>) -> (r: Option<u128>)
    ensures
        r == parsed_v6(chars@),
{
    let n = chars.len();
    let k = find_double_colon(chars);
    proof {
        assert(chars@.subrange(0, n as int) =~= chars@);
    }
    if k >= n {
        match parse_groups(chars, 0, n, true) {
            Some(g) => {
                if g.len() == 8 {
                    Some(segments_value(&g))
                } else {
                    None
                }
            },
            None => None,
        }
    } else {
        proof {
            assert(chars@.subrange(0, k as int) =~= chars@.take(k as int));
            assert(chars@.subrange(k + 2, n as int) =~= chars@.skip(k + 2));
        }
        let head = match parse_groups(chars, 0, k, false) {
            Some(g) => g,
            None => {
                return None;
            },
        };
        let tail = match parse_groups(chars, k + 2, n, true) {
            Some(g) => g,
            None => {
                return None;
            },
        };
        if head.len() > 7 || tail.len() > 7 - head.len() {
            return None;
        }
        let mut all: Vec<u16> = Vec::new();
        let mut i: usize = 0;
        while i < head.len()
            invariant
                i <= head.len(),
                all@ == head@.take(i as int),
            decreases head.len() - i,
        {
            all.push(head[i]);
            proof {
                assert(all@ =~= head@.take(i + 1));
            }
            i = i + 1;
        }
        let gap = 8 - head.len() - tail.len();
        let mut j: usize = 0;
        while j < gap
            invariant
                j <= gap,
                gap == 8 - head.len() - tail.len(),
                all@ == head@ + zeros(j as int),
            decreases gap - j,
        {
            all.push(0);
            proof {
                assert(all@ =~= head@ + zeros(j + 1));
            }
            j = j + 1;
        }
        let mut t: usize = 0;
        while t < tail.len()
            invariant
                t <= tail.len(),
                all@ == head@ + zeros(gap as int) + tail@.take(t as int),
            decreases tail.len() - t,
        {
            all.push(tail[t]);
            proof {
                assert(all@ =~= head@ + zeros(gap as int) + tail@.take(t + 1));
            }
            t = t + 1;
        }
        proof {
            assert(tail@.take(t as int) =~= tail@);
        }
        Some(segments_value(&all))
    }
}

/// Reads an IP address of either family. `None` where `text` spells none.
pub fn parse_ip(text: &str) -> (r: Option<IpAddress>)
    ensures
        r == parsed_ip(text@),
{
    let chars = chars_of(text);
    proof {
        assert(chars@.subrange(0, chars@.len() as int) =~= chars@);
    }
    match parse_v4(&chars, 0, chars.len()) {
        Some(a) => Some(IpAddress::V4(a)),
        None => match parse_v6(&chars) {
            Some(x) => Some(IpAddress::V6(x)),
            None => None,
        },
    }
}

} // verus!
