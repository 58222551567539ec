//! Reading gives back what writing wrote: the text of an address spells that
//! address and no other.

use crate::ip::{octets, segments, v4_from_octets, IpAddress};
use crate::ip_parse::{
    double_colon, halves, hex_value, is_dec_digit, is_hex_digit, lemma_double_colon_found,
    parsed_group, parsed_groups, parsed_ip,
    parsed_octet, parsed_v4, parsed_v6, pieces_groups, v6_from_segments, zeros,
};
use crate::ip_text::{
    decimal, dotted, embedded_octets, groups_form, groups_text, hex, hex_digit, ip_text,
    longest_zero_run, mapped, zero_run,
};
use crate::text::{lemma_split_appended, lemma_split_covers, lemma_split_one_piece, split};
use vstd::prelude::*;

verus! {

/// The decimal form of an octet is made of one to three digits, and spells
/// the octet.
pub proof fn lemma_decimal(n: u8)
    ensures
        parsed_octet(decimal(n)) == Some(n),
        1 <= decimal(n).len() <= 3,
        forall|i: int| 0 <= i < decimal(n).len() ==> is_dec_digit(#[trigger] decimal(n)[i]),
{
}

/// A hexadecimal digit spells its value.
pub proof fn lemma_hex_digit(d: u16)
    requires
        d < 16,
    ensures
        is_hex_digit(hex_digit(d)),
        hex_value(hex_digit(d)) == d,
{
}

/// The hexadecimal form of a group is made of one to four digits, and spells
/// the group.
pub proof fn lemma_hex(g: u16)
    ensures
        parsed_group(hex(g)) == Some(g),
        1 <= hex(g).len() <= 4,
        forall|i: int| 0 <= i < hex(g).len() ==> is_hex_digit(#[trigger] hex(g)[i]),
{
    let h = hex(g);
    lemma_hex_digit(g % 16);
    if g < 0x10 {
        assert(h[0] == hex_digit(g));
    } else if g < 0x100 {
        lemma_hex_digit(g / 16);
        assert(h[0] == hex_digit(g / 16) && h[1] == hex_digit(g % 16));
        assert(16 * (g / 16) + g % 16 == g);
    } else if g < 0x1000 {
        lemma_hex_digit(g / 256);
        lemma_hex_digit(g / 16 % 16);
        assert(h[0] == hex_digit(g / 256) && h[1] == hex_digit(g / 16 % 16) && h[2] == hex_digit(
            g % 16,
        ));
        assert(256 * (g / 256) + 16 * (g / 16 % 16) + g % 16 == g);
    } else {
        lemma_hex_digit(g / 4096);
        lemma_hex_digit(g / 256 % 16);
        lemma_hex_digit(g / 16 % 16);
        assert(h[0] == hex_digit(g / 4096) && h[1] == hex_digit(g / 256 % 16) && h[2]
            == hex_digit(g / 16 % 16) && h[3] == hex_digit(g % 16));
        assert(4096 * (g / 4096) + 256 * (g / 256 % 16) + 16 * (g / 16 % 16) + g % 16 == g);
    }
}

/// A text made of digits holds neither dot nor colon.
pub proof fn lemma_digits_hold_no_separator(s: Seq<char>)
    requires
        forall|i: int| 0 <= i < s.len() ==> is_hex_digit(#[trigger] s[i]) || is_dec_digit(s[i]),
    ensures
        !s.contains('.'),
        !s.contains(':'),
{
    if s.contains('.') {
        let i = choose|i: int| 0 <= i < s.len() && s[i] == '.';
        assert(is_hex_digit(s[i]) || is_dec_digit(s[i]));
    }
    if s.contains(':') {
        let i = choose|i: int| 0 <= i < s.len() && s[i] == ':';
        assert(is_hex_digit(s[i]) || is_dec_digit(s[i]));
    }
}

/// The pieces of a dotted text are the decimal forms of its octets.
pub proof fn lemma_dotted_pieces(o: Seq<u8>)
    requires
        o.len() == 4,
    ensures
        split(dotted(o), '.') == seq![decimal(o[0]), decimal(o[1]), decimal(o[2]), decimal(o[3])],
        !dotted(o).contains(':'),
{
    let d0 = decimal(o[0]);
    let d1 = decimal(o[1]);
    let d2 = decimal(o[2]);
    let d3 = decimal(o[3]);
    lemma_decimal(o[0]);
    lemma_decimal(o[1]);
    lemma_decimal(o[2]);
    lemma_decimal(o[3]);
    lemma_digits_hold_no_separator(d0);
    lemma_digits_hold_no_separator(d1);
    lemma_digits_hold_no_separator(d2);
    lemma_digits_hold_no_separator(d3);
    lemma_split_one_piece(d0, '.');
    lemma_split_appended(d0, d1, '.');
    lemma_split_appended(d0 + seq!['.'] + d1, d2, '.');
    lemma_split_appended(d0 + seq!['.'] + d1 + seq!['.'] + d2, d3, '.');
    assert(seq![d0].push(d1).push(d2).push(d3) =~= seq![d0, d1, d2, d3]);
    if dotted(o).contains(':') {
        let i = choose|i: int| 0 <= i < dotted(o).len() && dotted(o)[i] == ':';
        let a = d0.len() as int;
        let b = a + 1 + d1.len();
        let c = b + 1 + d2.len();
        if i < a {
            assert(d0[i] == ':');
            assert(d0.contains(':'));
        } else if a < i < b {
            assert(d1[i - a - 1] == ':');
            assert(d1.contains(':'));
        } else if b < i < c {
            assert(d2[i - b - 1] == ':');
            assert(d2.contains(':'));
        } else if c < i {
            assert(d3[i - c - 1] == ':');
            assert(d3.contains(':'));
        }
    }
}

/// An IPv4 address is made of its four octets.
pub proof fn lemma_octets_make_the_address(a: u32)
    ensures
        v4_from_octets(octets(a)) == a,
{
    assert(((((a >> 24u32) as u8) as u32) << 24u32) | ((((a >> 16u32) as u8) as u32) << 16u32) | ((((a
        >> 8u32) as u8) as u32) << 8u32) | ((a as u8) as u32) == a) by (bit_vector);
}

/// A dotted text spells the address of its octets.
pub proof fn lemma_dotted_spells(o: Seq<u8>)
    requires
        o.len() == 4,
    ensures
        parsed_v4(dotted(o)) == Some(v4_from_octets(o)),
{
    lemma_dotted_pieces(o);
    lemma_decimal(o[0]);
    lemma_decimal(o[1]);
    lemma_decimal(o[2]);
    lemma_decimal(o[3]);
    assert(seq![o[0], o[1], o[2], o[3]] =~= o);
}

/// A text that holds a colon spells no IPv4 address.
pub proof fn lemma_colon_rules_out_v4(t: Seq<char>)
    requires
        t.contains(':'),
    ensures
        parsed_v4(t) is None,
{
    let i = choose|i: int| 0 <= i < t.len() && t[i] == ':';
    lemma_split_covers(t, '.', i);
    let p = split(t, '.');
    let j = choose|j: int| 0 <= j < p.len() && (#[trigger] p[j]).contains(t[i]);
    let k = choose|k: int| 0 <= k < p[j].len() && p[j][k] == ':';
    if parsed_v4(t) is Some {
        assert(parsed_octet(p[j]) is Some);
        assert(is_dec_digit(p[j][k]));
    }
}

/// Whether no two colons stand next to each other in `t`.
pub open spec fn colons_apart(t: Seq<char>) -> bool {
    forall|j: int| 0 <= j && j + 1 < t.len() ==> !(#[trigger] t[j] == ':' && t[j + 1] == ':')
}

/// The pieces of the text of groups are the hexadecimal forms of the groups.
/// The text holds no dot, begins and ends with a digit, and no two colons
/// stand next to each other in it.
pub proof fn lemma_groups_text(gs: Seq<u16>)
    requires
        gs.len() >= 1,
    ensures
        split(groups_text(gs), ':') == gs.map_values(|g: u16| hex(g)),
        groups_text(gs).len() >= 1,
        groups_text(gs)[0] != ':',
        groups_text(gs).last() != ':',
        colons_apart(groups_text(gs)),
    decreases gs.len(),
{
    let t = groups_text(gs);
    let h = hex(gs.last());
    lemma_hex(gs.last());
    lemma_digits_hold_no_separator(h);
    assert(is_hex_digit(h[0]));
    assert(is_hex_digit(h[h.len() - 1]));
    if gs.len() == 1 {
        lemma_split_one_piece(h, ':');
        assert(seq![h] =~= gs.map_values(|g: u16| hex(g)));
        assert forall|j: int| 0 <= j && j + 1 < t.len() implies !(#[trigger] t[j] == ':' && t[j + 1]
            == ':') by {
            assert(is_hex_digit(h[j]));
        }
    } else {
        let init = gs.drop_last();
        let ti = groups_text(init);
        lemma_groups_text(init);
        lemma_split_appended(ti, h, ':');
        assert(init.map_values(|g: u16| hex(g)).push(h) =~= gs.map_values(|g: u16| hex(g)));
        assert(t[0] == ti[0]);
        assert(t.last() == h[h.len() - 1]);
        assert forall|j: int| 0 <= j && j + 1 < t.len() implies !(#[trigger] t[j] == ':' && t[j + 1]
            == ':') by {
            let n = ti.len() as int;
            if j + 1 < n {
                assert(t[j] == ti[j] && t[j + 1] == ti[j + 1]);
            } else if j + 1 == n {
                assert(t[j] == ti[n - 1]);
            } else if j == n {
                assert(t[j + 1] == h[0]);
            } else {
                assert(t[j] == h[j - n - 1]);
                assert(is_hex_digit(h[j - n - 1]));
            }
        }
    }
}

/// The hexadecimal forms of groups spell those groups.
pub proof fn lemma_hex_pieces(gs: Seq<u16>, allow_v4: bool)
    ensures
        pieces_groups(gs.map_values(|g: u16| hex(g)), allow_v4) == Some(gs),
    decreases gs.len(),
{
    let p = gs.map_values(|g: u16| hex(g));
    if gs.len() > 0 {
        let init = gs.drop_last();
        lemma_hex_pieces(init, false);
        lemma_hex(gs.last());
        assert(p.drop_last() =~= init.map_values(|g: u16| hex(g)));
        assert(p.last() == hex(gs.last()));
        assert(init.push(gs.last()) =~= gs);
    } else {
        assert(gs =~= Seq::<u16>::empty());
    }
}

/// The text of groups spells those groups.
pub proof fn lemma_groups_text_spells(gs: Seq<u16>, allow_v4: bool)
    ensures
        parsed_groups(groups_text(gs), allow_v4) == Some(gs),
{
    if gs.len() == 0 {
        assert(gs =~= Seq::<u16>::empty());
    } else {
        lemma_groups_text(gs);
        lemma_hex_pieces(gs, allow_v4);
    }
}

/// Where no two colons stand next to each other before `upto`, no `::` begins
/// before `upto`.
pub proof fn lemma_no_double_colon(t: Seq<char>, upto: int)
    requires
        0 <= upto <= t.len(),
        forall|j: int| 0 <= j < upto && j + 1 < t.len() ==> !(#[trigger] t[j] == ':' && t[j + 1]
            == ':'),
    ensures
        double_colon(t, upto) == upto,
    decreases upto,
{
    if upto > 0 {
        lemma_no_double_colon(t, upto - 1);
    }
}

/// The first `::` of a text is where `double_colon` says.
pub proof fn lemma_double_colon_at(t: Seq<char>, k: int)
    requires
        0 <= k,
        k + 1 < t.len(),
        t[k] == ':',
        t[k + 1] == ':',
        forall|j: int| 0 <= j < k ==> !(#[trigger] t[j] == ':' && t[j + 1] == ':'),
    ensures
        double_colon(t, t.len() as int) == k,
{
    lemma_no_double_colon(t, k);
    assert(double_colon(t, k + 1) == k);
    lemma_double_colon_found(t, k + 1, t.len() as int);
}

/// A run of zero groups lies within the groups and holds zeros only.
pub proof fn lemma_zero_run(s: Seq<u16>, i: int)
    requires
        0 <= i,
    ensures
        0 <= zero_run(s, i),
        zero_run(s, i) > 0 ==> i + zero_run(s, i) <= s.len(),
        forall|j: int| i <= j < i + zero_run(s, i) ==> #[trigger] s[j] == 0,
    decreases s.len() - i,
{
    if i < s.len() && s[i] == 0 {
        lemma_zero_run(s, i + 1);
    }
}

/// The longest run of zero groups is a run of zero groups.
pub proof fn lemma_longest_zero_run(s: Seq<u16>, from: int)
    requires
        0 <= from,
    ensures
        0 <= longest_zero_run(s, from).1,
        longest_zero_run(s, from).1 > 0 ==> from <= longest_zero_run(s, from).0 < s.len()
            && longest_zero_run(s, from).1 == zero_run(s, longest_zero_run(s, from).0),
    decreases s.len() - from,
{
    if from < s.len() {
        lemma_longest_zero_run(s, from + 1);
        lemma_zero_run(s, from);
    }
}

/// An IPv6 address is made of its eight groups.
pub proof fn lemma_segments_make_the_address(x: u128)
    ensures
        v6_from_segments(segments(x)) == x,
{
    assert(((((x >> 112u32) as u16) as u128) << 112u32) | ((((x >> 96u32) as u16) as u128) << 96u32)
        | ((((x >> 80u32) as u16) as u128) << 80u32) | ((((x >> 64u32) as u16) as u128) << 64u32)
        | ((((x >> 48u32) as u16) as u128) << 48u32) | ((((x >> 32u32) as u16) as u128) << 32u32)
        | ((((x >> 16u32) as u16) as u128) << 16u32) | ((x as u16) as u128) == x) by (bit_vector);
}

/// The IPv4 address that two groups hold has those groups as its halves.
pub proof fn lemma_embedded_halves(s: Seq<u16>)
    requires
        s.len() == 8,
    ensures
        halves(v4_from_octets(embedded_octets(s))) == seq![s[6], s[7]],
{
    let hi = s[6];
    let lo = s[7];
    assert({
        let v = ((((hi / 256) as u8) as u32) << 24u32) | ((((hi % 256) as u8) as u32) << 16u32) | ((((
        lo / 256) as u8) as u32) << 8u32) | (((lo % 256) as u8) as u32);
        (v >> 16u32) as u16 == hi && v as u16 == lo
    }) by (bit_vector);
    assert(halves(v4_from_octets(embedded_octets(s))) =~= seq![s[6], s[7]]);
}

/// The text of a mapped address spells its groups.
proof fn lemma_mapped_form_spells(s: Seq<u16>)
    requires
        s.len() == 8,
        mapped(s),
    ensures
        parsed_v6(groups_form(s)) == Some(v6_from_segments(s)),
        groups_form(s).contains(':'),
{
    let o = embedded_octets(s);
    let d = dotted(o);
    let t = groups_form(s);
    let ffff = seq!['f', 'f', 'f', 'f'];
    lemma_dotted_pieces(o);
    lemma_dotted_spells(o);
    lemma_embedded_halves(s);
    lemma_decimal(o[0]);
    assert(t[0] == ':' && t[1] == ':');
    lemma_double_colon_at(t, 0);
    assert(t.take(0) =~= Seq::<char>::empty());
    let tail = t.skip(2);
    assert(tail =~= ffff + seq![':'] + d);
    assert(!ffff.contains(':')) by {
        if ffff.contains(':') {
            let i = choose|i: int| 0 <= i < ffff.len() && ffff[i] == ':';
        }
    }
    lemma_split_one_piece(ffff, ':');
    lemma_split_appended(ffff, d, ':');
    let p = seq![ffff, d];
    assert(split(tail, ':') =~= p);
    assert(p.drop_last() =~= seq![ffff]);
    assert(seq![ffff].drop_last() =~= Seq::<Seq<char>>::empty());
    assert(parsed_group(ffff) == Some(0xffffu16));
    assert(pieces_groups(Seq::<Seq<char>>::empty(), false) == Some(Seq::<u16>::empty()));
    assert(pieces_groups(seq![ffff], false) == Some(seq![0xffffu16])) by {
        assert(Seq::<u16>::empty().push(0xffffu16) =~= seq![0xffffu16]);
    }
    assert(d.len() >= 7);
    assert(parsed_group(d) is None);
    let tail_groups = seq![0xffffu16] + seq![s[6], s[7]];
    assert(pieces_groups(p, true) == Some(tail_groups));
    assert(Seq::<u16>::empty() + zeros(8 - 0 - 3) + tail_groups =~= s);
}

/// The text of groups that are shortened at their longest run of zeros
/// spells the groups.
proof fn lemma_shortened_form_spells(s: Seq<u16>)
    requires
        s.len() == 8,
        !mapped(s),
        longest_zero_run(s, 0).1 > 1,
    ensures
        parsed_v6(groups_form(s)) == Some(v6_from_segments(s)),
        groups_form(s).contains(':'),
{
    let run = longest_zero_run(s, 0);
    lemma_longest_zero_run(s, 0);
    lemma_zero_run(s, run.0);
    let head = s.take(run.0);
    let tail = s.skip(run.0 + run.1);
    let th = groups_text(head);
    let tt = groups_text(tail);
    let t = groups_form(s);
    let k = th.len() as int;
    assert(t =~= th + seq![':', ':'] + tt);
    assert(t[k] == ':' && t[k + 1] == ':');
    if head.len() > 0 {
        lemma_groups_text(head);
        assert forall|j: int| 0 <= j < k implies !(#[trigger] t[j] == ':' && t[j + 1] == ':') by {
            if j + 1 < k {
                assert(t[j] == th[j] && t[j + 1] == th[j + 1]);
            } else {
                assert(t[j] == th[k - 1]);
            }
        }
    }
    lemma_double_colon_at(t, k);
    assert(t.take(k) =~= th);
    assert(t.skip(k + 2) =~= tt);
    lemma_groups_text_spells(head, false);
    lemma_groups_text_spells(tail, true);
    assert(head + zeros(8 - head.len() - tail.len()) + tail =~= s);
    assert(t.contains(':'));
}

/// The text of groups that are written in full spells the groups.
proof fn lemma_full_form_spells(s: Seq<u16>)
    requires
        s.len() == 8,
        !mapped(s),
        longest_zero_run(s, 0).1 <= 1,
    ensures
        parsed_v6(groups_form(s)) == Some(v6_from_segments(s)),
        groups_form(s).contains(':'),
{
    let t = groups_form(s);
    lemma_groups_text(s);
    lemma_no_double_colon(t, t.len() as int);
    lemma_groups_text_spells(s, true);
    lemma_hex(s[0]);
    let init = s.drop_last();
    lemma_groups_text(init);
    let k = groups_text(init).len() as int;
    assert(t[k] == ':');
}

/// The text of eight groups spells those groups, and holds a colon.
pub proof fn lemma_groups_form_spells(s: Seq<u16>)
    requires
        s.len() == 8,
    ensures
        parsed_v6(groups_form(s)) == Some(v6_from_segments(s)),
        groups_form(s).contains(':'),
{
    if mapped(s) {
        lemma_mapped_form_spells(s);
    } else if longest_zero_run(s, 0).1 > 1 {
        lemma_shortened_form_spells(s);
    } else {
        lemma_full_form_spells(s);
    }
}

/// Reading the text of an address gives the address.
pub proof fn lemma_text_round_trip(addr: IpAddress)
    ensures
        parsed_ip(ip_text(addr)) == Some(addr),
{
    match addr {
        IpAddress::V4(a) => {
            lemma_dotted_spells(octets(a));
            lemma_octets_make_the_address(a);
        },
        IpAddress::V6(x) => {
            lemma_groups_form_spells(segments(x));
            lemma_colon_rules_out_v4(groups_form(segments(x)));
            lemma_segments_make_the_address(x);
        },
    }
}

} // verus!
