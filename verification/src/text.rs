//! Character-level helpers shared by the textual formats of the library.

use vstd::prelude::*;

verus! {

/// `String::push` of the standard library: the string afterwards is the string
/// before with `ch` appended.
pub assume_specification[ String::push ](s: &mut String, ch: char)
    ensures
        final(s)@ == old(s)@.push(ch),
;

/// The characters of `s`, in order.
pub fn chars_of(s: &str) -> (chars: Vec<char>)
    ensures
        chars@ == s@,
{
    broadcast use vstd::string::group_string_axioms;

    let mut chars: Vec<char> = Vec::new();
    for c in it: s.chars()
        invariant
            it.seq() == s@,
            chars@ == it.seq().take(it.index()),
    {
        chars.push(c);
    }
    chars
}

/// Appends `chars[from..to]` to `out`.
pub fn push_chars(out: &mut String, chars: &Vec<char>, from: usize, to: usize)
    requires
        from <= to <= chars.len(),
    ensures
        final(out)@ == old(out)@ + chars@.subrange(from as int, to as int),
{
    let mut i: usize = from;
    while i < to
        invariant
            from <= i <= to <= chars.len(),
            out@ == old(out)@ + chars@.subrange(from as int, i as int),
        decreases to - i,
    {
        out.push(chars[i]);
        i = i + 1;
    }
}

/// The string made of `chars[from..to]`.
pub fn string_of(chars: &Vec<char>, from: usize, to: usize) -> (s: String)
    requires
        from <= to <= chars.len(),
    ensures
        s@ == chars@.subrange(from as int, to as int),
{
    let mut s = String::new();
    push_chars(&mut s, chars, from, to);
    s
}

/// The pieces of `s` between occurrences of `sep`. A text without `sep` is one
/// piece; two adjacent separators, or one at either end, give an empty piece.
pub open spec fn split(s: Seq<char>, sep: char) -> Seq<Seq<char>>
    decreases s.len(),
{
    if s.len() == 0 {
        seq![Seq::<char>::empty()]
    } else {
        let before = split(s.drop_last(), sep);
        if s.last() == sep {
            before.push(Seq::<char>::empty())
        } else {
            before.update(before.len() - 1, before.last().push(s.last()))
        }
    }
}

/// What each piece of `pieces` holds.
pub open spec fn piece_views(pieces: Seq<Vec<char>>) -> Seq<Seq<char>> {
    pieces.map_values(|p: Vec<char>| p@)
}

/// A text without the separator is one piece.
pub proof fn lemma_split_one_piece(s: Seq<char>, sep: char)
    requires
        !s.contains(sep),
    ensures
        split(s, sep) == seq![s],
    decreases s.len(),
{
    if s.len() > 0 {
        let init = s.drop_last();
        assert forall|i: int| 0 <= i < init.len() implies init[i] != sep by {
            assert(init[i] == s[i]);
        }
        assert(s[s.len() - 1] != sep);
        lemma_split_one_piece(init, sep);
        assert(init.push(s.last()) =~= s);
        assert(seq![init].update(0, init.push(s.last())) =~= seq![s]);
    } else {
        assert(s =~= Seq::<char>::empty());
    }
}

/// A separator and a piece behind a text add that piece to the pieces of the
/// text.
pub proof fn lemma_split_appended(x: Seq<char>, y: Seq<char>, sep: char)
    requires
        !y.contains(sep),
    ensures
        split(x + seq![sep] + y, sep) == split(x, sep).push(y),
    decreases y.len(),
{
    let whole = x + seq![sep] + y;
    if y.len() == 0 {
        assert(whole.drop_last() =~= x);
        assert(whole.last() == sep);
        assert(y =~= Seq::<char>::empty());
    } else {
        let init = y.drop_last();
        assert forall|i: int| 0 <= i < init.len() implies init[i] != sep by {
            assert(init[i] == y[i]);
        }
        assert(y[y.len() - 1] != sep);
        lemma_split_appended(x, init, sep);
        assert(whole.drop_last() =~= x + seq![sep] + init);
        assert(whole.last() == y.last());
        let before = split(x, sep).push(init);
        assert(before.update(before.len() - 1, before.last().push(y.last())) =~= split(x, sep).push(
            y,
        )) by {
            assert(init.push(y.last()) =~= y);
        }
    }
}

/// Every character of a text other than the separator lies in one of the
/// pieces.
pub proof fn lemma_split_covers(s: Seq<char>, sep: char, i: int)
    requires
        0 <= i < s.len(),
        s[i] != sep,
    ensures
        exists|j: int| 0 <= j < split(s, sep).len() && (#[trigger] split(s, sep)[j]).contains(s[i]),
    decreases s.len(),
{
    let init = s.drop_last();
    let before = split(init, sep);
    let all = split(s, sep);
    if i == s.len() - 1 {
        if s.len() == 1 {
            assert(before.len() >= 1);
        } else {
            lemma_split_has_pieces(init, sep);
        }
        let last = all[all.len() - 1];
        assert(last[last.len() - 1] == s[i]);
        assert(last.contains(s[i]));
    } else {
        assert(init[i] == s[i]);
        lemma_split_covers(init, sep, i);
        let j = choose|j: int| 0 <= j < before.len() && (#[trigger] before[j]).contains(init[i]);
        if s.last() == sep || j < before.len() - 1 {
            assert(all[j] == before[j]);
        } else {
            let k = choose|k: int| 0 <= k < before[j].len() && before[j][k] == init[i];
            assert(all[j][k] == s[i]);
            assert(all[j].contains(s[i]));
        }
    }
}

/// A text has at least one piece.
pub proof fn lemma_split_has_pieces(s: Seq<char>, sep: char)
    ensures
        split(s, sep).len() >= 1,
    decreases s.len(),
{
    if s.len() > 0 {
        lemma_split_has_pieces(s.drop_last(), sep);
    }
}

/// Splits `chars[from..to]` at every `sep`.
pub fn split_chars(chars: &Vec<char>, from: usize, to: usize, sep: char) -> (pieces: Vec<Vec<char>>)
    requires
        from <= to <= chars.len(),
    ensures
        piece_views(pieces@) == split(chars@.subrange(from as int, to as int), sep),
{
    let mut pieces: Vec<Vec<char>> = Vec::new();
    let mut current: Vec<char> = Vec::new();
    let mut i: usize = from;
    while i < to
        invariant
            from <= i <= to <= chars.len(),
            piece_views(pieces@).push(current@) == split(chars@.subrange(from as int, i as int), sep),
        decreases to - i,
    {
        let ghost done = chars@.subrange(from as int, i as int);
        let ghost next = chars@.subrange(from as int, i + 1);
        let ghost before = piece_views(pieces@).push(current@);
        assert(next.drop_last() == done);
        assert(next.last() == chars[i as int]);
        if chars[i] == sep {
            pieces.push(current);
            current = Vec::new();
            assert(piece_views(pieces@).push(current@) == before.push(Seq::<char>::empty()));
        } else {
            current.push(chars[i]);
            assert(piece_views(pieces@).push(current@) == before.update(
                before.len() - 1,
                before.last().push(chars[i as int]),
            ));
        }
        i = i + 1;
    }
    let ghost before = piece_views(pieces@).push(current@);
    pieces.push(current);
    assert(piece_views(pieces@) == before);
    pieces
}

} // verus!
