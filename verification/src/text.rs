//! Character sequences: conversion from and to strings, search for a pattern,
//! splitting on a separator, joining, and trimming of white space.

use vstd::prelude::*;
use vstd::slice::slice_subrange;

verus! {

/// `String::push` appends one character at the end of the string.
pub assume_specification[ String::push ](s: &mut String, c: char)
    ensures
        final(s)@ == old(s)@.push(c),
;

/// The characters of `s`, in order.
pub fn to_chars(s: &str) -> (v: Vec<char>)
    ensures
        v@ == s@,
{
    let mut v: Vec<char> = Vec::new();
    for c in it: s.chars()
        invariant
            v@ == it.seq().take(it.index()),
            it.seq() == s@,
    {
        v.push(c);
    }
    v
}

/// The string made of the characters of `v`, in order.
pub fn from_chars(v: &[char]) -> (s: String)
    ensures
        s@ == v@,
{
    let mut s = String::new();
    let mut i: usize = 0;
    while i < v.len()
        invariant
            i <= v.len(),
            s@ == v@.take(i as int),
        decreases v.len() - i,
    {
        s.push(v[i]);
        i += 1;
    }
    s
}

/// Appends the characters of `piece` to `out`.
pub fn push_all(out: &mut Vec<char>, piece: &[char])
    ensures
        final(out)@ == old(out)@ + piece@,
{
    let mut i: usize = 0;
    while i < piece.len()
        invariant
            i <= piece.len(),
            out@ == old(out)@ + piece@.take(i as int),
        decreases piece.len() - i,
    {
        out.push(piece[i]);
        i += 1;
    }
}

/// `pat` stands in `s` at index `i`.
pub open spec fn occurs_at(s: Seq<char>, pat: Seq<char>, i: int) -> bool {
    &&& 0 <= i
    &&& i + pat.len() <= s.len()
    &&& s.subrange(i, i + pat.len()) == pat
}

/// `pat` stands somewhere in `s`.
pub open spec fn occurs_in(s: Seq<char>, pat: Seq<char>) -> bool {
    exists|i: int| occurs_at(s, pat, i)
}

/// `pat` stands in `s` at index `i` and at no smaller index.
pub open spec fn is_first_occurrence(s: Seq<char>, pat: Seq<char>, i: int) -> bool {
    &&& occurs_at(s, pat, i)
    &&& forall|j: int| 0 <= j < i ==> !occurs_at(s, pat, j)
}

/// The smallest index at which `pat` stands in `s`, if it stands there at all.
pub open spec fn first_occurrence(s: Seq<char>, pat: Seq<char>) -> Option<int> {
    if exists|i: int| is_first_occurrence(s, pat, i) {
        Some(choose|i: int| is_first_occurrence(s, pat, i))
    } else {
        None
    }
}

/// The pieces of `s` between the occurrences of the separator `pat`, found
/// from the left and not overlapping. A sequence without the separator is
/// one piece; there is always at least one piece.
#[verifier::opaque]
pub open spec fn split_on(s: Seq<char>, pat: Seq<char>) -> Seq<Seq<char>>
    decreases s.len(),
{
    match first_occurrence(s, pat) {
        Some(i) => if pat.len() > 0 {
            seq![s.subrange(0, i)] + split_on(s.subrange(i + pat.len(), s.len() as int), pat)
        } else {
            seq![s]
        },
        None => seq![s],
    }
}

/// The pieces in order, with `sep` between each two neighbours.
pub open spec fn join_with(pieces: Seq<Seq<char>>, sep: Seq<char>) -> Seq<char>
    decreases pieces.len(),
{
    if pieces.len() == 0 {
        Seq::empty()
    } else if pieces.len() == 1 {
        pieces[0]
    } else {
        join_with(pieces.drop_last(), sep) + sep + pieces.last()
    }
}

/// A first occurrence is the first occurrence.
pub proof fn lemma_first_occurrence_unique(s: Seq<char>, pat: Seq<char>, i: int)
    requires
        is_first_occurrence(s, pat, i),
    ensures
        first_occurrence(s, pat) == Some(i),
{
}

/// A pattern that stands at `i` has a first occurrence at or before `i`.
pub proof fn lemma_occurrence_has_first(s: Seq<char>, pat: Seq<char>, i: int)
    requires
        occurs_at(s, pat, i),
    ensures
        first_occurrence(s, pat) is Some,
        0 <= first_occurrence(s, pat)->0 <= i,
        is_first_occurrence(s, pat, first_occurrence(s, pat)->0),
    decreases i,
{
    if exists|j: int| 0 <= j < i && occurs_at(s, pat, j) {
        let j = choose|j: int| 0 <= j < i && occurs_at(s, pat, j);
        lemma_occurrence_has_first(s, pat, j);
    } else {
        lemma_first_occurrence_unique(s, pat, i);
    }
}

/// A sequence in which the separator does not stand is a single piece.
pub proof fn lemma_split_without(s: Seq<char>, pat: Seq<char>)
    requires
        !occurs_in(s, pat),
    ensures
        first_occurrence(s, pat) is None,
        split_on(s, pat) == seq![s],
{
    reveal(split_on);
}

/// Splitting takes off the text before the first separator and goes on
/// behind it.
pub proof fn lemma_split_step(s: Seq<char>, pat: Seq<char>, i: int)
    requires
        pat.len() > 0,
        is_first_occurrence(s, pat, i),
    ensures
        split_on(s, pat) == seq![s.subrange(0, i)] + split_on(
            s.subrange(i + pat.len(), s.len() as int),
            pat,
        ),
{
    reveal(split_on);
    lemma_first_occurrence_unique(s, pat, i);
}

/// A sequence in which the separator stands has at least two pieces.
pub proof fn lemma_split_with(s: Seq<char>, pat: Seq<char>)
    requires
        pat.len() > 0,
        occurs_in(s, pat),
    ensures
        split_on(s, pat).len() >= 2,
{
    let i = choose|i: int| occurs_at(s, pat, i);
    lemma_occurrence_has_first(s, pat, i);
    let k = first_occurrence(s, pat)->0;
    lemma_split_step(s, pat, k);
    lemma_split_nonempty(s.subrange(k + pat.len(), s.len() as int), pat);
}

/// There is always at least one piece.
pub proof fn lemma_split_nonempty(s: Seq<char>, pat: Seq<char>)
    ensures
        split_on(s, pat).len() >= 1,
{
    reveal(split_on);
}

/// A pattern stands in a tail of `s` where it stands in `s`, shifted by the
/// start of the tail.
pub proof fn lemma_occurs_at_tail(s: Seq<char>, pat: Seq<char>, from: int, i: int)
    requires
        0 <= from <= s.len(),
        0 <= i,
    ensures
        occurs_at(s.subrange(from, s.len() as int), pat, i) <==> occurs_at(s, pat, from + i),
{
    let tail = s.subrange(from, s.len() as int);
    if i + pat.len() <= tail.len() {
        assert(tail.subrange(i, i + pat.len()) =~= s.subrange(from + i, from + i + pat.len()));
    }
}

/// A one-character pattern stands where that character stands.
pub proof fn lemma_occurs_at_char(s: Seq<char>, c: char, i: int)
    ensures
        occurs_at(s, seq![c], i) <==> (0 <= i < s.len() && s[i] == c),
{
    if 0 <= i < s.len() {
        assert(s.subrange(i, i + 1) =~= seq![s[i]]);
        assert(seq![s[i]][0] == s[i]);
    }
}

/// Where a character stands for the first time, splitting on it takes off
/// the text before it and goes on behind it.
pub proof fn lemma_split_at_char(s: Seq<char>, c: char, i: int)
    requires
        0 <= i < s.len(),
        s[i] == c,
        forall|j: int| 0 <= j < i ==> s[j] != c,
    ensures
        split_on(s, seq![c]) == seq![s.subrange(0, i)] + split_on(
            s.subrange(i + 1, s.len() as int),
            seq![c],
        ),
        split_on(s, seq![c]).len() >= 2,
{
    assert forall|j: int| 0 <= j < i implies !occurs_at(s, seq![c], j) by {
        lemma_occurs_at_char(s, c, j);
    }
    lemma_occurs_at_char(s, c, i);
    lemma_split_step(s, seq![c], i);
    lemma_split_nonempty(s.subrange(i + 1, s.len() as int), seq![c]);
}

/// A sequence in which a character does not stand is a single piece when
/// split on it.
pub proof fn lemma_split_without_char(s: Seq<char>, c: char)
    requires
        forall|j: int| 0 <= j < s.len() ==> s[j] != c,
    ensures
        split_on(s, seq![c]) == seq![s],
{
    assert forall|j: int| !occurs_at(s, seq![c], j) by {
        lemma_occurs_at_char(s, c, j);
    }
    lemma_split_without(s, seq![c]);
}

/// The character `c` stands nowhere in `s`.
pub open spec fn free_of(s: Seq<char>, c: char) -> bool {
    forall|j: int| 0 <= j < s.len() ==> s[j] != c
}

/// The character `c` stands in none of the pieces.
pub open spec fn all_free_of(pieces: Seq<Seq<char>>, c: char) -> bool {
    forall|k: int| 0 <= k < pieces.len() ==> free_of(#[trigger] pieces[k], c)
}

/// The pieces that splitting on a character gives do not hold that
/// character.
pub proof fn lemma_split_pieces_free(s: Seq<char>, c: char)
    ensures
        all_free_of(split_on(s, seq![c]), c),
    decreases s.len(),
{
    if exists|j: int| 0 <= j < s.len() && s[j] == c {
        let j = choose|j: int| 0 <= j < s.len() && s[j] == c;
        lemma_occurs_at_char(s, c, j);
        lemma_occurrence_has_first(s, seq![c], j);
        let i = first_occurrence(s, seq![c])->0;
        lemma_occurs_at_char(s, c, i);
        assert forall|k: int| 0 <= k < i implies s[k] != c by {
            lemma_occurs_at_char(s, c, k);
        }
        lemma_split_at_char(s, c, i);
        let rest = s.subrange(i + 1, s.len() as int);
        lemma_split_pieces_free(rest, c);
    } else {
        lemma_split_without_char(s, c);
    }
}

/// Splitting two texts with the separating character between them gives the
/// pieces of the first and then the pieces of the second.
pub proof fn lemma_split_concat(x: Seq<char>, c: char, y: Seq<char>)
    ensures
        split_on(x + seq![c] + y, seq![c]) == split_on(x, seq![c]) + split_on(y, seq![c]),
    decreases x.len(),
{
    let whole = x + seq![c] + y;
    if exists|j: int| 0 <= j < x.len() && x[j] == c {
        let j = choose|j: int| 0 <= j < x.len() && x[j] == c;
        lemma_occurs_at_char(x, c, j);
        lemma_occurrence_has_first(x, seq![c], j);
        let i = first_occurrence(x, seq![c])->0;
        lemma_occurs_at_char(x, c, i);
        assert forall|k: int| 0 <= k < i implies x[k] != c by {
            lemma_occurs_at_char(x, c, k);
        }
        lemma_split_at_char(x, c, i);
        lemma_split_at_char(whole, c, i);
        let rest = x.subrange(i + 1, x.len() as int);
        assert(whole.subrange(i + 1, whole.len() as int) =~= rest + seq![c] + y);
        assert(whole.subrange(0, i) =~= x.subrange(0, i));
        lemma_split_concat(rest, c, y);
    } else {
        lemma_split_without_char(x, c);
        lemma_split_at_char(whole, c, x.len() as int);
        assert(whole.subrange(0, x.len() as int) =~= x);
        assert(whole.subrange(x.len() as int + 1, whole.len() as int) =~= y);
    }
}

/// Pieces that do not hold the separating character come back when their
/// join is split.
pub proof fn lemma_split_join(pieces: Seq<Seq<char>>, c: char)
    requires
        pieces.len() >= 1,
        all_free_of(pieces, c),
    ensures
        split_on(join_with(pieces, seq![c]), seq![c]) == pieces,
    decreases pieces.len(),
{
    let last = pieces.last();
    lemma_split_without_char(last, c);
    if pieces.len() > 1 {
        let front = pieces.drop_last();
        lemma_split_join(front, c);
        lemma_split_concat(join_with(front, seq![c]), c, last);
    }
}

/// Joining a piece in front: the piece, the separator, and the join of the
/// rest.
pub proof fn lemma_join_front(piece: Seq<char>, rest: Seq<Seq<char>>, sep: Seq<char>)
    requires
        rest.len() >= 1,
    ensures
        join_with(seq![piece] + rest, sep) == piece + sep + join_with(rest, sep),
    decreases rest.len(),
{
    let all = seq![piece] + rest;
    assert(all.drop_last() =~= seq![piece] + rest.drop_last());
    assert(all.last() == rest.last());
    if rest.len() == 1 {
        assert(all.drop_last() =~= seq![piece]);
        assert(join_with(seq![piece], sep) == piece);
    } else {
        lemma_join_front(piece, rest.drop_last(), sep);
        assert(join_with(all, sep) =~= piece + sep + join_with(rest, sep));
    }
}

/// The pieces that splitting on a character gives, joined with that
/// character, are the text that was split.
pub proof fn lemma_join_split(s: Seq<char>, c: char)
    ensures
        join_with(split_on(s, seq![c]), seq![c]) == s,
    decreases s.len(),
{
    if exists|j: int| 0 <= j < s.len() && s[j] == c {
        let j = choose|j: int| 0 <= j < s.len() && s[j] == c;
        lemma_occurs_at_char(s, c, j);
        lemma_occurrence_has_first(s, seq![c], j);
        let i = first_occurrence(s, seq![c])->0;
        lemma_occurs_at_char(s, c, i);
        assert forall|k: int| 0 <= k < i implies s[k] != c by {
            lemma_occurs_at_char(s, c, k);
        }
        lemma_split_at_char(s, c, i);
        let rest = s.subrange(i + 1, s.len() as int);
        lemma_split_nonempty(rest, seq![c]);
        lemma_join_split(rest, c);
        lemma_join_front(s.subrange(0, i), split_on(rest, seq![c]), seq![c]);
        assert(s.subrange(0, i) + seq![c] + rest =~= s);
    } else {
        lemma_split_without_char(s, c);
    }
}

/// The first index at or behind `from` at which `c` stands in `s`, or the
/// length of `s` if it stands at none.
pub fn find_char(s: &[char], from: usize, c: char) -> (at: usize)
    requires
        from <= s.len(),
    ensures
        from <= at <= s.len(),
        forall|j: int| from <= j < at ==> s@[j] != c,
        at < s.len() ==> s@[at as int] == c,
{
    let mut at: usize = from;
    while at < s.len() && s[at] != c
        invariant
            from <= at <= s.len(),
            forall|j: int| from <= j < at ==> s@[j] != c,
        decreases s.len() - at,
    {
        at += 1;
    }
    at
}

/// Where `c` stands in `s`, if `s` split on `c` has exactly two pieces.
pub fn split_in_two(s: &[char], c: char) -> (at: Option<usize>)
    ensures
        match at {
            Some(i) => i < s.len() && split_on(s@, seq![c]) == seq![
                s@.subrange(0, i as int),
                s@.subrange(i + 1, s.len() as int),
            ],
            None => split_on(s@, seq![c]).len() != 2,
        },
{
    let n = s.len();
    let first = find_char(s, 0, c);
    if first == n {
        proof {
            lemma_split_without_char(s@, c);
        }
        return None;
    }
    let ghost rest = s@.subrange(first + 1, n as int);
    proof {
        lemma_split_at_char(s@, c, first as int);
    }
    let second = find_char(s, first + 1, c);
    if second < n {
        proof {
            lemma_split_at_char(rest, c, second - first - 1);
        }
        return None;
    }
    proof {
        lemma_split_without_char(rest, c);
    }
    Some(first)
}

/// White space: the characters with the Unicode property `White_Space`.
pub open spec fn is_whitespace(c: char) -> bool {
    let n = c as u32;
    ||| 0x09 <= n <= 0x0D
    ||| n == 0x20
    ||| n == 0x85
    ||| n == 0xA0
    ||| n == 0x1680
    ||| 0x2000 <= n <= 0x200A
    ||| n == 0x2028
    ||| n == 0x2029
    ||| n == 0x202F
    ||| n == 0x205F
    ||| n == 0x3000
}

/// Whether `c` is white space.
pub fn char_is_whitespace(c: char) -> (yes: bool)
    ensures
        yes == is_whitespace(c),
{
    let n: u32 = c as u32;
    (0x09 <= n && n <= 0x0D) || n == 0x20 || n == 0x85 || n == 0xA0 || n == 0x1680 || (0x2000 <= n
        && n <= 0x200A) || n == 0x2028 || n == 0x2029 || n == 0x202F || n == 0x205F || n == 0x3000
}

/// `s` without the white space at its start.
pub open spec fn trim_start(s: Seq<char>) -> Seq<char>
    decreases s.len(),
{
    if s.len() > 0 && is_whitespace(s[0]) {
        trim_start(s.drop_first())
    } else {
        s
    }
}

/// `s` without the white space at its end.
pub open spec fn trim_end(s: Seq<char>) -> Seq<char>
    decreases s.len(),
{
    if s.len() > 0 && is_whitespace(s.last()) {
        trim_end(s.drop_last())
    } else {
        s
    }
}

/// `s` without the white space at its start and at its end.
pub open spec fn trim(s: Seq<char>) -> Seq<char> {
    trim_end(trim_start(s))
}

/// The part of `s` that is left when the white space at both ends is taken
/// away.
pub fn trimmed<'a>(s: &'a [char]) -> (t: &'a [char])
    ensures
        t@ == trim(s@),
{
    let n = s.len();
    let mut a: usize = 0;
    assert(s@.subrange(0, n as int) =~= s@);
    while a < n && char_is_whitespace(s[a])
        invariant
            a <= n == s.len(),
            trim_start(s@) == trim_start(s@.subrange(a as int, n as int)),
        decreases n - a,
    {
        assert(s@.subrange(a as int, n as int).drop_first() =~= s@.subrange(a + 1, n as int));
        a += 1;
    }
    let mut b: usize = n;
    while b > a && char_is_whitespace(s[b - 1])
        invariant
            a <= b <= n == s.len(),
            trim_end(s@.subrange(a as int, n as int)) == trim_end(s@.subrange(a as int, b as int)),
        decreases b,
    {
        assert(s@.subrange(a as int, b as int).drop_last() =~= s@.subrange(a as int, b - 1));
        b -= 1;
    }
    slice_subrange(s, a, b)
}

} // verus!
