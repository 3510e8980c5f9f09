//! The cue-line transformer: a line that holds the arrow `-->` has its two
//! timestamps shifted and is written anew; any other line stays as it is.

use vstd::prelude::*;
use vstd::slice::slice_subrange;
use crate::duration::{
    format_spec, is_canonical, is_formatted, lemma_canonical_chars, lemma_format_is_canonical,
    lemma_parse_format, lemma_skew_by_zero, lemma_trim_canonical, parse_chars, parse_spec,
    push_timestamp, shifted, skew_spec,
};
use crate::error::{text_of, SkewError};
use crate::text::{
    free_of, from_chars, is_first_occurrence, lemma_occurs_at_tail, lemma_split_step,
    lemma_split_with, lemma_split_without, occurs_at, occurs_in, push_all, split_on, to_chars,
    trim, trim_end, trim_start, trimmed,
};

verus! {

/// The arrow that stands between the two timestamps of a timing line.
pub open spec fn arrow() -> Seq<char> {
    seq!['-', '-', '>']
}

/// A timing line is a line in which the arrow stands.
pub open spec fn is_timing_line(line: Seq<char>) -> bool {
    occurs_in(line, arrow())
}

/// The start and end tokens of a timing line: the last two of the fields
/// that the arrows delimit, without the white space around them. An empty
/// field counts: behind an arrow at the end of the line stands an empty end
/// token.
pub open spec fn timing_tokens(line: Seq<char>) -> (Seq<char>, Seq<char>) {
    let fields = split_on(line, arrow());
    (trim(fields[fields.len() - 2]), trim(fields[fields.len() - 1]))
}

/// A timing line in its written form: `START --> END`.
pub open spec fn timing_line(start: Seq<char>, end: Seq<char>) -> Seq<char> {
    start + seq![' ', '-', '-', '>', ' '] + end
}

/// What transforming a line gives. A line without the arrow is returned
/// unchanged. A timing line fails with `MalformedTimestamp` if one of its
/// two tokens does not parse, else with `NegativeResult` if one of them
/// would move before zero, and else is written anew from the two shifted
/// timestamps.
#[verifier::opaque]
pub open spec fn skew_line_spec(line: Seq<char>, skew: int) -> Result<Seq<char>, SkewError> {
    if !is_timing_line(line) {
        Ok(line)
    } else {
        let (start, end) = timing_tokens(line);
        if parse_spec(start) is Err || parse_spec(end) is Err {
            Err(SkewError::MalformedTimestamp)
        } else {
            match (skew_spec(start, skew), skew_spec(end, skew)) {
                (Ok(new_start), Ok(new_end)) => Ok(timing_line(new_start, new_end)),
                _ => Err(SkewError::NegativeResult),
            }
        }
    }
}

/// A timing line has a field before its last arrow and a field behind it.
pub proof fn lemma_timing_line_fields(line: Seq<char>)
    requires
        is_timing_line(line),
    ensures
        split_on(line, arrow()).len() >= 2,
{
    lemma_split_with(line, arrow());
}

/// A line without a line feed has none after it is transformed.
pub proof fn lemma_skewed_line_stays_one_line(line: Seq<char>, skew: int)
    requires
        free_of(line, '\n'),
        skew_line_spec(line, skew) is Ok,
    ensures
        free_of(skew_line_spec(line, skew)->Ok_0, '\n'),
{
    reveal(skew_line_spec);
    if is_timing_line(line) {
        let (start, end) = timing_tokens(line);
        let a = (parse_spec(start)->Ok_0 + skew) as nat;
        let b = (parse_spec(end)->Ok_0 + skew) as nat;
        lemma_format_is_canonical(a);
        lemma_format_is_canonical(b);
        lemma_canonical_chars(format_spec(a));
        lemma_canonical_chars(format_spec(b));
    }
}

/// A timing line written from two timestamps in canonical form reads back
/// as these two.
pub proof fn lemma_timing_line_tokens(start: Seq<char>, end: Seq<char>)
    requires
        is_canonical(start),
        is_canonical(end),
    ensures
        is_timing_line(timing_line(start, end)),
        timing_tokens(timing_line(start, end)) == (start, end),
{
    let line = timing_line(start, end);
    let at = start.len() as int + 1;
    let head = start.push(' ');
    let rest = seq![' '] + end;
    lemma_canonical_chars(start);
    lemma_canonical_chars(end);
    assert(line.subrange(at, at + 3) =~= arrow());
    assert forall|j: int| 0 <= j < at implies !occurs_at(line, arrow(), j) by {
        if occurs_at(line, arrow(), j) {
            assert(line.subrange(j, j + 3)[0] == '-');
        }
    }
    assert(is_first_occurrence(line, arrow(), at));
    lemma_split_step(line, arrow(), at);
    assert(line.subrange(0, at) =~= head);
    assert(line.subrange(at + 3, line.len() as int) =~= rest);
    assert forall|j: int| !occurs_at(rest, arrow(), j) by {
        if occurs_at(rest, arrow(), j) {
            assert(rest.subrange(j, j + 3)[0] == '-');
        }
    }
    lemma_split_without(rest, arrow());
    lemma_trim_canonical(start);
    lemma_trim_canonical(end);
    assert(head.drop_last() =~= start);
    assert(rest.drop_first() =~= end);
}

/// Identity: a timing line made of two timestamps as formatting writes them
/// is left as it is by a shift by zero, provided they parse.
pub proof fn lemma_skew_line_by_zero(start: Seq<char>, end: Seq<char>)
    requires
        is_formatted(start),
        is_formatted(end),
        parse_spec(start) is Ok,
        parse_spec(end) is Ok,
    ensures
        skew_line_spec(timing_line(start, end), 0) == Ok::<Seq<char>, SkewError>(
            timing_line(start, end),
        ),
{
    reveal(skew_line_spec);
    lemma_timing_line_tokens(start, end);
    lemma_skew_by_zero(start);
    lemma_skew_by_zero(end);
}

/// Additivity: transforming a line twice gives what transforming it once
/// with the sum of the shifts gives, as long as both succeed and the
/// timestamps between them are not beyond what parses.
pub proof fn lemma_skew_line_additive(line: Seq<char>, a: int, b: int)
    requires
        skew_line_spec(line, a) is Ok,
        skew_line_spec(line, a + b) is Ok,
        is_timing_line(line) ==> parse_spec(timing_tokens(line).0)->Ok_0 + a <= i64::MAX
            && parse_spec(timing_tokens(line).1)->Ok_0 + a <= i64::MAX,
    ensures
        skew_line_spec(skew_line_spec(line, a)->Ok_0, b) == skew_line_spec(line, a + b),
{
    reveal(skew_line_spec);
    if is_timing_line(line) {
        let (start, end) = timing_tokens(line);
        let s1 = (parse_spec(start)->Ok_0 + a) as nat;
        let e1 = (parse_spec(end)->Ok_0 + a) as nat;
        lemma_format_is_canonical(s1);
        lemma_format_is_canonical(e1);
        lemma_parse_format(s1);
        lemma_parse_format(e1);
        lemma_timing_line_tokens(format_spec(s1), format_spec(e1));
    }
}

/// The last two arrow-delimited fields of a line, if the arrow stands in it.
fn last_two_fields<'a>(line: &'a [char]) -> (r: Option<(&'a [char], &'a [char])>)
    ensures
        match r {
            None => !is_timing_line(line@),
            Some((start, end)) => {
                let fields = split_on(line@, arrow());
                &&& is_timing_line(line@)
                &&& fields.len() >= 2
                &&& start@ == fields[fields.len() - 2]
                &&& end@ == fields[fields.len() - 1]
            },
        },
{
    let n = line.len();
    let mut from: usize = 0;
    let mut before: usize = 0;
    let mut found: bool = false;
    let mut i: usize = 0;
    let ghost mut done: Seq<Seq<char>> = Seq::empty();
    assert(line@.subrange(0, n as int) =~= line@);
    while n - i >= 3
        invariant
            n == line.len(),
            before <= from <= i <= n,
            split_on(line@, arrow()) == done + split_on(
                line@.subrange(from as int, n as int),
                arrow(),
            ),
            forall|j: int| from <= j < i ==> !occurs_at(line@, arrow(), j),
            found <==> done.len() > 0,
            found ==> before + 3 <= from && done.last() == line@.subrange(
                before as int,
                from - 3,
            ) && occurs_at(line@, arrow(), from - 3),
            !found ==> from == 0,
        decreases n - i,
    {
        if line[i] == '-' && line[i + 1] == '-' && line[i + 2] == '>' {
            proof {
                let tail = line@.subrange(from as int, n as int);
                assert(line@.subrange(i as int, i + 3) =~= arrow());
                assert forall|j: int| 0 <= j < i - from implies !occurs_at(tail, arrow(), j) by {
                    lemma_occurs_at_tail(line@, arrow(), from as int, j);
                }
                lemma_occurs_at_tail(line@, arrow(), from as int, i - from);
                lemma_split_step(tail, arrow(), i - from);
                let piece = line@.subrange(from as int, i as int);
                let rest = line@.subrange(i + 3, n as int);
                assert(tail.subrange(0, i - from) =~= piece);
                assert(tail.subrange(i - from + 3, tail.len() as int) =~= rest);
                done = done.push(piece);
            }
            before = from;
            from = i + 3;
            i = i + 3;
            found = true;
        } else {
            proof {
                if occurs_at(line@, arrow(), i as int) {
                    let here = line@.subrange(i as int, i + 3);
                    assert(here[0] == '-' && here[1] == '-' && here[2] == '>');
                }
            }
            i += 1;
        }
    }
    proof {
        let tail = line@.subrange(from as int, n as int);
        assert forall|j: int| !occurs_at(tail, arrow(), j) by {
            if 0 <= j {
                lemma_occurs_at_tail(line@, arrow(), from as int, j);
            }
        }
        lemma_split_without(tail, arrow());
    }
    if found {
        Some((slice_subrange(line, before, from - 3), slice_subrange(line, from, n)))
    } else {
        None
    }
}

/// Appends to `out` what transforming `line` gives; on failure `out` is left
/// as it was.
pub fn push_skewed_line(out: &mut Vec<char>, line: &[char], skew: i64) -> (r: Result<
    (),
    SkewError,
>)
    ensures
        match r {
            Ok(_) => skew_line_spec(line@, skew as int) is Ok && final(out)@ == old(out)@
                + skew_line_spec(line@, skew as int)->Ok_0,
            Err(e) => skew_line_spec(line@, skew as int) == Err::<Seq<char>, SkewError>(e)
                && final(out)@ == old(out)@,
        },
{
    proof {
        reveal(skew_line_spec);
    }
    match last_two_fields(line) {
        None => {
            push_all(out, line);
            Ok(())
        },
        Some((start, end)) => {
            let start_millis = parse_chars(trimmed(start));
            let end_millis = parse_chars(trimmed(end));
            match (start_millis, end_millis) {
                (Ok(a), Ok(b)) => match (shifted(a, skew), shifted(b, skew)) {
                    (Ok(new_start), Ok(new_end)) => {
                        push_timestamp(out, new_start);
                        out.push(' ');
                        out.push('-');
                        out.push('-');
                        out.push('>');
                        out.push(' ');
                        push_timestamp(out, new_end);
                        Ok(())
                    },
                    _ => Err(SkewError::NegativeResult),
                },
                _ => Err(SkewError::MalformedTimestamp),
            }
        },
    }
}

/// Transforms one line of a subtitle text. A line without the arrow `-->`
/// comes back unchanged. In a timing line the last two arrow-delimited
/// fields are trimmed, shifted by `skew` milliseconds and written back as
/// `START --> END`.
pub fn skew_line(line: &str, skew: i64) -> (r: Result<String, SkewError>)
    ensures
        text_of(r) == skew_line_spec(line@, skew as int),
        !is_timing_line(line@) ==> text_of(r) == Ok::<Seq<char>, SkewError>(line@),
{
    proof {
        reveal(skew_line_spec);
    }
    let chars = to_chars(line);
    let mut out: Vec<char> = Vec::new();
    match push_skewed_line(&mut out, chars.as_slice(), skew) {
        Ok(_) => {
            Ok(from_chars(out.as_slice()))
        },
        Err(e) => Err(e),
    }
}

} // verus!
