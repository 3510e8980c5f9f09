//! The contents of a subtitle file: split into lines on the line feed, each
//! line transformed, and the lines joined again.

use vstd::prelude::*;
use vstd::slice::slice_subrange;
use crate::cue::{
    is_timing_line, lemma_skewed_line_stays_one_line, push_skewed_line, skew_line_spec,
};
use crate::error::{text_of, SkewError};
use crate::text::{
    find_char, free_of, from_chars, join_with, lemma_join_split, lemma_split_at_char,
    lemma_split_join, lemma_split_nonempty, lemma_split_pieces_free, lemma_split_without_char,
    split_on, to_chars,
};

verus! {

/// The lines of a text: its pieces between the line feeds. A text that ends
/// in a line feed has an empty last line.
pub open spec fn lines_of(contents: Seq<char>) -> Seq<Seq<char>> {
    split_on(contents, seq!['\n'])
}

/// How many lines a text has.
pub open spec fn line_count(contents: Seq<char>) -> nat {
    lines_of(contents).len()
}

/// What transforming the lines one after the other gives: the transformed
/// lines in the same order, or the error of the first line that fails.
pub open spec fn skew_lines_spec(lines: Seq<Seq<char>>, skew: int) -> Result<
    Seq<Seq<char>>,
    SkewError,
>
    decreases lines.len(),
{
    if lines.len() == 0 {
        Ok(Seq::empty())
    } else {
        match skew_lines_spec(lines.drop_last(), skew) {
            Err(e) => Err(e),
            Ok(done) => match skew_line_spec(lines.last(), skew) {
                Err(e) => Err(e),
                Ok(line) => Ok(done.push(line)),
            },
        }
    }
}

/// What shifting a whole text gives: its lines, each transformed, joined
/// with line feeds; or the error of the first line that fails.
pub open spec fn skew_contents_spec(contents: Seq<char>, skew: int) -> Result<
    Seq<char>,
    SkewError,
> {
    match skew_lines_spec(lines_of(contents), skew) {
        Ok(lines) => Ok(join_with(lines, seq!['\n'])),
        Err(e) => Err(e),
    }
}

/// Once a line has failed, the lines behind it do not matter.
pub proof fn lemma_first_error_stands(
    lines: Seq<Seq<char>>,
    more: Seq<Seq<char>>,
    skew: int,
)
    requires
        skew_lines_spec(lines, skew) is Err,
    ensures
        skew_lines_spec(lines + more, skew) == skew_lines_spec(lines, skew),
    decreases more.len(),
{
    if more.len() > 0 {
        assert((lines + more).drop_last() =~= lines + more.drop_last());
        lemma_first_error_stands(lines, more.drop_last(), skew);
    }
}

/// Where all lines are transformed, there are as many as before, and each
/// is what transforming its counterpart gives.
pub proof fn lemma_skew_lines_each(lines: Seq<Seq<char>>, skew: int)
    requires
        skew_lines_spec(lines, skew) is Ok,
    ensures
        skew_lines_spec(lines, skew)->Ok_0.len() == lines.len(),
        forall|i: int|
            0 <= i < lines.len() ==> skew_line_spec(#[trigger] lines[i], skew) == Ok::<
                Seq<char>,
                SkewError,
            >(skew_lines_spec(lines, skew)->Ok_0[i]),
    decreases lines.len(),
{
    if lines.len() > 0 {
        lemma_skew_lines_each(lines.drop_last(), skew);
        let done = skew_lines_spec(lines, skew)->Ok_0;
        assert forall|i: int| 0 <= i < lines.len() implies skew_line_spec(
            #[trigger] lines[i],
            skew,
        ) == Ok::<Seq<char>, SkewError>(done[i]) by {
            if i < lines.len() - 1 {
                assert(lines[i] == lines.drop_last()[i]);
            }
        }
    }
}

/// Line preservation: the shifted text has as many lines as the text had,
/// each is what transforming its counterpart gives, and so each line
/// without the arrow is the same as before.
pub proof fn lemma_lines_preserved(contents: Seq<char>, skew: int)
    requires
        skew_contents_spec(contents, skew) is Ok,
    ensures
        line_count(skew_contents_spec(contents, skew)->Ok_0) == line_count(contents),
        forall|i: int|
            0 <= i < line_count(contents) ==> skew_line_spec(
                #[trigger] lines_of(contents)[i],
                skew,
            ) == Ok::<Seq<char>, SkewError>(
                lines_of(skew_contents_spec(contents, skew)->Ok_0)[i],
            ),
        forall|i: int|
            0 <= i < line_count(contents) && !is_timing_line(#[trigger] lines_of(contents)[i])
                ==> lines_of(skew_contents_spec(contents, skew)->Ok_0)[i] == lines_of(
                contents,
            )[i],
{
    reveal(skew_line_spec);
    let lines = lines_of(contents);
    let done = skew_lines_spec(lines, skew)->Ok_0;
    lemma_split_nonempty(contents, seq!['\n']);
    lemma_split_pieces_free(contents, '\n');
    lemma_skew_lines_each(lines, skew);
    assert forall|k: int| 0 <= k < done.len() implies free_of(#[trigger] done[k], '\n') by {
        lemma_skewed_line_stays_one_line(lines[k], skew);
    }
    lemma_split_join(done, '\n');
}

/// Lines of which none is a timing line are all left as they are.
pub proof fn lemma_plain_lines_unchanged(lines: Seq<Seq<char>>, skew: int)
    requires
        forall|i: int| 0 <= i < lines.len() ==> !is_timing_line(#[trigger] lines[i]),
    ensures
        skew_lines_spec(lines, skew) == Ok::<Seq<Seq<char>>, SkewError>(lines),
    decreases lines.len(),
{
    reveal(skew_line_spec);
    if lines.len() > 0 {
        let front = lines.drop_last();
        assert forall|i: int| 0 <= i < front.len() implies !is_timing_line(#[trigger] front[i]) by {
            assert(front[i] == lines[i]);
        }
        lemma_plain_lines_unchanged(front, skew);
        assert(!is_timing_line(lines[lines.len() - 1]));
        assert(front.push(lines.last()) =~= lines);
    } else {
        assert(lines =~= Seq::<Seq<char>>::empty());
    }
}

/// A text without a timing line is returned as it is, whatever the shift.
pub proof fn lemma_plain_text_unchanged(contents: Seq<char>, skew: int)
    requires
        forall|i: int|
            0 <= i < line_count(contents) ==> !is_timing_line(#[trigger] lines_of(contents)[i]),
    ensures
        skew_contents_spec(contents, skew) == Ok::<Seq<char>, SkewError>(contents),
{
    lemma_plain_lines_unchanged(lines_of(contents), skew);
    lemma_join_split(contents, '\n');
}

/// The lines of `text` behind the line that ends at `end`: none if that
/// line reaches the end of the text.
pub open spec fn lines_behind(text: Seq<char>, end: int) -> Seq<Seq<char>> {
    if end >= text.len() {
        Seq::empty()
    } else {
        lines_of(text.subrange(end + 1, text.len() as int))
    }
}

/// Where the line that starts at `from` ends: at the next line feed, or at
/// the end of the text.
fn line_end(text: &[char], from: usize) -> (end: usize)
    requires
        from <= text.len(),
    ensures
        from <= end <= text.len(),
        lines_of(text@.subrange(from as int, text.len() as int)) == seq![
            text@.subrange(from as int, end as int),
        ] + lines_behind(text@, end as int),
{
    let end = find_char(text, from, '\n');
    proof {
        let n = text.len() as int;
        let tail = text@.subrange(from as int, n);
        if end == n {
            lemma_split_without_char(tail, '\n');
        } else {
            lemma_split_at_char(tail, '\n', end - from);
            assert(tail.subrange(0, end - from) =~= text@.subrange(from as int, end as int));
            assert(tail.subrange(end - from + 1, tail.len() as int) =~= text@.subrange(
                end + 1,
                n,
            ));
        }
    }
    end
}

/// Transforming one line more: the lines before it decide first, then the
/// line itself.
proof fn lemma_skew_lines_push(lines: Seq<Seq<char>>, line: Seq<char>, skew: int)
    ensures
        skew_lines_spec(lines.push(line), skew) == match skew_lines_spec(lines, skew) {
            Err(e) => Err(e),
            Ok(done) => match skew_line_spec(line, skew) {
                Err(e) => Err(e),
                Ok(new_line) => Ok(done.push(new_line)),
            },
        },
{
    assert(lines.push(line).drop_last() =~= lines);
}

/// Joining one piece more: the separator and the piece are added, or the
/// piece alone where it is the first.
proof fn lemma_join_push(pieces: Seq<Seq<char>>, piece: Seq<char>, sep: Seq<char>)
    ensures
        join_with(pieces.push(piece), sep) == if pieces.len() == 0 {
            piece
        } else {
            join_with(pieces, sep) + sep + piece
        },
{
    assert(pieces.push(piece).drop_last() =~= pieces);
}

/// Shifts every timestamp of a subtitle text by `millis` milliseconds. The
/// text is split on the line feed, each line is transformed, and the lines
/// are joined with line feeds; nothing is added at the end. The first line
/// that fails gives the error. The result has as many lines as the text,
/// and each line without the arrow is the same as before.
pub fn skew_file_contents(contents: String, millis: i64) -> (r: Result<String, SkewError>)
    ensures
        text_of(r) == skew_contents_spec(contents@, millis as int),
        r matches Ok(out) ==> line_count(out@) == line_count(contents@),
        r matches Ok(out) ==> forall|i: int|
            0 <= i < line_count(contents@) && !is_timing_line(#[trigger] lines_of(contents@)[i])
                ==> lines_of(out@)[i] == lines_of(contents@)[i],
{
    proof {
        if skew_contents_spec(contents@, millis as int) is Ok {
            lemma_lines_preserved(contents@, millis as int);
        }
    }
    let chars = to_chars(contents.as_str());
    let text = chars.as_slice();
    let n = text.len();
    let mut out: Vec<char> = Vec::new();
    let mut from: usize = 0;
    let mut finished = false;
    let ghost mut lines: Seq<Seq<char>> = Seq::empty();
    let ghost mut done: Seq<Seq<char>> = Seq::empty();
    let ghost mut pending: Seq<Seq<char>> = lines_of(text@);
    assert(text@.subrange(0, n as int) =~= text@);
    while !finished
        invariant
            n == text.len(),
            text@ == contents@,
            from <= n,
            lines_of(text@) == lines + pending,
            pending == if finished {
                Seq::<Seq<char>>::empty()
            } else {
                lines_of(text@.subrange(from as int, n as int))
            },
            skew_lines_spec(lines, millis as int) == Ok::<Seq<Seq<char>>, SkewError>(done),
            done.len() == lines.len(),
            out@ == if finished || done.len() == 0 {
                join_with(done, seq!['\n'])
            } else {
                join_with(done, seq!['\n']) + seq!['\n']
            },
        decreases
                if finished {
                    0
                } else {
                    n - from + 1
                },
    {
        let end = line_end(text, from);
        let line = slice_subrange(text, from, end);
        let ghost behind = lines_behind(text@, end as int);
        proof {
            lemma_skew_lines_push(lines, line@, millis as int);
            assert(lines + (seq![line@] + behind) =~= lines.push(line@) + behind);
        }
        match push_skewed_line(&mut out, line, millis) {
            Err(e) => {
                proof {
                    lemma_first_error_stands(lines.push(line@), behind, millis as int);
                }
                return Err(e);
            },
            Ok(_) => {},
        }
        proof {
            let new_line = skew_line_spec(line@, millis as int)->Ok_0;
            lemma_join_push(done, new_line, seq!['\n']);
            lines = lines.push(line@);
            done = done.push(new_line);
            pending = behind;
        }
        if end == n {
            finished = true;
        } else {
            out.push('\n');
            from = end + 1;
        }
    }
    Ok(from_chars(out.as_slice()))
}

} // verus!
