//! The duration codec: timestamps of the form `HH:MM:SS,mmm`, the
//! milliseconds that they denote, and the shift of a timestamp by a signed
//! number of milliseconds.

use vstd::prelude::*;
use vstd::slice::slice_subrange;
use crate::decimal::{
    all_digits, decimal_value, is_digit, is_number, lemma_digit_value_char,
    lemma_digits_of_value, lemma_digits_shape, lemma_padded_of_value, lemma_short_numbers,
    lemma_zero_padded, number_value, parse_number, push_padded, unsigned_part, zero_padded,
};
use crate::error::{text_of, SkewError};
use crate::text::{
    find_char, from_chars, lemma_split_at_char, lemma_split_concat, lemma_split_without_char,
    split_in_two, split_on, to_chars, trim, trim_end, trim_start,
};

verus! {

/// The four fields of a timestamp: the token split on `:` gives exactly
/// three pieces, and the third split on `,` gives exactly two.
pub open spec fn timestamp_fields(token: Seq<char>) -> Option<
    (Seq<char>, Seq<char>, Seq<char>, Seq<char>),
> {
    let parts = split_on(token, seq![':']);
    if parts.len() == 3 {
        let tail = split_on(parts[2], seq![',']);
        if tail.len() == 2 {
            Some((parts[0], parts[1], tail[0], tail[1]))
        } else {
            None
        }
    } else {
        None
    }
}

/// The milliseconds in the given hours, minutes, seconds and milliseconds.
pub open spec fn millis_of(hours: nat, minutes: nat, seconds: nat, millis: nat) -> nat {
    ((hours * 60 + minutes) * 60 + seconds) * 1000 + millis
}

/// The milliseconds that a token denotes, if it is a timestamp: four numbers
/// with `:`, `:` and `,` between them. The fields may have any number of
/// digits and any value.
#[verifier::opaque]
pub open spec fn token_millis(token: Seq<char>) -> Option<nat> {
    match timestamp_fields(token) {
        Some((h, m, s, ms)) => if is_number(h) && is_number(m) && is_number(s) && is_number(ms) {
            Some(millis_of(number_value(h), number_value(m), number_value(s), number_value(ms)))
        } else {
            None
        },
        None => None,
    }
}

/// What parsing a token gives: the milliseconds of a timestamp that fit in
/// an `i64`, and `MalformedTimestamp` for every other token.
pub open spec fn parse_spec(token: Seq<char>) -> Result<i64, SkewError> {
    match token_millis(token) {
        Some(t) => if t <= i64::MAX {
            Ok(t as i64)
        } else {
            Err(SkewError::MalformedTimestamp)
        },
        None => Err(SkewError::MalformedTimestamp),
    }
}

/// The canonical timestamp of `t` milliseconds: hours, minutes and seconds
/// with at least two digits, milliseconds with three.
#[verifier::opaque]
pub open spec fn format_spec(t: nat) -> Seq<char> {
    let millis = t % 1000;
    let total_seconds = t / 1000;
    let seconds = total_seconds % 60;
    let total_minutes = total_seconds / 60;
    let minutes = total_minutes % 60;
    let hours = total_minutes / 60;
    zero_padded(hours, 2) + seq![':'] + zero_padded(minutes, 2) + seq![':'] + zero_padded(
        seconds,
        2,
    ) + seq![','] + zero_padded(millis, 3)
}

/// What shifting a token gives: the canonical timestamp of the token's
/// milliseconds plus `skew`; `MalformedTimestamp` where the token does not
/// parse, `NegativeResult` where the sum is below zero.
pub open spec fn skew_spec(token: Seq<char>, skew: int) -> Result<Seq<char>, SkewError> {
    match parse_spec(token) {
        Ok(t) => if t + skew < 0 {
            Err(SkewError::NegativeResult)
        } else {
            Ok(format_spec((t + skew) as nat))
        },
        Err(e) => Err(e),
    }
}

/// The canonical form: two or more digits, `:`, two digits, `:`, two digits,
/// `,`, three digits, with minutes and seconds below sixty.
pub open spec fn is_canonical(token: Seq<char>) -> bool {
    let n = token.len() as int;
    &&& n >= 12
    &&& all_digits(token.subrange(0, n - 10))
    &&& token[n - 10] == ':'
    &&& all_digits(token.subrange(n - 9, n - 7))
    &&& token[n - 7] == ':'
    &&& all_digits(token.subrange(n - 6, n - 4))
    &&& token[n - 4] == ','
    &&& all_digits(token.subrange(n - 3, n))
    &&& decimal_value(token.subrange(n - 9, n - 7)) <= 59
    &&& decimal_value(token.subrange(n - 6, n - 4)) <= 59
}

/// A timestamp as formatting writes it: in canonical form, and with no zero
/// in front of hours that have more than two digits.
pub open spec fn is_formatted(token: Seq<char>) -> bool {
    &&& is_canonical(token)
    &&& token.len() > 12 ==> token[0] != '0'
}

/// The text of a timestamp with the given fields.
pub open spec fn timestamp_of(h: Seq<char>, m: Seq<char>, s: Seq<char>, ms: Seq<char>) -> Seq<
    char,
> {
    h + seq![':'] + m + seq![':'] + s + seq![','] + ms
}

/// A run of digits is a number, with the value of its digits, and holds
/// neither `:` nor `,`.
proof fn lemma_digits_are_number(field: Seq<char>)
    requires
        field.len() >= 1,
        all_digits(field),
    ensures
        is_number(field),
        number_value(field) == decimal_value(field),
        forall|j: int| 0 <= j < field.len() ==> field[j] != ':',
        forall|j: int| 0 <= j < field.len() ==> field[j] != ',',
{
    assert forall|j: int| 0 <= j < field.len() implies field[j] != ':' && field[j] != ',' by {
        assert(is_digit(field[j]));
    }
}

/// Four runs of digits with `:`, `:` and `,` between them split into these
/// four fields.
proof fn lemma_fields_of_timestamp(h: Seq<char>, m: Seq<char>, s: Seq<char>, ms: Seq<char>)
    requires
        h.len() >= 1 && all_digits(h),
        m.len() >= 1 && all_digits(m),
        s.len() >= 1 && all_digits(s),
        ms.len() >= 1 && all_digits(ms),
    ensures
        timestamp_fields(timestamp_of(h, m, s, ms)) == Some((h, m, s, ms)),
        token_millis(timestamp_of(h, m, s, ms)) == Some(
            millis_of(decimal_value(h), decimal_value(m), decimal_value(s), decimal_value(ms)),
        ),
{
    reveal(token_millis);
    lemma_digits_are_number(h);
    lemma_digits_are_number(m);
    lemma_digits_are_number(s);
    lemma_digits_are_number(ms);
    let whole = timestamp_of(h, m, s, ms);
    let tail = s + seq![','] + ms;
    let rest = m + seq![':'] + tail;
    assert(whole =~= h + seq![':'] + rest);
    lemma_split_concat(h, ':', rest);
    lemma_split_concat(m, ':', tail);
    lemma_split_without_char(h, ':');
    lemma_split_without_char(m, ':');
    lemma_split_without_char(tail, ':');
    lemma_split_concat(s, ',', ms);
    lemma_split_without_char(s, ',');
    lemma_split_without_char(ms, ',');
    assert(split_on(tail, seq![',']) =~= seq![s, ms]);
}

/// The four fields that formatting writes, and what is known of them.
proof fn lemma_format_fields(t: nat) -> (f: (Seq<char>, Seq<char>, Seq<char>, Seq<char>))
    ensures
        format_spec(t) == timestamp_of(f.0, f.1, f.2, f.3),
        f.0.len() >= 2 && all_digits(f.0) && decimal_value(f.0) == t / 3_600_000,
        f.0.len() > 2 ==> f.0[0] != '0',
        f.1.len() == 2 && all_digits(f.1) && decimal_value(f.1) == t / 60_000 % 60,
        f.2.len() == 2 && all_digits(f.2) && decimal_value(f.2) == t / 1000 % 60,
        f.3.len() == 3 && all_digits(f.3) && decimal_value(f.3) == t % 1000,
{
    reveal(format_spec);
    let millis = t % 1000;
    let total_seconds = t / 1000;
    let seconds = total_seconds % 60;
    let total_minutes = total_seconds / 60;
    let minutes = total_minutes % 60;
    let hours = total_minutes / 60;
    lemma_zero_padded(hours, 2);
    lemma_zero_padded(minutes, 2);
    lemma_zero_padded(seconds, 2);
    lemma_zero_padded(millis, 3);
    lemma_short_numbers(minutes);
    lemma_short_numbers(seconds);
    lemma_short_numbers(millis);
    lemma_digits_shape(hours);
    (zero_padded(hours, 2), zero_padded(minutes, 2), zero_padded(seconds, 2), zero_padded(millis, 3))
}

/// Formatting always writes the canonical form, without needless zeros.
pub proof fn lemma_format_is_canonical(t: nat)
    ensures
        is_canonical(format_spec(t)),
        is_formatted(format_spec(t)),
{
    let (h, m, s, ms) = lemma_format_fields(t);
    let token = format_spec(t);
    let n = token.len() as int;
    assert(token.subrange(0, n - 10) =~= h);
    assert(token.subrange(n - 9, n - 7) =~= m);
    assert(token.subrange(n - 6, n - 4) =~= s);
    assert(token.subrange(n - 3, n) =~= ms);
}

/// A timestamp in canonical form is made of digits, `:` and `,`.
pub proof fn lemma_canonical_chars(token: Seq<char>)
    requires
        is_canonical(token),
    ensures
        forall|j: int|
            0 <= j < token.len() ==> is_digit(token[j]) || token[j] == ':' || token[j] == ',',
{
    let n = token.len() as int;
    assert forall|j: int| 0 <= j < n implies is_digit(token[j]) || token[j] == ':' || token[j]
        == ',' by {
        if j < n - 10 {
            assert(token[j] == token.subrange(0, n - 10)[j]);
        } else if n - 9 <= j < n - 7 {
            assert(token[j] == token.subrange(n - 9, n - 7)[j - (n - 9)]);
        } else if n - 6 <= j < n - 4 {
            assert(token[j] == token.subrange(n - 6, n - 4)[j - (n - 6)]);
        } else if n - 3 <= j {
            assert(token[j] == token.subrange(n - 3, n)[j - (n - 3)]);
        }
    }
}

/// The hours, minutes, seconds and milliseconds found in `t` by division
/// add up to `t`.
proof fn lemma_parts_sum(t: nat)
    ensures
        millis_of(t / 3_600_000, t / 60_000 % 60, t / 1000 % 60, t % 1000) == t,
{
    let seconds = t / 1000;
    let minutes = seconds / 60;
    assert(t == seconds * 1000 + t % 1000);
    assert(seconds == minutes * 60 + seconds % 60);
    assert(minutes == t / 60_000 && minutes / 60 == t / 3_600_000);
}

/// Round trip: a formatted number of milliseconds parses back to itself.
pub proof fn lemma_parse_format(t: nat)
    ensures
        token_millis(format_spec(t)) == Some(t),
        t <= i64::MAX ==> parse_spec(format_spec(t)) == Ok::<i64, SkewError>(t as i64),
{
    let (h, m, s, ms) = lemma_format_fields(t);
    lemma_fields_of_timestamp(h, m, s, ms);
    lemma_parts_sum(t);
}

/// A run of three digits denotes less than a thousand.
proof fn lemma_three_digits(field: Seq<char>)
    requires
        field.len() == 3,
        all_digits(field),
    ensures
        decimal_value(field) <= 999,
{
    reveal_with_fuel(decimal_value, 4);
    lemma_digit_value_char(field[0]);
    lemma_digit_value_char(field[1]);
    lemma_digit_value_char(field[2]);
}

/// The fields of a timestamp in canonical form.
proof fn lemma_canonical_fields(token: Seq<char>) -> (f: (
    Seq<char>,
    Seq<char>,
    Seq<char>,
    Seq<char>,
))
    requires
        is_canonical(token),
    ensures
        token == timestamp_of(f.0, f.1, f.2, f.3),
        f.0.len() >= 2 && all_digits(f.0) && f.0[0] == token[0] && f.0.len() == token.len() - 10,
        f.1.len() == 2 && all_digits(f.1) && decimal_value(f.1) <= 59,
        f.2.len() == 2 && all_digits(f.2) && decimal_value(f.2) <= 59,
        f.3.len() == 3 && all_digits(f.3) && decimal_value(f.3) <= 999,
{
    let n = token.len() as int;
    let h = token.subrange(0, n - 10);
    let m = token.subrange(n - 9, n - 7);
    let s = token.subrange(n - 6, n - 4);
    let ms = token.subrange(n - 3, n);
    lemma_three_digits(ms);
    (h, m, s, ms)
}

/// Hours, minutes below sixty, seconds below sixty and milliseconds below a
/// thousand are found again in their sum by division.
proof fn lemma_millis_parts(h: nat, m: nat, s: nat, ms: nat)
    requires
        m < 60,
        s < 60,
        ms < 1000,
    ensures
        millis_of(h, m, s, ms) % 1000 == ms,
        millis_of(h, m, s, ms) / 1000 % 60 == s,
        millis_of(h, m, s, ms) / 1000 / 60 % 60 == m,
        millis_of(h, m, s, ms) / 1000 / 60 / 60 == h,
{
    let minutes = h * 60 + m;
    let seconds = minutes * 60 + s;
    let t = seconds * 1000 + ms;
    assert(t / 1000 == seconds && t % 1000 == ms);
    assert(seconds / 60 == minutes && seconds % 60 == s);
    assert(minutes / 60 == h && minutes % 60 == m);
}

/// A timestamp as formatting writes it denotes milliseconds whose format is
/// that timestamp again.
pub proof fn lemma_format_parse(token: Seq<char>)
    requires
        is_formatted(token),
    ensures
        token_millis(token) is Some,
        format_spec(token_millis(token)->0) == token,
{
    reveal(format_spec);
    let (h, m, s, ms) = lemma_canonical_fields(token);
    lemma_fields_of_timestamp(h, m, s, ms);
    lemma_millis_parts(decimal_value(h), decimal_value(m), decimal_value(s), decimal_value(ms));
    lemma_padded_of_value(m);
    lemma_padded_of_value(s);
    lemma_padded_of_value(ms);
    if h.len() == 2 {
        lemma_padded_of_value(h);
    } else {
        lemma_digits_of_value(h);
    }
}

/// A timestamp in canonical form has no white space to trim.
pub proof fn lemma_trim_canonical(token: Seq<char>)
    requires
        is_canonical(token),
    ensures
        trim(token) == token,
{
    lemma_canonical_chars(token);
}

/// Identity: a timestamp as formatting writes it has nothing to trim, and a
/// shift by zero gives the same timestamp, provided it parses.
pub proof fn lemma_skew_by_zero(token: Seq<char>)
    requires
        is_formatted(token),
        parse_spec(token) is Ok,
    ensures
        trim(token) == token,
        skew_spec(token, 0) == Ok::<Seq<char>, SkewError>(token),
{
    lemma_trim_canonical(token);
    lemma_format_parse(token);
}

/// A shift that does not lead below zero gives a timestamp in canonical
/// form that denotes the token's milliseconds plus the shift.
pub proof fn lemma_skew_value(token: Seq<char>, skew: int)
    requires
        parse_spec(token) is Ok,
        parse_spec(token)->Ok_0 + skew >= 0,
    ensures
        skew_spec(token, skew) is Ok,
        is_formatted(skew_spec(token, skew)->Ok_0),
        token_millis(skew_spec(token, skew)->Ok_0) == Some(
            (parse_spec(token)->Ok_0 + skew) as nat,
        ),
{
    let t = (parse_spec(token)->Ok_0 + skew) as nat;
    lemma_format_is_canonical(t);
    lemma_parse_format(t);
}

/// Additivity: two shifts in a row give what one shift by their sum gives,
/// as long as the timestamp between them is neither negative nor beyond
/// what parses.
pub proof fn lemma_skew_additive(token: Seq<char>, a: int, b: int)
    requires
        parse_spec(token) is Ok,
        0 <= parse_spec(token)->Ok_0 + a <= i64::MAX,
        0 <= parse_spec(token)->Ok_0 + a + b,
    ensures
        skew_spec(token, a) is Ok,
        skew_spec(skew_spec(token, a)->Ok_0, b) == skew_spec(token, a + b),
{
    let t = parse_spec(token)->Ok_0;
    lemma_parse_format((t + a) as nat);
}

/// The four fields of a token, if it splits as a timestamp does.
fn fields_of<'a>(token: &'a [char]) -> (r: Option<(&'a [char], &'a [char], &'a [char], &'a [char])>)
    ensures
        match r {
            Some((h, m, s, ms)) => timestamp_fields(token@) == Some((h@, m@, s@, ms@)),
            None => timestamp_fields(token@) is None,
        },
{
    let n = token.len();
    let c1 = find_char(token, 0, ':');
    if c1 == n {
        proof {
            lemma_split_without_char(token@, ':');
        }
        return None;
    }
    proof {
        lemma_split_at_char(token@, ':', c1 as int);
    }
    let rest = slice_subrange(token, c1 + 1, n);
    match split_in_two(rest, ':') {
        None => None,
        Some(c2) => {
            let tail = slice_subrange(rest, c2 + 1, rest.len());
            match split_in_two(tail, ',') {
                None => None,
                Some(k) => Some(
                    (
                        slice_subrange(token, 0, c1),
                        slice_subrange(rest, 0, c2),
                        slice_subrange(tail, 0, k),
                        slice_subrange(tail, k + 1, tail.len()),
                    ),
                ),
            }
        },
    }
}

/// Parses the characters of a token.
pub fn parse_chars(token: &[char]) -> (r: Result<i64, SkewError>)
    ensures
        r == parse_spec(token@),
{
    proof {
        reveal(token_millis);
    }
    match fields_of(token) {
        None => Err(SkewError::MalformedTimestamp),
        Some((h, m, s, ms)) => {
            let hours = parse_number(h);
            let minutes = parse_number(m);
            let seconds = parse_number(s);
            let millis = parse_number(ms);
            match (hours, minutes, seconds, millis) {
                (Some(h), Some(m), Some(s), Some(ms)) => {
                    let total: u128 = ((h as u128 * 60 + m as u128) * 60 + s as u128) * 1000
                        + ms as u128;
                    if total <= i64::MAX as u128 {
                        Ok(total as i64)
                    } else {
                        Err(SkewError::MalformedTimestamp)
                    }
                },
                _ => Err(SkewError::MalformedTimestamp),
            }
        },
    }
}

/// Parses a timestamp `HH:MM:SS,mmm` into milliseconds. Each field is a
/// number of any length; the token is malformed unless it is made of exactly
/// four of them with `:`, `:` and `,` between, and denotes no more
/// milliseconds than an `i64` holds.
pub fn parse_duration(token: &str) -> (r: Result<i64, SkewError>)
    ensures
        r == parse_spec(token@),
{
    let chars = to_chars(token);
    parse_chars(chars.as_slice())
}

/// Appends the canonical timestamp of `t` milliseconds to `out`.
pub fn push_timestamp(out: &mut Vec<char>, t: u64)
    ensures
        final(out)@ == old(out)@ + format_spec(t as nat),
{
    let millis = t % 1000;
    let total_seconds = t / 1000;
    let seconds = total_seconds % 60;
    let total_minutes = total_seconds / 60;
    let minutes = total_minutes % 60;
    let hours = total_minutes / 60;
    push_padded(out, hours, 2);
    out.push(':');
    push_padded(out, minutes, 2);
    out.push(':');
    push_padded(out, seconds, 2);
    out.push(',');
    push_padded(out, millis, 3);
    proof {
        reveal(format_spec);
    }
}

/// The canonical timestamp `HH:MM:SS,mmm` of `t` milliseconds.
pub fn format_duration(t: u64) -> (text: String)
    ensures
        text@ == format_spec(t as nat),
        is_formatted(text@),
{
    proof {
        lemma_format_is_canonical(t as nat);
    }
    let mut out: Vec<char> = Vec::new();
    push_timestamp(&mut out, t);
    from_chars(out.as_slice())
}

/// The milliseconds `t` after a shift by `skew`, or `NegativeResult` where
/// the shift leads below zero.
pub fn shifted(t: i64, skew: i64) -> (r: Result<u64, SkewError>)
    ensures
        t + skew < 0 ==> r == Err::<u64, SkewError>(SkewError::NegativeResult),
        t + skew >= 0 ==> r == Ok::<u64, SkewError>((t + skew) as u64),
{
    let sum: i128 = t as i128 + skew as i128;
    if sum < 0 {
        Err(SkewError::NegativeResult)
    } else {
        Ok(sum as u64)
    }
}

/// Shifts a timestamp by `skew` milliseconds and gives the canonical
/// timestamp of the result. The token is not trimmed.
pub fn skew_duration(duration: String, skew: i64) -> (r: Result<String, SkewError>)
    ensures
        text_of(r) == skew_spec(duration@, skew as int),
        r matches Ok(text) ==> is_formatted(text@),
{
    proof {
        if skew_spec(duration@, skew as int) is Ok {
            lemma_skew_value(duration@, skew as int);
        }
    }
    match parse_duration(duration.as_str()) {
        Ok(t) => match shifted(t, skew) {
            Ok(moved) => Ok(format_duration(moved)),
            Err(e) => Err(e),
        },
        Err(e) => Err(e),
    }
}

} // verus!
