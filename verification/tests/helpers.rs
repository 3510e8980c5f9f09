use srt_skew::decimal::{
    digit_count, parse_digits, parse_integer, parse_number, push_digits, push_padded,
};
use srt_skew::duration::{parse_chars, push_timestamp, shifted};
use srt_skew::text::{find_char, from_chars, push_all, split_in_two, to_chars};
use srt_skew::SkewError;

fn chars(text: &str) -> Vec<char> {
    text.chars().collect()
}

fn padded(n: u64, width: usize) -> String {
    let mut out = chars("x");
    push_padded(&mut out, n, width);
    out.iter().collect()
}

#[test]
fn chars_go_to_a_vector_and_back() {
    for text in ["", "a", "00:01:16,830", "caf\u{e9}\n\u{4f60}\u{597d}\r\n\u{1f600}"] {
        let v = to_chars(text);
        assert_eq!(v, chars(text));
        assert_eq!(from_chars(&v), text);
    }
}

#[test]
fn push_all_appends() {
    let mut out = chars("ab");
    push_all(&mut out, &chars("cd"));
    push_all(&mut out, &chars(""));
    assert_eq!(out, chars("abcd"));
}

#[test]
fn find_char_gives_the_first_index_or_the_length() {
    let s = chars("a:b:c");
    assert_eq!(find_char(&s, 0, ':'), 1);
    assert_eq!(find_char(&s, 1, ':'), 1);
    assert_eq!(find_char(&s, 2, ':'), 3);
    assert_eq!(find_char(&s, 4, ':'), 5);
    assert_eq!(find_char(&s, 5, ':'), 5);
    assert_eq!(find_char(&s, 0, ','), 5);
    assert_eq!(find_char(&chars(""), 0, ':'), 0);
}

#[test]
fn split_in_two_wants_exactly_one_separator() {
    assert_eq!(split_in_two(&chars("16,830"), ','), Some(2));
    assert_eq!(split_in_two(&chars(",830"), ','), Some(0));
    assert_eq!(split_in_two(&chars("16,"), ','), Some(2));
    assert_eq!(split_in_two(&chars(","), ','), Some(0));
    assert_eq!(split_in_two(&chars("16830"), ','), None);
    assert_eq!(split_in_two(&chars(""), ','), None);
    assert_eq!(split_in_two(&chars("1,6,830"), ','), None);
    assert_eq!(split_in_two(&chars(",,"), ','), None);
}

#[test]
fn digits_are_counted_and_written() {
    let cases: [(u64, &str); 9] = [
        (0, "0"),
        (7, "7"),
        (9, "9"),
        (10, "10"),
        (99, "99"),
        (100, "100"),
        (1_536_000_000, "1536000000"),
        (9_999_999_999_999_999_999, "9999999999999999999"),
        (u64::MAX, "18446744073709551615"),
    ];
    for (n, text) in cases {
        assert_eq!(digit_count(n), text.len());
        let mut out = chars("n=");
        push_digits(&mut out, n);
        assert_eq!(out.iter().collect::<String>(), format!("n={}", text));
    }
}

#[test]
fn padding_fills_up_to_the_width() {
    assert_eq!(padded(0, 2), "x00");
    assert_eq!(padded(5, 2), "x05");
    assert_eq!(padded(59, 2), "x59");
    assert_eq!(padded(100, 2), "x100");
    assert_eq!(padded(0, 3), "x000");
    assert_eq!(padded(7, 3), "x007");
    assert_eq!(padded(999, 3), "x999");
    assert_eq!(padded(1000, 3), "x1000");
    assert_eq!(padded(7, 0), "x7");
    assert_eq!(padded(7, 1), "x7");
    assert_eq!(padded(42, 25), format!("x{:025}", 42));
    assert_eq!(padded(u64::MAX, 2), format!("x{:02}", u64::MAX));
}

#[test]
fn parse_digits_takes_digits_only() {
    assert_eq!(parse_digits(&chars("0")), Some(0));
    assert_eq!(parse_digits(&chars("007")), Some(7));
    assert_eq!(parse_digits(&chars("18446744073709551615")), Some(u64::MAX));
    assert_eq!(parse_digits(&chars("18446744073709551616")), None);
    assert_eq!(parse_digits(&chars("")), None);
    assert_eq!(parse_digits(&chars("+7")), None);
    assert_eq!(parse_digits(&chars("-7")), None);
    assert_eq!(parse_digits(&chars("7a")), None);
    assert_eq!(parse_digits(&chars("\u{ff11}")), None);
}

#[test]
fn parse_number_takes_a_plus() {
    assert_eq!(parse_number(&chars("830")), Some(830));
    assert_eq!(parse_number(&chars("+830")), Some(830));
    assert_eq!(parse_number(&chars("+")), None);
    assert_eq!(parse_number(&chars("-830")), None);
    assert_eq!(parse_number(&chars("++830")), None);
    assert_eq!(parse_number(&chars("")), None);
    for text in ["0", "+0", "12", "+", "-1", "1+", " 1", "18446744073709551615", "18446744073709551616"] {
        assert_eq!(parse_number(&chars(text)), text.parse::<u64>().ok(), "{:?}", text);
    }
}

#[test]
fn parse_integer_takes_a_sign() {
    assert_eq!(parse_integer(&chars("830")), Some(830));
    assert_eq!(parse_integer(&chars("+830")), Some(830));
    assert_eq!(parse_integer(&chars("-830")), Some(-830));
    assert_eq!(parse_integer(&chars("-9223372036854775808")), Some(i64::MIN));
    assert_eq!(parse_integer(&chars("-9223372036854775809")), None);
    assert_eq!(parse_integer(&chars("9223372036854775808")), None);
    assert_eq!(parse_integer(&chars("-")), None);
    assert_eq!(parse_integer(&chars("")), None);
}

#[test]
fn parse_chars_and_push_timestamp_are_the_codec_on_characters() {
    assert_eq!(parse_chars(&chars("00:01:16,830")), Ok(76_830));
    assert_eq!(parse_chars(&chars("00:01:16;830")), Err(SkewError::MalformedTimestamp));
    let mut out = chars("at ");
    push_timestamp(&mut out, 76_830);
    assert_eq!(out.iter().collect::<String>(), "at 00:01:16,830");
}

#[test]
fn shifted_adds_without_overflow() {
    assert_eq!(shifted(76_830, 100), Ok(76_930));
    assert_eq!(shifted(76_830, -76_830), Ok(0));
    assert_eq!(shifted(76_830, -76_831), Err(SkewError::NegativeResult));
    assert_eq!(shifted(i64::MAX, i64::MAX), Ok(18_446_744_073_709_551_614));
    assert_eq!(shifted(0, i64::MIN), Err(SkewError::NegativeResult));
    assert_eq!(shifted(-5, 5), Ok(0));
    assert_eq!(shifted(-5, 4), Err(SkewError::NegativeResult));
}
