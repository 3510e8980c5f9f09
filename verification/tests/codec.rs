use srt_skew::{format_duration, parse_duration, skew_duration, SkewError};

fn skewed(token: &str, millis: i64) -> Result<String, SkewError> {
    skew_duration(token.to_string(), millis)
}

fn is_canonical(text: &str) -> bool {
    let bytes = text.as_bytes();
    let n = bytes.len();
    if n < 12 {
        return false;
    }
    let digits = |from: usize, to: usize| bytes[from..to].iter().all(|b| b.is_ascii_digit());
    let number = |from: usize, to: usize| text[from..to].parse::<u64>().unwrap();
    digits(0, n - 10)
        && bytes[n - 10] == b':'
        && digits(n - 9, n - 7)
        && bytes[n - 7] == b':'
        && digits(n - 6, n - 4)
        && bytes[n - 4] == b','
        && digits(n - 3, n)
        && number(n - 9, n - 7) <= 59
        && number(n - 6, n - 4) <= 59
}

#[test]
fn parse_reads_hours_minutes_seconds_millis() {
    assert_eq!(parse_duration("00:00:00,000"), Ok(0));
    assert_eq!(parse_duration("00:00:00,001"), Ok(1));
    assert_eq!(parse_duration("00:01:16,830"), Ok(76_830));
    assert_eq!(parse_duration("01:00:00,500"), Ok(3_600_500));
    assert_eq!(parse_duration("12:34:56,789"), Ok(45_296_789));
    assert_eq!(parse_duration("100:00:00,000"), Ok(360_000_000));
}

#[test]
fn parse_takes_fields_of_any_width_and_value() {
    assert_eq!(parse_duration("1:2:3,4"), Ok(3_723_004));
    assert_eq!(parse_duration("00:75:00,000"), Ok(4_500_000));
    assert_eq!(parse_duration("00:00:90,1500"), Ok(91_500));
    assert_eq!(parse_duration("0000:0001:0016,0830"), Ok(76_830));
}

#[test]
fn parse_takes_a_plus_sign_before_a_field() {
    assert_eq!(parse_duration("+1:+02:+03,+004"), Ok(3_723_004));
    assert_eq!(parse_duration("+:00:00,000"), Err(SkewError::MalformedTimestamp));
    assert_eq!(parse_duration("++1:00:00,000"), Err(SkewError::MalformedTimestamp));
    assert_eq!(parse_duration("1+:00:00,000"), Err(SkewError::MalformedTimestamp));
}

#[test]
fn parse_rejects_a_wrong_field_count() {
    assert_eq!(parse_duration(""), Err(SkewError::MalformedTimestamp));
    assert_eq!(parse_duration("00"), Err(SkewError::MalformedTimestamp));
    assert_eq!(parse_duration("00:01"), Err(SkewError::MalformedTimestamp));
    assert_eq!(parse_duration("01:16,830"), Err(SkewError::MalformedTimestamp));
    assert_eq!(parse_duration("00:00:01:16,830"), Err(SkewError::MalformedTimestamp));
    assert_eq!(parse_duration("00:01:16,830:"), Err(SkewError::MalformedTimestamp));
    assert_eq!(parse_duration("00:01:16,830,000"), Err(SkewError::MalformedTimestamp));
    assert_eq!(parse_duration("00:01:16,830,"), Err(SkewError::MalformedTimestamp));
}

#[test]
fn parse_rejects_absent_separators() {
    assert_eq!(parse_duration("00:01:16"), Err(SkewError::MalformedTimestamp));
    assert_eq!(parse_duration("00:01:16.830"), Err(SkewError::MalformedTimestamp));
    assert_eq!(parse_duration("00,01:16:830"), Err(SkewError::MalformedTimestamp));
    assert_eq!(parse_duration("000116830"), Err(SkewError::MalformedTimestamp));
    assert_eq!(parse_duration("00-01-16,830"), Err(SkewError::MalformedTimestamp));
}

#[test]
fn parse_rejects_fields_that_are_no_numbers() {
    assert_eq!(parse_duration(":01:16,830"), Err(SkewError::MalformedTimestamp));
    assert_eq!(parse_duration("00::16,830"), Err(SkewError::MalformedTimestamp));
    assert_eq!(parse_duration("00:01:,830"), Err(SkewError::MalformedTimestamp));
    assert_eq!(parse_duration("00:01:16,"), Err(SkewError::MalformedTimestamp));
    assert_eq!(parse_duration("aa:01:16,830"), Err(SkewError::MalformedTimestamp));
    assert_eq!(parse_duration("00:0x:16,830"), Err(SkewError::MalformedTimestamp));
    assert_eq!(parse_duration("00:01:16,83o"), Err(SkewError::MalformedTimestamp));
    assert_eq!(parse_duration("-1:00:00,000"), Err(SkewError::MalformedTimestamp));
    assert_eq!(parse_duration("00:-1:00,000"), Err(SkewError::MalformedTimestamp));
    assert_eq!(parse_duration("00:00:00,-00"), Err(SkewError::MalformedTimestamp));
    assert_eq!(parse_duration("\u{0660}0:00:00,000"), Err(SkewError::MalformedTimestamp));
}

#[test]
fn parse_does_not_trim() {
    assert_eq!(parse_duration(" 00:01:16,830"), Err(SkewError::MalformedTimestamp));
    assert_eq!(parse_duration("00:01:16,830 "), Err(SkewError::MalformedTimestamp));
    assert_eq!(parse_duration("00: 01:16,830"), Err(SkewError::MalformedTimestamp));
    assert_eq!(parse_duration("00:01:16,830\r"), Err(SkewError::MalformedTimestamp));
}

#[test]
fn parse_stops_at_what_an_i64_holds() {
    assert_eq!(parse_duration("00:00:00,9223372036854775807"), Ok(i64::MAX));
    assert_eq!(
        parse_duration("00:00:00,9223372036854775808"),
        Err(SkewError::MalformedTimestamp)
    );
    assert_eq!(parse_duration("2562047788015:12:55,807"), Ok(i64::MAX));
    assert_eq!(parse_duration("2562047788015:12:55,808"), Err(SkewError::MalformedTimestamp));
    assert_eq!(
        parse_duration("18446744073709551616:00:00,000"),
        Err(SkewError::MalformedTimestamp)
    );
    assert_eq!(
        parse_duration("00:00:00,99999999999999999999999999999999"),
        Err(SkewError::MalformedTimestamp)
    );
}

#[test]
fn format_pads_with_zeros() {
    assert_eq!(format_duration(0), "00:00:00,000");
    assert_eq!(format_duration(1), "00:00:00,001");
    assert_eq!(format_duration(999), "00:00:00,999");
    assert_eq!(format_duration(1_000), "00:00:01,000");
    assert_eq!(format_duration(59_999), "00:00:59,999");
    assert_eq!(format_duration(60_000), "00:01:00,000");
    assert_eq!(format_duration(76_830), "00:01:16,830");
    assert_eq!(format_duration(3_599_999), "00:59:59,999");
    assert_eq!(format_duration(3_600_000), "01:00:00,000");
    assert_eq!(format_duration(45_296_789), "12:34:56,789");
}

#[test]
fn format_widens_the_hours() {
    assert_eq!(format_duration(359_999_999), "99:59:59,999");
    assert_eq!(format_duration(360_000_000), "100:00:00,000");
    assert_eq!(format_duration(10_000_000_000), "2777:46:40,000");
    assert_eq!(format_duration(u64::MAX), "5124095576030:25:51,615");
}

#[test]
fn format_then_parse_is_the_identity() {
    let samples: [i64; 14] = [
        0,
        1,
        9,
        10,
        999,
        1_000,
        59_999,
        60_000,
        3_599_999,
        3_600_000,
        86_400_000,
        9_999_999_999,
        10_000_000_000,
        i64::MAX,
    ];
    for t in samples {
        assert_eq!(parse_duration(&format_duration(t as u64)), Ok(t));
    }
    let mut t: i64 = 0;
    while t <= 10_000_000_000 {
        assert_eq!(parse_duration(&format_duration(t as u64)), Ok(t));
        t += 7_919_753;
    }
}

#[test]
fn format_writes_the_canonical_form() {
    for t in [0u64, 5, 61_001, 3_600_000, 359_999_999, 360_000_000, 10_000_000_000, u64::MAX] {
        let text = format_duration(t);
        assert!(is_canonical(&text), "{}", text);
    }
    assert!(!is_canonical("0:00:00,000"));
    assert!(!is_canonical("00:60:00,000"));
}

#[test]
fn skew_by_zero_keeps_a_canonical_token() {
    for token in ["00:00:00,000", "00:01:16,830", "23:59:59,999", "100:00:00,000"] {
        assert_eq!(skewed(token, 0), Ok(token.to_string()));
    }
}

#[test]
fn skew_by_zero_rewrites_a_token_that_is_not_canonical() {
    assert_eq!(skewed("1:2:3,4", 0), Ok("01:02:03,004".to_string()));
    assert_eq!(skewed("000:00:00,000", 0), Ok("00:00:00,000".to_string()));
    assert_eq!(skewed("00:61:00,000", 0), Ok("01:01:00,000".to_string()));
}

#[test]
fn skew_twice_is_skew_by_the_sum() {
    let cases: [(&str, i64, i64); 6] = [
        ("00:01:16,830", 100, 1400),
        ("00:01:16,830", -76_830, 76_830),
        ("01:00:00,500", -1000, -3_599_500),
        ("00:59:59,999", 1, -1),
        ("00:00:00,000", 10_000_000_000, -9_999_999_999),
        ("99:59:59,999", 1, 0),
    ];
    for (token, a, b) in cases {
        let first = skewed(token, a).unwrap();
        assert_eq!(skewed(&first, b), skewed(token, a + b));
    }
}

#[test]
fn skew_carries_millis_into_seconds() {
    assert_eq!(skewed("00:01:16,830", 100), Ok("00:01:16,930".to_string()));
    assert_eq!(skewed("00:01:16,830", 1500), Ok("00:01:18,330".to_string()));
}

#[test]
fn skew_carries_seconds_into_minutes() {
    assert_eq!(skewed("00:00:59,900", 200), Ok("00:01:00,100".to_string()));
}

#[test]
fn skew_cascades_into_hours() {
    assert_eq!(skewed("00:59:59,999", 1), Ok("01:00:00,000".to_string()));
}

#[test]
fn skew_borrows_on_a_negative_shift() {
    assert_eq!(skewed("01:00:00,500", -1000), Ok("00:59:59,500".to_string()));
    assert_eq!(skewed("00:00:00,500", -500), Ok("00:00:00,000".to_string()));
}

#[test]
fn skew_below_zero_is_a_negative_result() {
    assert_eq!(skewed("00:00:00,500", -501), Err(SkewError::NegativeResult));
    assert_eq!(skewed("00:00:00,000", -1), Err(SkewError::NegativeResult));
    assert_eq!(skewed("01:00:00,000", i64::MIN), Err(SkewError::NegativeResult));
}

#[test]
fn skew_of_a_malformed_token_is_malformed() {
    assert_eq!(skewed("", 0), Err(SkewError::MalformedTimestamp));
    assert_eq!(skewed("00:01:16", 5), Err(SkewError::MalformedTimestamp));
    assert_eq!(skewed(" 00:01:16,830", 5), Err(SkewError::MalformedTimestamp));
    assert_eq!(skewed("nonsense", -1_000_000), Err(SkewError::MalformedTimestamp));
}

#[test]
fn skew_goes_beyond_what_an_i64_holds() {
    assert_eq!(
        skewed("2562047788015:12:55,807", i64::MAX),
        Ok("5124095576030:25:51,614".to_string())
    );
}

#[test]
fn error_messages_name_the_failure() {
    assert_eq!(
        SkewError::MalformedTimestamp.message(),
        "malformed timestamp: expected HH:MM:SS,mmm"
    );
    assert_eq!(
        SkewError::NegativeResult.message(),
        "negative result: the skew moves a timestamp before zero"
    );
    assert_ne!(SkewError::MalformedTimestamp, SkewError::NegativeResult);
    let kinds = [
        SkewError::IoRead,
        SkewError::IoRename,
        SkewError::IoWrite,
        SkewError::MalformedTimestamp,
        SkewError::NegativeResult,
        SkewError::InvalidArgument,
    ];
    for (i, a) in kinds.iter().enumerate() {
        assert!(!a.message().is_empty());
        assert!(!a.message().contains('\n'));
        for b in &kinds[i + 1..] {
            assert_ne!(a.message(), b.message());
        }
    }
}
