//! Decimal numerals: the value of a run of digits, the digits of a number,
//! and zero-padded notation.

use vstd::prelude::*;
use vstd::slice::slice_subrange;

verus! {

/// An ASCII decimal digit.
pub open spec fn is_digit(c: char) -> bool {
    '0' <= c <= '9'
}

/// The number that a digit stands for.
pub open spec fn digit_value(c: char) -> nat {
    if is_digit(c) {
        (c as int - 48) as nat
    } else {
        0
    }
}

/// The digit that stands for `d`, where `d` is below ten.
pub open spec fn digit_char(d: nat) -> char {
    ((d + 48) as u8) as char
}

/// Every character of `s` is a digit.
pub open spec fn all_digits(s: Seq<char>) -> bool {
    forall|i: int| 0 <= i < s.len() ==> is_digit(#[trigger] s[i])
}

/// The number that a run of digits denotes in base ten; zero for the empty run.
pub open spec fn decimal_value(s: Seq<char>) -> nat
    decreases s.len(),
{
    if s.len() == 0 {
        0
    } else {
        10 * decimal_value(s.drop_last()) + digit_value(s.last())
    }
}

/// The digits of `n` in base ten, without leading zeros; `0` for zero.
pub open spec fn decimal_digits(n: nat) -> Seq<char>
    decreases n,
{
    if n < 10 {
        seq![digit_char(n)]
    } else {
        decimal_digits(n / 10).push(digit_char(n % 10))
    }
}

/// A run of `k` zeros.
pub open spec fn zeros(k: nat) -> Seq<char> {
    Seq::new(k, |i: int| '0')
}

/// The digits of `n`, with zeros in front until there are at least `width`
/// of them.
pub open spec fn zero_padded(n: nat, width: nat) -> Seq<char> {
    let digits = decimal_digits(n);
    if digits.len() < width {
        zeros((width - digits.len()) as nat) + digits
    } else {
        digits
    }
}

/// A field without the `+` that may stand in front of it.
pub open spec fn unsigned_part(field: Seq<char>) -> Seq<char> {
    if field.len() > 0 && field[0] == '+' {
        field.drop_first()
    } else {
        field
    }
}

/// A number: one or more digits, with or without a `+` in front.
pub open spec fn is_number(field: Seq<char>) -> bool {
    unsigned_part(field).len() > 0 && all_digits(unsigned_part(field))
}

/// The value of a number.
pub open spec fn number_value(field: Seq<char>) -> nat {
    decimal_value(unsigned_part(field))
}

/// A digit and its value determine each other.
pub proof fn lemma_digit_char_value(d: nat)
    requires
        d < 10,
    ensures
        is_digit(digit_char(d)),
        digit_value(digit_char(d)) == d,
        digit_char(d) != '+',
        digit_char(d) == '0' <==> d == 0,
{
}

/// The digit of the value of a digit is that digit.
pub proof fn lemma_digit_value_char(c: char)
    requires
        is_digit(c),
    ensures
        digit_value(c) < 10,
        digit_char(digit_value(c)) == c,
        digit_value(c) == 0 <==> c == '0',
{
}

/// A numeral's value is at least that of each of its prefixes.
pub proof fn lemma_value_of_prefix(s: Seq<char>, k: int)
    requires
        0 <= k <= s.len(),
    ensures
        decimal_value(s.subrange(0, k)) <= decimal_value(s),
    decreases s.len(),
{
    if k == s.len() {
        assert(s.subrange(0, k) =~= s);
    } else {
        assert(s.drop_last().subrange(0, k) =~= s.subrange(0, k));
        lemma_value_of_prefix(s.drop_last(), k);
    }
}

/// The digits of a number are digits, there is at least one, and the first
/// is no zero unless it is the only one.
pub proof fn lemma_digits_shape(n: nat)
    ensures
        decimal_digits(n).len() >= 1,
        all_digits(decimal_digits(n)),
        decimal_digits(n).len() > 1 ==> decimal_digits(n)[0] != '0',
        n < 10 <==> decimal_digits(n).len() == 1,
    decreases n,
{
    if n < 10 {
        lemma_digit_char_value(n);
    } else {
        lemma_digits_shape(n / 10);
        lemma_digit_char_value(n % 10);
        lemma_digit_char_value((n / 10) % 10);
    }
}

/// The digits of a number denote that number.
pub proof fn lemma_value_of_digits(n: nat)
    ensures
        decimal_value(decimal_digits(n)) == n,
    decreases n,
{
    if n < 10 {
        lemma_digit_char_value(n);
        assert(decimal_digits(n).drop_last() =~= Seq::<char>::empty());
        assert(decimal_value(Seq::<char>::empty()) == 0);
    } else {
        lemma_value_of_digits(n / 10);
        lemma_digit_char_value(n % 10);
        assert(decimal_digits(n).drop_last() =~= decimal_digits(n / 10));
    }
}

/// Zeros in front do not change what a numeral denotes.
pub proof fn lemma_value_leading_zeros(k: nat, s: Seq<char>)
    ensures
        decimal_value(zeros(k) + s) == decimal_value(s),
    decreases s.len(), k,
{
    let whole = zeros(k) + s;
    if s.len() > 0 {
        assert(whole.drop_last() =~= zeros(k) + s.drop_last());
        lemma_value_leading_zeros(k, s.drop_last());
    } else if k > 0 {
        assert(whole.drop_last() =~= zeros((k - 1) as nat) + s);
        lemma_value_leading_zeros((k - 1) as nat, s);
    }
}

/// Zero-padded notation is made of digits, denotes the number, and is as
/// long as the width or as the digits of the number, whichever is more.
pub proof fn lemma_zero_padded(n: nat, width: nat)
    ensures
        all_digits(zero_padded(n, width)),
        decimal_value(zero_padded(n, width)) == n,
        zero_padded(n, width).len() == if decimal_digits(n).len() < width {
            width
        } else {
            decimal_digits(n).len()
        },
        zero_padded(n, width).len() >= 1,
{
    lemma_digits_shape(n);
    lemma_value_of_digits(n);
    let digits = decimal_digits(n);
    if digits.len() < width {
        lemma_value_leading_zeros((width - digits.len()) as nat, digits);
    }
}

/// Numbers below a hundred have at most two digits, numbers below a thousand
/// at most three.
pub proof fn lemma_short_numbers(n: nat)
    ensures
        n < 100 ==> decimal_digits(n).len() <= 2,
        n < 1000 ==> decimal_digits(n).len() <= 3,
{
    reveal_with_fuel(decimal_digits, 4);
}

/// A numeral without superfluous zeros in front is the digits of its value.
pub proof fn lemma_digits_of_value(s: Seq<char>)
    requires
        s.len() >= 1,
        all_digits(s),
        s.len() > 1 ==> s[0] != '0',
    ensures
        decimal_digits(decimal_value(s)) == s,
        s.len() > 1 ==> decimal_value(s) >= 10,
    decreases s.len(),
{
    let head = s.drop_last();
    let c = s.last();
    lemma_digit_value_char(c);
    if s.len() == 1 {
        assert(decimal_value(head) == 0);
    } else {
        lemma_digit_value_char(head[0]);
        lemma_digits_of_value(head);
        let v = decimal_value(s);
        assert(decimal_value(head) >= 1);
        assert(v / 10 == decimal_value(head) && v % 10 == digit_value(c));
    }
}

/// A numeral is the zero-padded notation of its value at its own length.
pub proof fn lemma_padded_of_value(s: Seq<char>)
    requires
        s.len() >= 1,
        all_digits(s),
    ensures
        zero_padded(decimal_value(s), s.len()) == s,
    decreases s.len(),
{
    if s.len() == 1 || s[0] != '0' {
        lemma_digits_of_value(s);
    } else {
        let rest = s.drop_first();
        assert(s =~= zeros(1) + rest);
        lemma_value_leading_zeros(1, rest);
        lemma_padded_of_value(rest);
        lemma_digits_shape(decimal_value(s));
    }
}

/// How many digits `n` has in base ten.
pub fn digit_count(n: u64) -> (count: usize)
    ensures
        count == decimal_digits(n as nat).len(),
        1 <= count <= 20,
    decreases n,
{
    if n < 10 {
        1
    } else {
        let rest = digit_count(n / 10);
        proof {
            lemma_digit_count_bound(n as nat);
        }
        rest + 1
    }
}

/// A number that fits in 64 bits has at most twenty digits.
proof fn lemma_digit_count_bound(n: nat)
    requires
        n <= u64::MAX,
    ensures
        decimal_digits(n).len() <= 20,
{
    reveal_with_fuel(decimal_digits, 21);
}

/// Appends the digits of `n` to `out`.
pub fn push_digits(out: &mut Vec<char>, n: u64)
    ensures
        final(out)@ == old(out)@ + decimal_digits(n as nat),
    decreases n,
{
    if n >= 10 {
        push_digits(out, n / 10);
    }
    let d: u8 = (n % 10) as u8;
    out.push((d + 48u8) as char);
}

/// Appends `n` to `out` in zero-padded notation of the given width.
pub fn push_padded(out: &mut Vec<char>, n: u64, width: usize)
    ensures
        final(out)@ == old(out)@ + zero_padded(n as nat, width as nat),
{
    let count = digit_count(n);
    let mut k: usize = count;
    while k < width
        invariant
            count <= k,
            k > count ==> k <= width,
            out@ == old(out)@ + zeros((k - count) as nat),
        decreases width - k,
    {
        out.push('0');
        k += 1;
    }
    push_digits(out, n);
}

/// What reading a run of digits gives: its value if there is at least one
/// digit, nothing but digits, and the value fits in 64 bits.
pub open spec fn parse_digits_spec(digits: Seq<char>) -> Option<u64> {
    if digits.len() > 0 && all_digits(digits) && decimal_value(digits) <= u64::MAX {
        Some(decimal_value(digits) as u64)
    } else {
        None
    }
}

/// Reads a run of digits.
pub fn parse_digits(digits: &[char]) -> (value: Option<u64>)
    ensures
        value == parse_digits_spec(digits@),
{
    let n = digits.len();
    if n == 0 {
        return None;
    }
    let mut acc: u64 = 0;
    let mut i: usize = 0;
    while i < n
        invariant
            i <= n == digits.len(),
            all_digits(digits@.subrange(0, i as int)),
            acc == decimal_value(digits@.subrange(0, i as int)),
        decreases n - i,
    {
        let c = digits[i];
        let ghost before = digits@.subrange(0, i as int);
        let ghost after = digits@.subrange(0, i + 1);
        assert(after.drop_last() =~= before);
        if !(c >= '0' && c <= '9') {
            return None;
        }
        let d: u64 = (c as u32 - 48) as u64;
        if acc > (u64::MAX - d) / 10 {
            proof {
                lemma_value_of_prefix(digits@, i + 1);
            }
            return None;
        }
        acc = acc * 10 + d;
        i += 1;
    }
    assert(digits@.subrange(0, n as int) =~= digits@);
    Some(acc)
}

/// What `parse_number` returns: the value of a number that fits in 64 bits,
/// nothing for anything else.
pub open spec fn parse_number_spec(field: Seq<char>) -> Option<u64> {
    if is_number(field) && number_value(field) <= u64::MAX {
        Some(number_value(field) as u64)
    } else {
        None
    }
}

/// Reads a number: one or more digits, with or without a `+` in front.
pub fn parse_number(field: &[char]) -> (value: Option<u64>)
    ensures
        value == parse_number_spec(field@),
{
    let n = field.len();
    let start: usize = if n > 0 && field[0] == '+' {
        1
    } else {
        0
    };
    assert(unsigned_part(field@) =~= field@.subrange(start as int, n as int));
    parse_digits(slice_subrange(field, start, n))
}

/// An integer without its sign.
pub open spec fn magnitude_part(text: Seq<char>) -> Seq<char> {
    if text.len() > 0 && (text[0] == '+' || text[0] == '-') {
        text.drop_first()
    } else {
        text
    }
}

/// An integer: one or more digits, with or without a `+` or a `-` in front.
pub open spec fn is_integer(text: Seq<char>) -> bool {
    magnitude_part(text).len() > 0 && all_digits(magnitude_part(text))
}

/// The value of an integer.
pub open spec fn integer_value(text: Seq<char>) -> int {
    if text.len() > 0 && text[0] == '-' {
        -(decimal_value(magnitude_part(text)) as int)
    } else {
        decimal_value(magnitude_part(text)) as int
    }
}

/// What `parse_integer` returns: the value of an integer that an `i64`
/// holds, nothing for anything else.
pub open spec fn parse_integer_spec(text: Seq<char>) -> Option<i64> {
    if is_integer(text) && i64::MIN <= integer_value(text) <= i64::MAX {
        Some(integer_value(text) as i64)
    } else {
        None
    }
}

/// Reads a signed integer.
pub fn parse_integer(text: &[char]) -> (value: Option<i64>)
    ensures
        value == parse_integer_spec(text@),
{
    let n = text.len();
    let negative = n > 0 && text[0] == '-';
    let start: usize = if n > 0 && (text[0] == '+' || text[0] == '-') {
        1
    } else {
        0
    };
    assert(magnitude_part(text@) =~= text@.subrange(start as int, n as int));
    match parse_digits(slice_subrange(text, start, n)) {
        None => None,
        Some(magnitude) => {
            if negative {
                if magnitude > 0x8000_0000_0000_0000 {
                    None
                } else if magnitude == 0x8000_0000_0000_0000 {
                    Some(i64::MIN)
                } else {
                    Some(-(magnitude as i64))
                }
            } else if magnitude > 0x7fff_ffff_ffff_ffff {
                None
            } else {
                Some(magnitude as i64)
            }
        },
    }
}

} // verus!
