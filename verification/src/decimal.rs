//! Timestamps are stored in asset attributes as decimal text. This module states
//! what that text is, and holds the two conversions the staking logic makes.

use vstd::prelude::*;

verus! {

/// An ASCII decimal digit.
pub open spec fn is_ascii_digit(c: char) -> bool {
    '0' <= c && c <= '9'
}

/// The value of an ASCII decimal digit.
pub open spec fn digit_value(c: char) -> int {
    c as int - '0' as int
}

/// The ASCII digit for `d`, where `0 <= d < 10`.
pub open spec fn digit_char(d: int) -> char {
    ('0' as int + d) as char
}

/// The value of a string of decimal digits, most significant first.
pub open spec fn digits_value(s: Seq<char>) -> int
    decreases s.len(),
{
    if s.len() == 0 {
        0
    } else {
        digits_value(s.drop_last()) * 10 + digit_value(s.last())
    }
}

/// A non-empty string of ASCII decimal digits.
pub open spec fn is_digit_string(s: Seq<char>) -> bool {
    s.len() > 0 && forall|i: int| 0 <= i < s.len() ==> is_ascii_digit(#[trigger] s[i])
}

/// What `str::parse::<i64>` gives: an optional `+` or `-` sign followed by one or
/// more ASCII digits, whose value fits in an `i64`; anything else is refused.
pub open spec fn parsed_i64(s: Seq<char>) -> Option<i64> {
    let signed = s.len() > 0 && (s[0] == '-' || s[0] == '+');
    let body = if signed { s.skip(1) } else { s };
    let magnitude = digits_value(body);
    let value = if s.len() > 0 && s[0] == '-' { -magnitude } else { magnitude };
    if is_digit_string(body) && i64::MIN <= value && value <= i64::MAX {
        Some(value as i64)
    } else {
        None
    }
}

/// The decimal digits of `n`, with no leading zero.
pub open spec fn decimal_digits(n: nat) -> Seq<char>
    decreases n,
{
    if n < 10 {
        seq![digit_char(n as int)]
    } else {
        decimal_digits(n / 10).push(digit_char((n % 10) as int))
    }
}

/// How an integer is written in decimal: a `-` before negative values, then its digits.
pub open spec fn decimal_text(v: int) -> Seq<char> {
    if v < 0 {
        seq!['-'] + decimal_digits((-v) as nat)
    } else {
        decimal_digits(v as nat)
    }
}

/// Calls `str::parse::<i64>`; per the documentation of `i64::from_str_radix`
/// the text is an optional `+` or `-` followed by ASCII digits only, and values
/// out of range are an error. The contract claims exactly that.
#[verifier::external_body]
pub(crate) fn parse_i64(s: &str) -> (res: Option<i64>)
    ensures
        res == parsed_i64(s@),
{
    s.parse::<i64>().ok()
}

/// Calls `ToString::to_string` on an `i64`, which formats it in decimal through
/// its `Display` implementation; the contract claims that text.
#[verifier::external_body]
pub(crate) fn i64_to_string(v: i64) -> (res: String)
    ensures
        res@ == decimal_text(v as int),
{
    v.to_string()
}

proof fn lemma_digit_roundtrip(d: int)
    requires
        0 <= d < 10,
    ensures
        is_ascii_digit(digit_char(d)),
        digit_value(digit_char(d)) == d,
        digit_char(d) != '-',
        digit_char(d) != '+',
        (digit_char(d) == '0') == (d == 0),
{
}

/// The decimal digits of `n` are digits, and read back as `n`.
pub proof fn lemma_decimal_digits(n: nat)
    ensures
        is_digit_string(decimal_digits(n)),
        digits_value(decimal_digits(n)) == n,
        decimal_digits(n).len() >= 1,
        n >= 10 ==> decimal_digits(n).len() >= 2,
        decimal_digits(n)[0] != '-' && decimal_digits(n)[0] != '+',
    decreases n,
{
    if n < 10 {
        lemma_digit_roundtrip(n as int);
        assert(decimal_digits(n).drop_last() =~= Seq::<char>::empty());
        assert(digits_value(Seq::<char>::empty()) == 0);
    } else {
        lemma_decimal_digits(n / 10);
        assert(n == (n / 10) * 10 + n % 10);
        lemma_digit_roundtrip((n % 10) as int);
        let d = decimal_digits(n);
        assert(d.drop_last() =~= decimal_digits(n / 10));
        assert forall|i: int| 0 <= i < d.len() implies is_ascii_digit(#[trigger] d[i]) by {
            if i < d.len() - 1 {
                assert(d[i] == decimal_digits(n / 10)[i]);
            }
        }
    }
}

/// Parsing the decimal text of an `i64` gives the value back.
pub proof fn lemma_parse_decimal_roundtrip(v: i64)
    ensures
        parsed_i64(decimal_text(v as int)) == Some(v),
{
    let s = decimal_text(v as int);
    if v < 0 {
        let m = (-(v as int)) as nat;
        lemma_decimal_digits(m);
        assert(s[0] == '-');
        assert(s.skip(1) =~= decimal_digits(m));
    } else {
        lemma_decimal_digits(v as nat);
    }
}

/// The text of an integer is the single digit `0` exactly when the integer is zero.
pub proof fn lemma_decimal_text_zero(v: int)
    ensures
        (decimal_text(v) == seq!['0']) == (v == 0),
{
    if v < 0 {
        let m = (-v) as nat;
        lemma_decimal_digits(m);
        assert(decimal_text(v)[0] == '-');
        assert(decimal_text(v)[0] != seq!['0'][0]);
    } else {
        lemma_decimal_digits(v as nat);
        if v < 10 {
            lemma_digit_roundtrip(v);
            assert(decimal_text(v) == seq![digit_char(v)]);
            if v != 0 {
                assert(decimal_text(v)[0] != seq!['0'][0]);
            }
        } else {
            assert(decimal_text(v).len() != seq!['0'].len());
        }
    }
}

} // verus!
