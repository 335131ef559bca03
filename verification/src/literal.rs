//! Decimal numbers as texts write them.
//!
//! A number is an optional sign, digits with at most one decimal point
//! among them, and an optional exponent. The text `49.875` writes the
//! coefficient 49875 with the exponent -3, and `1e+21` the coefficient 1
//! with the exponent 21. No digit is dropped and nothing is rounded.

use crate::decimal::Decimal;
use vstd::prelude::*;

verus! {

/// Whether `c` is one of the digits `0` to `9`.
pub open spec fn is_digit(c: char) -> bool {
    '0' <= c <= '9'
}

/// The number that the digit `c` stands for.
pub open spec fn digit_value(c: char) -> nat {
    (c as int - '0' as int) as nat
}

/// Whether `c` is a plus or a minus sign.
pub open spec fn is_sign(c: char) -> bool {
    c == '+' || c == '-'
}

/// The number that a run of digits writes in base ten.
pub open spec fn digits_value(digits: Seq<char>) -> nat
    decreases digits.len(),
{
    if digits.len() == 0 {
        0
    } else {
        10 * digits_value(digits.drop_last()) + digit_value(digits.last())
    }
}

/// The index just past the digits that start at `from`.
pub open spec fn digits_end(text: Seq<char>, from: int) -> int
    decreases text.len() - from,
{
    if 0 <= from < text.len() && is_digit(text[from]) {
        digits_end(text, from + 1)
    } else {
        from
    }
}

/// The index just past an optional sign at `from`.
pub open spec fn after_sign(text: Seq<char>, from: int) -> int {
    if 0 <= from < text.len() && is_sign(text[from]) {
        from + 1
    } else {
        from
    }
}

/// Whether a minus sign stands at `from`.
pub open spec fn minus_at(text: Seq<char>, from: int) -> bool {
    0 <= from < text.len() && text[from] == '-'
}

/// A decimal number as a text writes it, before it is checked against the
/// limits of [`Decimal`].
pub struct Literal {
    pub negative: bool,
    pub coefficient: nat,
    pub exponent: int,
}

impl Literal {
    /// The coefficient fits in 64 bits and the exponent in 32.
    pub open spec fn fits(self) -> bool {
        self.coefficient <= u64::MAX && i32::MIN <= self.exponent <= i32::MAX
    }

    /// The same number as a [`Decimal`].
    pub open spec fn decimal(self) -> Decimal {
        Decimal {
            negative: self.negative,
            coefficient: self.coefficient as u64,
            exponent: self.exponent as i32,
        }
    }
}

/// The exponent written from `from` to the end of the text: an optional sign
/// and at least one digit.
pub open spec fn literal_exponent(text: Seq<char>, from: int) -> Option<int> {
    let start = after_sign(text, from);
    let end = digits_end(text, start);
    if start < end && end == text.len() {
        let size = digits_value(text.subrange(start, end)) as int;
        Some(
            if minus_at(text, from) {
                -size
            } else {
                size
            },
        )
    } else {
        None
    }
}

/// Where the digits before the decimal point end.
pub open spec fn whole_end(text: Seq<char>) -> int {
    digits_end(text, after_sign(text, 0))
}

/// Where the digits after the decimal point start: behind the point if one
/// follows the whole part, else where the whole part ends.
pub open spec fn fraction_start(text: Seq<char>) -> int {
    if whole_end(text) < text.len() && text[whole_end(text)] == '.' {
        whole_end(text) + 1
    } else {
        whole_end(text)
    }
}

/// Where the digits after the decimal point end.
pub open spec fn fraction_end(text: Seq<char>) -> int {
    digits_end(text, fraction_start(text))
}

/// The digits of the number, those before and those after the point.
pub open spec fn mantissa_digits(text: Seq<char>) -> Seq<char> {
    text.subrange(after_sign(text, 0), whole_end(text)) + text.subrange(
        fraction_start(text),
        fraction_end(text),
    )
}

/// The exponent that follows the digits: none where the text ends, else `e`
/// or `E` and what [`literal_exponent`] reads behind it.
pub open spec fn written_exponent(text: Seq<char>) -> Option<int> {
    let at = fraction_end(text);
    if at == text.len() {
        Some(0)
    } else if text[at] == 'e' || text[at] == 'E' {
        literal_exponent(text, at + 1)
    } else {
        None
    }
}

/// The decimal number that a text writes, if it writes one.
///
/// A number is an optional sign, digits with at most one decimal point among
/// them, and an optional exponent: `e` or `E`, an optional sign and digits.
/// At least one digit stands before the exponent. Nothing else may stand in
/// the text.
pub open spec fn decimal_literal(text: Seq<char>) -> Option<Literal> {
    if mantissa_digits(text).len() == 0 {
        None
    } else {
        match written_exponent(text) {
            Some(e) => Some(
                Literal {
                    negative: minus_at(text, 0),
                    coefficient: digits_value(mantissa_digits(text)),
                    exponent: e - (fraction_end(text) - fraction_start(text)),
                },
            ),
            None => None,
        }
    }
}

/// The [`Decimal`] that a text writes: its literal, where that fits.
pub open spec fn decimal_of_text(text: Seq<char>) -> Option<Decimal> {
    match decimal_literal(text) {
        Some(literal) => if literal.fits() {
            Some(literal.decimal())
        } else {
            None
        },
        None => None,
    }
}

/// One more digit multiplies the value by ten and adds the digit.
proof fn lemma_digits_push(digits: Seq<char>, c: char)
    ensures
        digits_value(digits.push(c)) == 10 * digits_value(digits) + digit_value(c),
{
    assert(digits.push(c).drop_last() =~= digits);
}

/// The limit above which a run of digits is reported as too large.
const DIGITS_LIMIT: u128 = 1_000_000_000_000_000_000_000_000_000_000;

/// Reads the digits that start at `from` and appends them to the digits read
/// so far, whose value is `before` unless it was `too_large` already.
fn read_digits(
    chars: &Vec<char>,
    from: usize,
    before: u128,
    too_large: bool,
    limit: u128,
    Ghost(read): Ghost<Seq<char>>,
) -> (result: (usize, u128, bool))
    requires
        from <= chars.len(),
        limit <= DIGITS_LIMIT,
        before <= limit,
        !too_large ==> before == digits_value(read),
        too_large ==> digits_value(read) > limit,
    ensures
        result.0 == digits_end(chars@, from as int),
        result.1 <= limit,
        from <= result.0 <= chars.len(),
        ({
            let all = read + chars@.subrange(from as int, result.0 as int);
            &&& !result.2 ==> result.1 == digits_value(all)
            &&& result.2 ==> digits_value(all) > limit
        }),
{
    let mut i: usize = from;
    let mut value: u128 = before;
    let mut over: bool = too_large;
    proof {
        assert(read + chars@.subrange(from as int, from as int) =~= read);
    }
    while i < chars.len() && is_digit_char(chars[i])
        invariant
            from <= i <= chars.len(),
            limit <= DIGITS_LIMIT,
            digits_end(chars@, from as int) == digits_end(chars@, i as int),
            value <= limit,
            !over ==> value == digits_value(read + chars@.subrange(from as int, i as int)),
            over ==> digits_value(read + chars@.subrange(from as int, i as int)) > limit,
        decreases chars.len() - i,
    {
        let digit: u128 = digit_of(chars[i]) as u128;
        proof {
            let so_far = read + chars@.subrange(from as int, i as int);
            assert(read + chars@.subrange(from as int, i + 1) =~= so_far.push(chars@[i as int]));
            lemma_digits_push(so_far, chars@[i as int]);
        }
        if !over {
            let next: u128 = value * 10 + digit;
            if next > limit {
                over = true;
            } else {
                value = next;
            }
        }
        i += 1;
    }
    (i, value, over)
}

/// Whether `c` is one of the digits `0` to `9`.
fn is_digit_char(c: char) -> (result: bool)
    ensures
        result == is_digit(c),
{
    '0' <= c && c <= '9'
}

/// The number that the digit `c` stands for.
fn digit_of(c: char) -> (result: u8)
    requires
        is_digit(c),
    ensures
        result == digit_value(c),
{
    (c as u32 - '0' as u32) as u8
}

/// What [`read_mantissa`] found.
struct Mantissa {
    end: usize,
    places: usize,
    empty: bool,
    coefficient: u64,
    too_large: bool,
}

/// Reads the sign and the digits of a number.
fn read_mantissa(chars: &Vec<char>) -> (result: Mantissa)
    ensures
        result.end == fraction_end(chars@),
        result.end <= chars.len(),
        result.places == fraction_end(chars@) - fraction_start(chars@),
        result.empty == (mantissa_digits(chars@).len() == 0),
        !result.too_large ==> result.coefficient == digits_value(mantissa_digits(chars@)),
        result.too_large ==> digits_value(mantissa_digits(chars@)) > u64::MAX,
{
    let n = chars.len();
    let start: usize = if n > 0 && (chars[0] == '+' || chars[0] == '-') {
        1
    } else {
        0
    };
    let (whole_end, whole, whole_over) = read_digits(
        chars,
        start,
        0,
        false,
        u64::MAX as u128,
        Ghost(Seq::empty()),
    );
    let ghost whole_digits = chars@.subrange(start as int, whole_end as int);
    proof {
        assert(Seq::<char>::empty() + whole_digits =~= whole_digits);
    }
    let fraction_start: usize = if whole_end < n && chars[whole_end] == '.' {
        whole_end + 1
    } else {
        whole_end
    };
    let (end, coefficient, too_large) = read_digits(
        chars,
        fraction_start,
        whole,
        whole_over,
        u64::MAX as u128,
        Ghost(whole_digits),
    );
    Mantissa {
        end,
        places: end - fraction_start,
        empty: whole_end - start == 0 && end - fraction_start == 0,
        coefficient: coefficient as u64,
        too_large,
    }
}

/// Reads the exponent that is written from `from` to the end. The second
/// part of the result says that the exponent is beyond [`DIGITS_LIMIT`] in
/// size; the first part is then not its value.
fn read_exponent(chars: &Vec<char>, from: usize) -> (result: Option<(i128, bool)>)
    requires
        from <= chars.len(),
    ensures
        result is Some <==> literal_exponent(chars@, from as int) is Some,
        result matches Some((e, too_large)) ==> {
            let written = literal_exponent(chars@, from as int)->0;
            &&& !too_large ==> e == written && -DIGITS_LIMIT <= e <= DIGITS_LIMIT
            &&& too_large ==> written > DIGITS_LIMIT || written < -DIGITS_LIMIT
        },
{
    let n = chars.len();
    let minus = from < n && chars[from] == '-';
    let start: usize = if from < n && (chars[from] == '+' || chars[from] == '-') {
        from + 1
    } else {
        from
    };
    let (end, size, too_large) = read_digits(
        chars,
        start,
        0,
        false,
        DIGITS_LIMIT,
        Ghost(Seq::empty()),
    );
    proof {
        let written = chars@.subrange(start as int, end as int);
        assert(Seq::<char>::empty() + written =~= written);
    }
    if start < end && end == n {
        if minus {
            Some((-(size as i128), too_large))
        } else {
            Some((size as i128, too_large))
        }
    } else {
        None
    }
}

impl Decimal {
    /// Reads the decimal number that `chars` writes. The result is `None`
    /// where the characters write no decimal number, or one whose
    /// coefficient or exponent is out of range.
    pub fn from_chars(chars: &Vec<char>) -> (result: Option<Decimal>)
        ensures
            result == decimal_of_text(chars@),
    {
        let mantissa = read_mantissa(chars);
        if mantissa.empty {
            return None;
        }
        let exponent: i128;
        if mantissa.end == chars.len() {
            exponent = -(mantissa.places as i128);
        } else if chars[mantissa.end] == 'e' || chars[mantissa.end] == 'E' {
            match read_exponent(chars, mantissa.end + 1) {
                Some((e, too_large)) => {
                    if too_large {
                        return None;
                    }
                    exponent = e - mantissa.places as i128;
                },
                None => {
                    return None;
                },
            }
        } else {
            return None;
        }
        if mantissa.too_large {
            return None;
        }
        if exponent < i32::MIN as i128 || exponent > i32::MAX as i128 {
            return None;
        }
        Some(
            Decimal {
                negative: chars.len() > 0 && chars[0] == '-',
                coefficient: mantissa.coefficient,
                exponent: exponent as i32,
            },
        )
    }
}

} // verus!
