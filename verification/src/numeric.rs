//! Recognition of decimal floating-point literals.
//!
//! A value line is accepted when its trimmed text is a standard decimal
//! floating-point literal: an optional sign, digits with an optional
//! fractional part, and an optional exponent. No other format (hexadecimal,
//! locale-specific separators, named non-finite values) is accepted.

use vstd::prelude::*;

verus! {

/// A decimal digit character.
pub open spec fn is_digit(c: char) -> bool {
    0x30 <= c as u32 && c as u32 <= 0x39
}

/// Scanner state after reading a prefix of a candidate literal.
#[derive(Clone, Copy, Debug)]
pub enum ScanState {
    /// Nothing read yet.
    Start,
    /// A leading sign was read.
    Signed,
    /// Reading the integer digits.
    Whole,
    /// A decimal point was read before any digit; digits must follow.
    LoneDot,
    /// A decimal point was read after integer digits.
    Point,
    /// Reading the digits of the fractional part.
    Fraction,
    /// The exponent marker `e` or `E` was read.
    ExpMark,
    /// A sign inside the exponent was read.
    ExpSigned,
    /// Reading the exponent digits.
    ExpDigits,
    /// The prefix cannot be extended to a literal.
    Bad,
}

/// One scanner transition.
pub open spec fn scan_step(st: ScanState, c: char) -> ScanState {
    match st {
        ScanState::Start => if c == '+' || c == '-' {
            ScanState::Signed
        } else if is_digit(c) {
            ScanState::Whole
        } else if c == '.' {
            ScanState::LoneDot
        } else {
            ScanState::Bad
        },
        ScanState::Signed => if is_digit(c) {
            ScanState::Whole
        } else if c == '.' {
            ScanState::LoneDot
        } else {
            ScanState::Bad
        },
        ScanState::Whole => if is_digit(c) {
            ScanState::Whole
        } else if c == '.' {
            ScanState::Point
        } else if c == 'e' || c == 'E' {
            ScanState::ExpMark
        } else {
            ScanState::Bad
        },
        ScanState::LoneDot => if is_digit(c) {
            ScanState::Fraction
        } else {
            ScanState::Bad
        },
        ScanState::Point => if is_digit(c) {
            ScanState::Fraction
        } else if c == 'e' || c == 'E' {
            ScanState::ExpMark
        } else {
            ScanState::Bad
        },
        ScanState::Fraction => if is_digit(c) {
            ScanState::Fraction
        } else if c == 'e' || c == 'E' {
            ScanState::ExpMark
        } else {
            ScanState::Bad
        },
        ScanState::ExpMark => if c == '+' || c == '-' {
            ScanState::ExpSigned
        } else if is_digit(c) {
            ScanState::ExpDigits
        } else {
            ScanState::Bad
        },
        ScanState::ExpSigned => if is_digit(c) {
            ScanState::ExpDigits
        } else {
            ScanState::Bad
        },
        ScanState::ExpDigits => if is_digit(c) {
            ScanState::ExpDigits
        } else {
            ScanState::Bad
        },
        ScanState::Bad => ScanState::Bad,
    }
}

/// A state in which the text read so far is a complete literal.
pub open spec fn accepting(st: ScanState) -> bool {
    st is Whole || st is Point || st is Fraction || st is ExpDigits
}

/// The scanner state after reading all of `s`, left to right.
pub open spec fn scan_run(s: Seq<char>) -> ScanState
    decreases s.len(),
{
    if s.len() == 0 {
        ScanState::Start
    } else {
        scan_step(scan_run(s.drop_last()), s.last())
    }
}

/// `s` is a decimal floating-point literal: optional sign, digits with an
/// optional fractional part, and an optional exponent.
pub open spec fn numeric_literal(s: Seq<char>) -> bool {
    accepting(scan_run(s))
}

fn digit(c: char) -> (r: bool)
    ensures
        r == is_digit(c),
{
    let u = c as u32;
    0x30 <= u && u <= 0x39
}

fn scan_step_exec(st: ScanState, c: char) -> (r: ScanState)
    ensures
        r == scan_step(st, c),
{
    match st {
        ScanState::Start => if c == '+' || c == '-' {
            ScanState::Signed
        } else if digit(c) {
            ScanState::Whole
        } else if c == '.' {
            ScanState::LoneDot
        } else {
            ScanState::Bad
        },
        ScanState::Signed => if digit(c) {
            ScanState::Whole
        } else if c == '.' {
            ScanState::LoneDot
        } else {
            ScanState::Bad
        },
        ScanState::Whole => if digit(c) {
            ScanState::Whole
        } else if c == '.' {
            ScanState::Point
        } else if c == 'e' || c == 'E' {
            ScanState::ExpMark
        } else {
            ScanState::Bad
        },
        ScanState::LoneDot => if digit(c) {
            ScanState::Fraction
        } else {
            ScanState::Bad
        },
        ScanState::Point => if digit(c) {
            ScanState::Fraction
        } else if c == 'e' || c == 'E' {
            ScanState::ExpMark
        } else {
            ScanState::Bad
        },
        ScanState::Fraction => if digit(c) {
            ScanState::Fraction
        } else if c == 'e' || c == 'E' {
            ScanState::ExpMark
        } else {
            ScanState::Bad
        },
        ScanState::ExpMark => if c == '+' || c == '-' {
            ScanState::ExpSigned
        } else if digit(c) {
            ScanState::ExpDigits
        } else {
            ScanState::Bad
        },
        ScanState::ExpSigned => if digit(c) {
            ScanState::ExpDigits
        } else {
            ScanState::Bad
        },
        ScanState::ExpDigits => if digit(c) {
            ScanState::ExpDigits
        } else {
            ScanState::Bad
        },
        ScanState::Bad => ScanState::Bad,
    }
}

/// Decide whether `s` is a decimal floating-point literal.
pub fn is_numeric_literal(s: &str) -> (r: bool)
    ensures
        r == numeric_literal(s@),
{
    let n = s.unicode_len();
    let mut st = ScanState::Start;
    let mut i: usize = 0;
    while i < n
        invariant
            i <= n,
            n == s@.len(),
            st == scan_run(s@.subrange(0, i as int)),
        decreases n - i,
    {
        let c = s.get_char(i);
        st = scan_step_exec(st, c);
        proof {
            assert(s@.subrange(0, i + 1 as int).drop_last() =~= s@.subrange(0, i as int));
            assert(s@.subrange(0, i + 1 as int).last() == s@[i as int]);
        }
        i += 1;
    }
    proof {
        assert(s@.subrange(0, n as int) =~= s@);
    }
    match st {
        ScanState::Whole => true,
        ScanState::Point => true,
        ScanState::Fraction => true,
        ScanState::ExpDigits => true,
        _ => false,
    }
}

} // verus!
