//! Scores. A score is a binary64 number, held as its bit pattern together with
//! the two ways in which it is printed.
use vstd::prelude::*;

verus! {

/// The sign bit of a binary64 pattern.
pub const SIGN_BIT: u64 = 0x8000_0000_0000_0000;

/// The pattern of positive infinity; a greater magnitude is not a number.
pub const INFINITY_BITS: u64 = 0x7ff0_0000_0000_0000;

/// A score as it was read or stored.
#[derive(Debug)]
pub struct Score {
    /// The bit pattern of the number.
    pub bits: u64,
    /// The number with four digits behind the point.
    pub fixed: String,
    /// The shortest text that reads back as the number.
    pub debug: String,
}

/// What a [`Score`] holds.
#[verifier::ext_equal]
pub struct ScoreView {
    pub bits: u64,
    pub fixed: Seq<char>,
    pub debug: Seq<char>,
}

impl DeepView for Score {
    type V = ScoreView;

    open spec fn deep_view(&self) -> ScoreView {
        ScoreView { bits: self.bits, fixed: self.fixed@, debug: self.debug@ }
    }
}

impl Clone for Score {
    fn clone(&self) -> (copy: Self)
        ensures
            copy == *self,
    {
        Score { bits: self.bits, fixed: self.fixed.clone(), debug: self.debug.clone() }
    }
}

/// The distance of a pattern from zero, as an integer.
pub open spec fn magnitude(bits: u64) -> int {
    if bits >= SIGN_BIT {
        bits - SIGN_BIT
    } else {
        bits as int
    }
}

/// Whether the pattern is not a number.
pub open spec fn is_nan(bits: u64) -> bool {
    magnitude(bits) > INFINITY_BITS
}

/// The place of a number among all numbers; both zeros have the same place.
pub open spec fn place(bits: u64) -> int {
    if bits >= SIGN_BIT {
        -magnitude(bits)
    } else {
        magnitude(bits)
    }
}

/// Equality of numbers: not-a-number equals nothing, and the zeros are equal.
pub open spec fn score_eq(a: u64, b: u64) -> bool {
    !is_nan(a) && !is_nan(b) && place(a) == place(b)
}

/// The order of numbers: not-a-number is in no order with anything.
pub open spec fn score_lt(a: u64, b: u64) -> bool {
    !is_nan(a) && !is_nan(b) && place(a) < place(b)
}

/// Whether the pattern is not a number.
pub fn bits_are_nan(bits: u64) -> (nan: bool)
    ensures
        nan == is_nan(bits),
{
    if bits >= SIGN_BIT {
        bits - SIGN_BIT > INFINITY_BITS
    } else {
        bits > INFINITY_BITS
    }
}

fn place_of(bits: u64) -> (p: i128)
    ensures
        p == place(bits),
{
    if bits >= SIGN_BIT {
        -((bits - SIGN_BIT) as i128)
    } else {
        bits as i128
    }
}

/// Whether the two patterns are equal as numbers.
pub fn bits_equal(a: u64, b: u64) -> (same: bool)
    ensures
        same == score_eq(a, b),
{
    !bits_are_nan(a) && !bits_are_nan(b) && place_of(a) == place_of(b)
}

/// Whether `a` is less than `b` as a number.
pub fn bits_less(a: u64, b: u64) -> (less: bool)
    ensures
        less == score_lt(a, b),
{
    !bits_are_nan(a) && !bits_are_nan(b) && place_of(a) < place_of(b)
}

}
