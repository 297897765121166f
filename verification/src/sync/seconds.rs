//! Spans of time in seconds.
use vstd::prelude::*;

verus! {

/// A span of seconds, held as the bit pattern of a single-precision IEEE 754
/// number.
#[derive(Clone, Copy, Debug, PartialEq, Eq, Structural)]
pub struct Seconds(pub u32);

impl Seconds {
    /// The bits below the sign.
    pub open spec fn magnitude(self) -> int {
        self.0 as int % 0x8000_0000
    }

    /// Whether the bits stand for no number.
    pub open spec fn is_nan(self) -> bool {
        self.magnitude() > 0x7f80_0000
    }

    /// The place of the number among all numbers of the format: equal numbers
    /// have the same rank, and a larger number has a larger rank.
    pub open spec fn rank(self) -> int {
        if self.0 >= 0x8000_0000 {
            -self.magnitude()
        } else {
            self.magnitude()
        }
    }

    /// Whether both are numbers and the first is not less than the second.
    pub open spec fn reaches(self, other: Seconds) -> bool {
        !self.is_nan() && !other.is_nan() && self.rank() >= other.rank()
    }

    /// The span, or zero where it is negative or no number.
    pub open spec fn clamped(self) -> Seconds {
        if self.is_nan() || self.rank() <= 0 {
            Seconds(0)
        } else {
            self
        }
    }

    /// No time at all.
    pub fn zero() -> (span: Seconds)
        ensures
            span == Seconds(0),
    {
        Seconds(0)
    }

    /// More time than any other span.
    pub fn infinity() -> (span: Seconds)
        ensures
            span == Seconds(0x7f80_0000),
    {
        Seconds(0x7f80_0000)
    }

    /// Whether this span is at least as long as the other.
    pub fn at_least(self, other: Seconds) -> (reached: bool)
        ensures
            reached == self.reaches(other),
    {
        let left: u32 = self.0 % 0x8000_0000;
        let right: u32 = other.0 % 0x8000_0000;
        if left > 0x7f80_0000 || right > 0x7f80_0000 {
            return false;
        }
        let left_negative = self.0 >= 0x8000_0000;
        let right_negative = other.0 >= 0x8000_0000;
        if left_negative {
            if right_negative {
                left <= right
            } else {
                left == 0 && right == 0
            }
        } else {
            right_negative || left >= right
        }
    }

    /// The longer of this span and zero.
    pub fn or_zero(self) -> (span: Seconds)
        ensures
            span == self.clamped(),
    {
        if self.0 >= 0x8000_0000 || self.0 > 0x7f80_0000 {
            Seconds(0)
        } else {
            self
        }
    }
}

/// Spans compare as the numbers that their bits stand for: those without a sign
/// by their bits, those with a sign the other way round and below the former,
/// both zeros alike, and what is no number with nothing.
pub proof fn law_spans_compare_as_numbers(left: Seconds, right: Seconds)
    ensures
        left.0 <= 0x7f80_0000 && right.0 <= 0x7f80_0000 ==> left.reaches(right) == (left.0
            >= right.0),
        left.0 <= 0x7f80_0000 && 0x8000_0000 <= right.0 <= 0xff80_0000 ==> left.reaches(right),
        0x8000_0000 <= left.0 <= 0xff80_0000 && right.0 <= 0x7f80_0000 ==> left.reaches(right) == (
        left.0 == 0x8000_0000 && right.0 == 0),
        0x8000_0000 <= left.0 <= 0xff80_0000 && 0x8000_0000 <= right.0 <= 0xff80_0000
            ==> left.reaches(right) == (left.0 <= right.0),
        0x7f80_0000 < left.0 < 0x8000_0000 || left.0 > 0xff80_0000 ==> !left.reaches(right),
        0x7f80_0000 < right.0 < 0x8000_0000 || right.0 > 0xff80_0000 ==> !left.reaches(right),
{
}

/// A span that is a number without a sign stays when it is held against zero;
/// any other gives way to zero.
pub proof fn law_negative_spans_count_as_zero(span: Seconds)
    ensures
        span.clamped() == if span.0 <= 0x7f80_0000 {
            span
        } else {
            Seconds(0)
        },
{
}

} // verus!
