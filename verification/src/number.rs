//! Real numbers, points, vectors and colors, as plain values.
//!
//! Numbers are held by their bit patterns. They are compared here; arithmetic
//! on them is left to the caller.

use vstd::prelude::*;

verus! {

/// A single-precision number, held as the bit pattern that IEEE 754 gives it.
#[derive(Copy, Clone, Debug)]
pub struct Real {
    pub bits: u32,
}

/// The bit pattern of the sign alone.
pub const SIGN: u32 = 0x8000_0000;

/// The bit pattern of positive infinity.
pub const INFINITY: u32 = 0x7f80_0000;

/// The bit pattern of one.
pub const ONE: u32 = 0x3f80_0000;

/// The bit pattern of one, negated.
pub const MINUS_ONE: u32 = 0xbf80_0000;

impl Real {
    /// Whether this stands for no number at all.
    pub open spec fn nan(self) -> bool {
        self.bits % SIGN > INFINITY
    }

    /// Where the number stands among all numbers. The two zeros share a place.
    pub open spec fn place(self) -> int {
        if self.bits >= SIGN {
            SIGN - self.bits
        } else {
            self.bits as int
        }
    }

    /// Whether two numbers are equal.
    pub open spec fn equals(self, other: Real) -> bool {
        !self.nan() && !other.nan() && self.place() == other.place()
    }

    /// Whether this number is less than the other.
    pub open spec fn below(self, other: Real) -> bool {
        !self.nan() && !other.nan() && self.place() < other.place()
    }

    /// The number without its sign.
    pub open spec fn magnitude(self) -> Real {
        Real { bits: (self.bits % SIGN) as u32 }
    }

    /// Whether this stands for no number at all.
    pub fn is_nan(self) -> (nan: bool)
        ensures
            nan == self.nan(),
    {
        self.bits % SIGN > INFINITY
    }

    /// Whether this number is less than the other.
    pub fn less_than(self, other: Real) -> (less: bool)
        ensures
            less == self.below(other),
    {
        if self.bits % SIGN > INFINITY || other.bits % SIGN > INFINITY {
            return false;
        }
        if self.bits >= SIGN {
            if other.bits >= SIGN {
                self.bits > other.bits
            } else {
                self.bits > SIGN || other.bits > 0
            }
        } else {
            other.bits < SIGN && self.bits < other.bits
        }
    }

    /// Whether this number is greater than the other.
    pub fn greater_than(self, other: Real) -> (greater: bool)
        ensures
            greater == other.below(self),
    {
        other.less_than(self)
    }

    /// The number without its sign.
    pub fn abs(self) -> (result: Real)
        ensures
            result == self.magnitude(),
    {
        Real { bits: self.bits % SIGN }
    }
}

impl PartialEq for Real {
    fn eq(&self, other: &Real) -> (equal: bool) {
        if self.bits % SIGN > INFINITY || other.bits % SIGN > INFINITY {
            return false;
        }
        self.bits == other.bits || (self.bits % SIGN == 0 && other.bits % SIGN == 0)
    }
}

impl vstd::std_specs::cmp::PartialEqSpecImpl for Real {
    open spec fn obeys_eq_spec() -> bool {
        true
    }

    open spec fn eq_spec(&self, other: &Real) -> bool {
        self.equals(*other)
    }
}

/// A point in the plane.
#[derive(Copy, Clone, Debug)]
pub struct Point {
    pub x: Real,
    pub y: Real,
}

/// A vector in the plane.
#[derive(Copy, Clone, Debug)]
pub struct Vector {
    pub x: Real,
    pub y: Real,
}

/// A linear color.
#[derive(Copy, Clone, Debug)]
pub struct Color {
    pub red: Real,
    pub green: Real,
    pub blue: Real,
}

/// The point that all distances are measured from.
pub open spec fn spec_origin() -> Point {
    Point { x: Real { bits: 0 }, y: Real { bits: 0 } }
}

/// The point that all distances are measured from.
#[verifier::when_used_as_spec(spec_origin)]
pub fn origin() -> (point: Point)
    ensures
        point == spec_origin(),
{
    Point { x: Real { bits: 0 }, y: Real { bits: 0 } }
}

/// No number is less than itself, and of two unequal numbers exactly one is
/// less than the other.
pub proof fn law_order(a: Real, b: Real)
    ensures
        !a.below(a),
        !(a.below(b) && b.below(a)),
        !a.nan() && !b.nan() ==> a.below(b) || b.below(a) || a.equals(b),
        a.equals(b) == b.equals(a),
        a.equals(a) == !a.nan(),
{
}

} // verus!
