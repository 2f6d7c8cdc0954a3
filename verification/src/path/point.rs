//! Canonical point types.
//!
//! All other point representations (the parser's text coordinates, the
//! geometry crates' point types) convert to and from these.  A coordinate is
//! the raw bit pattern of an IEEE-754 value, so points can be stored and
//! compared structurally in verified code.

use vstd::prelude::*;

verus! {

/// A canonical 2D point; each coordinate is the bit pattern of an IEEE-754
/// single-precision value.
#[derive(Debug, Clone, Copy, PartialEq, Eq, Structural)]
pub struct Point {
    pub x: u32,
    pub y: u32,
}

/// A 2D point of the offset engine; each coordinate is the bit pattern of an
/// IEEE-754 double-precision value.
#[derive(Debug, Clone, Copy, PartialEq, Eq, Structural)]
pub struct Coord {
    pub x: u64,
    pub y: u64,
}

impl Point {
    /// True iff both coordinates encode finite singles.
    pub open spec fn spec_is_finite(&self) -> bool {
        crate::float_bits::spec_is_finite32(self.x) && crate::float_bits::spec_is_finite32(self.y)
    }

    /// Exec check that both coordinates are finite.
    pub fn is_finite(&self) -> (r: bool)
        ensures
            r == self.spec_is_finite(),
    {
        crate::float_bits::is_finite32(self.x) && crate::float_bits::is_finite32(self.y)
    }
}

impl Coord {
    /// True iff either coordinate is a double-precision NaN pattern.
    pub open spec fn spec_has_nan(&self) -> bool {
        crate::float_bits::spec_is_nan64(self.x) || crate::float_bits::spec_is_nan64(self.y)
    }

    /// Exec check for a NaN coordinate.
    pub fn has_nan(&self) -> (r: bool)
        ensures
            r == self.spec_has_nan(),
    {
        crate::float_bits::is_nan64(self.x) || crate::float_bits::is_nan64(self.y)
    }

    /// IEEE-754 equality of two coords, coordinate by coordinate.
    pub open spec fn spec_f64_eq(&self, other: &Coord) -> bool {
        crate::float_bits::spec_f64_eq(self.x, other.x) && crate::float_bits::spec_f64_eq(
            self.y,
            other.y,
        )
    }

    /// Exec IEEE-754 equality of two coords.
    pub fn f64_eq(&self, other: &Coord) -> (r: bool)
        ensures
            r == self.spec_f64_eq(other),
    {
        crate::float_bits::f64_eq(self.x, other.x) && crate::float_bits::f64_eq(self.y, other.y)
    }
}

} // verus!
