//! Fractional output scales and the logical/physical coordinate split.
//!
//! A compositor reports a fractional scale as an integer number of 120ths.
//! Logical sizes are converted to physical pixel sizes by multiplying with
//! the scale and rounding to the nearest pixel.

use vstd::prelude::*;

verus! {

/// A fractional scale, expressed in 120ths (240 means 2x).
#[derive(Copy, Clone, Debug, Eq, PartialEq, Structural)]
pub struct Scale(pub i32);

/// A size in logical (scale-independent) coordinates.
#[derive(Copy, Clone, Debug, Eq, PartialEq, Structural)]
pub struct Logical(pub i32, pub i32);

/// A size in physical pixels.
#[derive(Copy, Clone, Debug, Eq, PartialEq, Structural)]
pub struct Physical(pub i32, pub i32);

impl Scale {
    /// The smallest integer scale that covers this fractional scale.
    pub fn round_up(self) -> (r: i32)
        requires
            0 <= self.0 <= i32::MAX - 119,
        ensures
            r == (self.0 + 119) / 120,
            self.0 % 120 == 0 ==> r == self.0 / 120,
    {
        (self.0 + 119) / 120
    }
}

impl Logical {
    /// Converts a logical size to physical pixels, rounding to nearest.
    pub fn to_physical(self, scale: Scale) -> (p: Physical)
        requires
            0 <= self.0,
            0 <= self.1,
            0 <= scale.0,
            self.0 * scale.0 + 60 <= i32::MAX,
            self.1 * scale.0 + 60 <= i32::MAX,
        ensures
            p.0 == (self.0 * scale.0 + 60) / 120,
            p.1 == (self.1 * scale.0 + 60) / 120,
    {
        proof {
            assert(self.0 * scale.0 >= 0 && self.1 * scale.0 >= 0) by (nonlinear_arith)
                requires
                    0 <= self.0,
                    0 <= self.1,
                    0 <= scale.0,
            ;
        }
        Physical((self.0 * scale.0 + 60) / 120, (self.1 * scale.0 + 60) / 120)
    }
}

impl Physical {
    /// The width/height pair of this size.
    pub fn size(self) -> (s: (i32, i32))
        ensures
            s.0 == self.0,
            s.1 == self.1,
    {
        (self.0, self.1)
    }
}

} // verus!
