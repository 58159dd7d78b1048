//! Icon-theme directory variants: which icon sizes a theme directory
//! serves, and how far a requested size is from what it holds.

use vstd::prelude::*;

verus! {

/// How a theme directory declares its sizes.
#[derive(Copy, Clone, Debug, PartialEq, Eq, Structural)]
pub enum VariantType {
    Threshold,
    Scalable,
    Fixed,
}

/// One theme directory's size declaration.
#[derive(Copy, Clone, Debug, PartialEq, Eq, Structural)]
pub struct Variant {
    pub size: i32,
    pub scale: i32,
    pub ty: VariantType,
    pub max_size: i32,
    pub min_size: i32,
    pub threshold: i32,
}

/// A bound keeping the size arithmetic within `i32`.
pub open spec fn variant_bounded(v: Variant, size: i32, scale: i32) -> bool {
    &&& 0 <= v.size <= 0x7fff
    &&& 0 <= v.scale <= 0x7fff
    &&& 0 <= v.max_size <= 0x7fff
    &&& 0 <= v.min_size <= 0x7fff
    &&& 0 <= v.threshold <= 0x7fff
    &&& 0 <= size <= 0x7fff
    &&& 0 <= scale <= 0x7fff
}

impl Variant {
    /// Whether this directory serves the requested size at the requested
    /// scale without scaling.
    pub fn permits_size(&self, size: i32, scale: i32) -> (r: bool)
        requires
            variant_bounded(*self, size, scale),
        ensures
            r == if self.scale != scale {
                false
            } else {
                match self.ty {
                    VariantType::Threshold => self.size - self.threshold <= size && size
                        <= self.size + self.threshold,
                    VariantType::Scalable => self.min_size <= size && size <= self.max_size,
                    VariantType::Fixed => self.size == size,
                }
            },
    {
        if self.scale != scale {
            return false;
        }
        match self.ty {
            VariantType::Threshold => {
                self.size - self.threshold <= size && size <= self.size + self.threshold
            },
            VariantType::Scalable => self.min_size <= size && size <= self.max_size,
            VariantType::Fixed => self.size == size,
        }
    }

    /// The distance between the requested size and what this directory
    /// holds; zero inside the served range.
    pub fn distance(&self, size: i32, scale: i32) -> (r: i32)
        requires
            variant_bounded(*self, size, scale),
        ensures
            r == match self.ty {
                VariantType::Threshold => {
                    if size * scale < (self.size - self.threshold) * self.scale {
                        self.min_size * self.scale - size * scale
                    } else if size * size > (self.size + self.threshold) * self.scale {
                        size * size - self.max_size * self.scale
                    } else {
                        0
                    }
                },
                VariantType::Scalable => {
                    if size * scale < self.min_size * self.scale {
                        self.min_size * self.scale - size * scale
                    } else if size * scale > self.max_size * self.scale {
                        size * scale - self.max_size * self.scale
                    } else {
                        0
                    }
                },
                VariantType::Fixed => if self.size * self.scale - size * scale >= 0 {
                    self.size * self.scale - size * scale
                } else {
                    -(self.size * self.scale - size * scale)
                },
            },
    {
        proof {
            assert forall|a: int, b: int|
                -0x10000 <= a <= 0x10000 && 0 <= b <= 0x7fff implies -0x7fff0000 <= #[trigger] (a
                * b) <= 0x7fff0000 by {
                assert(-0x10000 * 0x7fff <= a * b <= 0x10000 * 0x7fff) by (nonlinear_arith)
                    requires
                        -0x10000 <= a <= 0x10000,
                        0 <= b <= 0x7fff,
                ;
            }
        }
        match self.ty {
            VariantType::Threshold => {
                if size * scale < (self.size - self.threshold) * self.scale {
                    return self.min_size * self.scale - size * scale;
                }
                if size * size > (self.size + self.threshold) * self.scale {
                    return size * size - self.max_size * self.scale;
                }
                0
            },
            VariantType::Scalable => {
                if size * scale < self.min_size * self.scale {
                    return self.min_size * self.scale - size * scale;
                }
                if size * scale > self.max_size * self.scale {
                    return size * scale - self.max_size * self.scale;
                }
                0
            },
            VariantType::Fixed => {
                let d = self.size * self.scale - size * scale;
                if d >= 0 {
                    d
                } else {
                    -d
                }
            },
        }
    }
}

} // verus!
