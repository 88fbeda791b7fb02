//! Intervals carried as IEEE-754 bit patterns, and the regions the engine
//! builds from them.
//!
//! The engine never performs floating-point arithmetic itself: interval
//! endpoints are opaque 64-bit patterns that the interval-arithmetic
//! collaborator produces and consumes, and the engine only rearranges them,
//! compares them by the monotone total-order key of IEEE-754, and uses them
//! as cache keys — which is exactly what the bit patterns are for.

use vstd::prelude::*;

verus! {

/// A nonempty closed interval of reals, as the IEEE-754 bit patterns of its
/// two endpoints.
#[derive(Clone, Copy, Debug, Eq, Hash, PartialEq, Structural)]
pub struct IvBits {
    /// The bit pattern of the lower endpoint.
    pub lo: u64,
    /// The bit pattern of the upper endpoint.
    pub hi: u64,
}

impl IvBits {
    /// The point interval at the given bit pattern.
    pub fn point(bits: u64) -> (r: Self)
        ensures
            r == (IvBits { lo: bits, hi: bits }),
    {
        Self { lo: bits, hi: bits }
    }
}

/// The order key of an IEEE-754 bit pattern: a map into the integers that is
/// monotone in the represented value (for non-NaN patterns, with the two
/// zeros ordered negative first).
pub open spec fn spec_f64_key(bits: u64) -> int {
    if bits >= 0x8000_0000_0000_0000 {
        -((bits - 0x8000_0000_0000_0000) as int)
    } else {
        bits as int
    }
}

/// Compares two endpoint bit patterns by the IEEE-754 order key.
pub fn f64_key_le(a: u64, b: u64) -> (r: bool)
    ensures
        r == (spec_f64_key(a) <= spec_f64_key(b)),
{
    let sa = a >= 0x8000_0000_0000_0000;
    let sb = b >= 0x8000_0000_0000_0000;
    if sa != sb {
        // the two zeros compare equal under the key only when `a` is +0 and
        // `b` is −0; otherwise the signs decide
        sa || (a == 0 && b == 0x8000_0000_0000_0000)
    } else if sa {
        b <= a
    } else {
        a <= b
    }
}

/// A possibly empty rectangular region of the Cartesian plane.
#[derive(Clone, Copy, Debug, Eq, PartialEq, Structural)]
pub struct Region {
    /// The horizontal extent.
    pub x: IvBits,
    /// The vertical extent.
    pub y: IvBits,
    /// Whether the region is empty.
    pub empty: bool,
}

impl Region {
    /// Returns `true` if the region is empty.
    pub fn is_empty(&self) -> (r: bool)
        ensures
            r == self.empty,
    {
        self.empty
    }

    /// Returns the intersection of the regions, comparing endpoints by the
    /// IEEE-754 order key.
    pub fn intersection(&self, rhs: &Self) -> (r: Self)
        ensures
            !r.empty ==> !self.empty && !rhs.empty,
            !r.empty ==> r.x == (IvBits {
                lo: if spec_f64_key(self.x.lo) >= spec_f64_key(rhs.x.lo) {
                    self.x.lo
                } else {
                    rhs.x.lo
                },
                hi: if spec_f64_key(self.x.hi) <= spec_f64_key(rhs.x.hi) {
                    self.x.hi
                } else {
                    rhs.x.hi
                },
            }),
    {
        if self.empty || rhs.empty {
            return Region { x: self.x, y: self.y, empty: true };
        }
        let x_lo = if f64_key_le(rhs.x.lo, self.x.lo) {
            self.x.lo
        } else {
            rhs.x.lo
        };
        let x_hi = if f64_key_le(self.x.hi, rhs.x.hi) {
            self.x.hi
        } else {
            rhs.x.hi
        };
        let y_lo = if f64_key_le(rhs.y.lo, self.y.lo) {
            self.y.lo
        } else {
            rhs.y.lo
        };
        let y_hi = if f64_key_le(self.y.hi, rhs.y.hi) {
            self.y.hi
        } else {
            rhs.y.hi
        };
        let empty = !f64_key_le(x_lo, x_hi) || !f64_key_le(y_lo, y_hi);
        Region {
            x: IvBits { lo: x_lo, hi: x_hi },
            y: IvBits { lo: y_lo, hi: y_hi },
            empty,
        }
    }
}

/// A rectangular region with inexact bounds: each of the four sides is an
/// interval, so an inner region (contained in the true region) and an outer
/// region (containing it) can both be read off.
#[derive(Clone, Copy, Debug, Eq, PartialEq, Structural)]
pub struct InexactRegion {
    /// The left bound.
    pub l: IvBits,
    /// The right bound.
    pub r: IvBits,
    /// The bottom bound.
    pub b: IvBits,
    /// The top bound.
    pub t: IvBits,
}

impl InexactRegion {
    /// Creates a new [`InexactRegion`] with the given bounds. The left
    /// bound must not start beyond the right bound's end, nor the bottom
    /// beyond the top's, under the IEEE-754 order key.
    pub fn new(l: IvBits, r: IvBits, b: IvBits, t: IvBits) -> (rr: Self)
        requires
            spec_f64_key(l.lo) <= spec_f64_key(r.hi),
            spec_f64_key(b.lo) <= spec_f64_key(t.hi),
        ensures
            rr == (InexactRegion { l, r, b, t }),
    {
        Self { l, r, b, t }
    }

    /// Returns the outer region: the pessimistic bounds of each side.
    pub fn outer(&self) -> (rr: Region)
        ensures
            rr == (Region {
                x: IvBits { lo: self.l.lo, hi: self.r.hi },
                y: IvBits { lo: self.b.lo, hi: self.t.hi },
                empty: false,
            }),
    {
        Region {
            x: IvBits { lo: self.l.lo, hi: self.r.hi },
            y: IvBits { lo: self.b.lo, hi: self.t.hi },
            empty: false,
        }
    }

    /// Returns the inner region: the optimistic bounds of each side, empty
    /// when they cross.
    pub fn inner(&self) -> (rr: Region)
        ensures
            rr.empty == !(spec_f64_key(self.l.hi) <= spec_f64_key(self.r.lo) && spec_f64_key(
                self.b.hi,
            ) <= spec_f64_key(self.t.lo)),
            !rr.empty ==> rr == (Region {
                x: IvBits { lo: self.l.hi, hi: self.r.lo },
                y: IvBits { lo: self.b.hi, hi: self.t.lo },
                empty: false,
            }),
    {
        let x_ok = f64_key_le(self.l.hi, self.r.lo);
        let y_ok = f64_key_le(self.b.hi, self.t.lo);
        Region {
            x: IvBits { lo: self.l.hi, hi: self.r.lo },
            y: IvBits { lo: self.b.hi, hi: self.t.lo },
            empty: !(x_ok && y_ok),
        }
    }
}

} // verus!
