//! Image blocks: power-of-two aligned rectangular regions of the image,
//! together with the branch interval used by polar relations.

use crate::image::PixelIndex;
use vstd::arithmetic::power2::lemma_pow2_adds;
use vstd::arithmetic::power2::lemma2_to64;
use vstd::arithmetic::power2::pow2;
use vstd::bits::lemma_u32_shl_is_mul;
use vstd::bits::lemma_u32_pow2_no_overflow;
use vstd::prelude::*;

verus! {

/// The level of the smallest horizontal/vertical subdivision.
pub const MIN_K: i8 = -15;

/// The largest magnitude of a branch index that can be obtained as a singleton
/// by subdivision: 2^53 - 1, the largest odd "safe integer".
pub const MAX_DISCRETE_N_THETA: i64 = 9007199254740991;

/// A bound on the magnitude of every finite branch-interval endpoint:
/// bisection at most doubles an endpoint whose magnitude is within
/// [`MAX_DISCRETE_N_THETA`], so 2^54 is never exceeded.
pub const MAX_N_THETA_BOUND: i64 = 18014398509481984;

/// One endpoint of a [`BranchInterval`].
#[derive(Clone, Copy, Debug, Eq, PartialEq, Structural)]
pub enum BranchBound {
    /// Negative infinity.
    NegInf,
    /// A finite integer endpoint.
    Fin(i64),
    /// Positive infinity.
    PosInf,
}

/// The branch interval n_θ of a block: a nonempty closed interval of integer
/// branch indices, possibly unbounded. For non-polar relations the sentinel
/// is the entire line.
#[derive(Clone, Copy, Debug, Eq, PartialEq, Structural)]
pub struct BranchInterval {
    /// The lower endpoint.
    pub lo: BranchBound,
    /// The upper endpoint.
    pub hi: BranchBound,
}

impl BranchInterval {
    /// Well-formedness: ordered nonempty endpoints of bounded magnitude; a
    /// half-infinite interval keeps its finite endpoint away from zero, which
    /// bisection by doubling preserves.
    pub open spec fn wf(self) -> bool {
        match (self.lo, self.hi) {
            (BranchBound::NegInf, BranchBound::PosInf) => true,
            (BranchBound::NegInf, BranchBound::Fin(b)) => -MAX_N_THETA_BOUND <= b <= -1,
            (BranchBound::Fin(a), BranchBound::PosInf) => 1 <= a <= MAX_N_THETA_BOUND,
            (BranchBound::Fin(a), BranchBound::Fin(b)) => {
                &&& -MAX_N_THETA_BOUND <= a
                &&& a <= b
                &&& b <= MAX_N_THETA_BOUND
            },
            _ => false,
        }
    }

    /// The whole line: the sentinel for non-polar relations.
    pub open spec fn spec_entire() -> BranchInterval {
        BranchInterval { lo: BranchBound::NegInf, hi: BranchBound::PosInf }
    }

    /// Returns the whole line.
    pub fn entire() -> (r: Self)
        ensures
            r == Self::spec_entire(),
            r.wf(),
    {
        Self { lo: BranchBound::NegInf, hi: BranchBound::PosInf }
    }

    /// Returns the singleton interval [n, n].
    pub fn singleton(n: i64) -> (r: Self)
        requires
            -MAX_N_THETA_BOUND <= n <= MAX_N_THETA_BOUND,
        ensures
            r.lo == BranchBound::Fin(n),
            r.hi == BranchBound::Fin(n),
            r.wf(),
    {
        Self { lo: BranchBound::Fin(n), hi: BranchBound::Fin(n) }
    }

    /// Returns the interval [-∞, b].
    pub fn below(b: i64) -> (r: Self)
        requires
            -MAX_N_THETA_BOUND <= b <= -1,
        ensures
            r == (BranchInterval { lo: BranchBound::NegInf, hi: BranchBound::Fin(b) }),
            r.wf(),
    {
        Self { lo: BranchBound::NegInf, hi: BranchBound::Fin(b) }
    }

    /// Returns the interval [a, +∞].
    pub fn above(a: i64) -> (r: Self)
        requires
            1 <= a <= MAX_N_THETA_BOUND,
        ensures
            r == (BranchInterval { lo: BranchBound::Fin(a), hi: BranchBound::PosInf }),
            r.wf(),
    {
        Self { lo: BranchBound::Fin(a), hi: BranchBound::PosInf }
    }

    /// The interval holds exactly one branch index.
    pub open spec fn spec_is_singleton(self) -> bool {
        match (self.lo, self.hi) {
            (BranchBound::Fin(a), BranchBound::Fin(b)) => a == b,
            _ => false,
        }
    }

    /// Returns `true` if the interval holds exactly one branch index.
    pub fn is_singleton(&self) -> (r: bool)
        ensures
            r == self.spec_is_singleton(),
    {
        match (self.lo, self.hi) {
            (BranchBound::Fin(a), BranchBound::Fin(b)) => a == b,
            _ => false,
        }
    }

    /// The interval is the whole line.
    pub open spec fn spec_is_entire(self) -> bool {
        self == Self::spec_entire()
    }

    /// The mignitude: the smallest magnitude of any point of the interval.
    pub open spec fn spec_mig(self) -> int {
        match (self.lo, self.hi) {
            (BranchBound::Fin(a), BranchBound::Fin(b)) => {
                if a <= 0 && 0 <= b {
                    0
                } else if a > 0 {
                    a as int
                } else {
                    -(b as int)
                }
            },
            (BranchBound::NegInf, BranchBound::Fin(b)) => if b >= 0 { 0 } else { -(b as int) },
            (BranchBound::Fin(a), BranchBound::PosInf) => if a <= 0 { 0 } else { a as int },
            _ => 0,
        }
    }

    /// Returns the mignitude of the interval.
    pub fn mig(&self) -> (r: i64)
        requires
            self.wf(),
        ensures
            r == self.spec_mig(),
            r >= 0,
    {
        match (self.lo, self.hi) {
            (BranchBound::Fin(a), BranchBound::Fin(b)) => {
                if a <= 0 && 0 <= b {
                    0
                } else if a > 0 {
                    a
                } else {
                    -b
                }
            },
            (BranchBound::NegInf, BranchBound::Fin(b)) => if b >= 0 { 0 } else { -b },
            (BranchBound::Fin(a), BranchBound::PosInf) => if a <= 0 { 0 } else { a },
            _ => 0,
        }
    }

    /// The two bisection halves touch: either they share an endpoint or they
    /// are the two adjacent singletons of a two-point interval.
    pub open spec fn contiguous(a: BranchInterval, b: BranchInterval) -> bool {
        ||| a.hi == b.lo
        ||| (match (a.hi, b.lo) {
            (BranchBound::Fin(x), BranchBound::Fin(y)) => y == x + 1,
            _ => false,
        })
    }

    /// The point the subdivision rule splits at: for two adjacent integers,
    /// the lower one (the halves are the two singletons); for a half-infinite
    /// interval, the double of its finite endpoint; otherwise the midpoint,
    /// rounded toward the lower endpoint.
    pub open spec fn spec_bisection_point(self) -> BranchBound {
        match (self.lo, self.hi) {
            (BranchBound::Fin(a), BranchBound::Fin(b)) => {
                if b == a + 1 {
                    BranchBound::Fin(a)
                } else {
                    BranchBound::Fin((a + (b - a) / 2) as i64)
                }
            },
            (BranchBound::NegInf, BranchBound::Fin(b)) => BranchBound::Fin((2 * b) as i64),
            (BranchBound::Fin(a), BranchBound::PosInf) => BranchBound::Fin((2 * a) as i64),
            _ => self.hi,
        }
    }

    /// Bisects the interval following the subdivision rule: a singleton or an
    /// interval whose mignitude exceeds [`MAX_DISCRETE_N_THETA`] is kept whole;
    /// two adjacent integers yield the two singletons; a half-infinite interval
    /// is split by doubling its finite endpoint; otherwise the midpoint is used.
    pub fn bisect(&self) -> (r: (BranchInterval, Option<BranchInterval>))
        requires
            self.wf(),
            !self.spec_is_entire(),
        ensures
            r.0.wf(),
            r.0.lo == self.lo,
            !r.0.spec_is_entire(),
            match r.1 {
                Some(b) => {
                    &&& b.wf()
                    &&& !b.spec_is_entire()
                    &&& b.hi == self.hi
                    &&& BranchInterval::contiguous(r.0, b)
                },
                None => r.0 == *self,
            },
            r.1 is Some <==> (!self.spec_is_singleton() && self.spec_mig()
                <= MAX_DISCRETE_N_THETA),
            r.1 is Some ==> r.0.hi == self.spec_bisection_point()
                || (match (r.0.hi, self.spec_bisection_point()) {
                (BranchBound::Fin(x), BranchBound::Fin(y)) => x == y,
                _ => false,
            }),
    {
        if self.is_singleton() || self.mig() > MAX_DISCRETE_N_THETA {
            return (*self, None);
        }
        match (self.lo, self.hi) {
            (BranchBound::Fin(a), BranchBound::Fin(b)) => {
                if b == a + 1 {
                    (
                        Self { lo: BranchBound::Fin(a), hi: BranchBound::Fin(a) },
                        Some(Self { lo: BranchBound::Fin(b), hi: BranchBound::Fin(b) }),
                    )
                } else {
                    let mid: i64 = a + (b - a) / 2;
                    (
                        Self { lo: BranchBound::Fin(a), hi: BranchBound::Fin(mid) },
                        Some(Self { lo: BranchBound::Fin(mid), hi: BranchBound::Fin(b) }),
                    )
                }
            },
            (BranchBound::NegInf, BranchBound::Fin(b)) => {
                let mid: i64 = 2 * b;
                (
                    Self { lo: BranchBound::NegInf, hi: BranchBound::Fin(mid) },
                    Some(Self { lo: BranchBound::Fin(mid), hi: BranchBound::Fin(b) }),
                )
            },
            (BranchBound::Fin(a), BranchBound::PosInf) => {
                let mid: i64 = 2 * a;
                (
                    Self { lo: BranchBound::Fin(a), hi: BranchBound::Fin(mid) },
                    Some(Self { lo: BranchBound::Fin(mid), hi: BranchBound::PosInf }),
                )
            },
            _ => (*self, None),
        }
    }
}

/// The direction that is chosen on the next subdivision of a block.
#[derive(Clone, Copy, Debug, Eq, PartialEq, Structural)]
pub enum SubdivisionDir {
    /// Subdivide on the image plane.
    XY,
    /// Subdivide the branch interval.
    NTheta,
}

/// A rectangular region of an image with the bounds, in pixels,
/// `[x 2^kx, (x + 1) 2^kx] × [y 2^ky, (y + 1) 2^ky]`.
///
/// A block is a *superpixel* iff `kx > 0 ∨ ky > 0` (with both ≥ 0),
/// a *pixel* iff `kx = ky = 0`, and a *subpixel* iff `kx < 0 ∨ ky < 0`
/// (with both ≤ 0).
#[derive(Clone, Copy, Debug, Eq, PartialEq, Structural)]
pub struct ImageBlock {
    /// The horizontal index of the block in multiples of the block width.
    pub x: u32,
    /// The vertical index of the block in multiples of the block height.
    pub y: u32,
    /// The horizontal subdivision level.
    pub kx: i8,
    /// The vertical subdivision level.
    pub ky: i8,
    /// The branch interval n_θ for polar relations.
    pub n_theta: BranchInterval,
    /// The direction that should be chosen on the next subdivision.
    pub next_dir: SubdivisionDir,
}

impl ImageBlock {
    /// Well-formedness: levels bounded by the subdivision floor and the image
    /// size limit, both levels on the same side of zero, coordinates small
    /// enough that pixel coordinates fit in `u32`, and a well-formed branch
    /// interval.
    pub open spec fn wf(self) -> bool {
        &&& MIN_K <= self.kx <= 16
        &&& MIN_K <= self.ky <= 16
        &&& (self.kx >= 0 && self.ky >= 0) || (self.kx <= 0 && self.ky <= 0)
        &&& self.n_theta.wf()
        &&& self.x < pow2((16 - self.kx) as nat)
        &&& self.y < pow2((16 - self.ky) as nat)
    }

    /// Creates a new block with [`SubdivisionDir::XY`] as the next direction.
    pub fn new(x: u32, y: u32, kx: i8, ky: i8, n_theta: BranchInterval) -> (r: Self)
        requires
            (ImageBlock { x, y, kx, ky, n_theta, next_dir: SubdivisionDir::XY }).wf(),
        ensures
            r == (ImageBlock { x, y, kx, ky, n_theta, next_dir: SubdivisionDir::XY }),
            r.wf(),
    {
        Self { x, y, kx, ky, n_theta, next_dir: SubdivisionDir::XY }
    }

    /// Returns the width of the block in pixels, `2^kx`.
    pub fn width(&self) -> (r: u32)
        requires
            self.wf(),
            self.kx >= 0,
        ensures
            r == pow2(self.kx as nat),
    {
        proof {
            lemma_u32_pow2_no_overflow(self.kx as nat);
            lemma_u32_shl_is_mul(1u32, self.kx as u32);
        }
        1u32 << (self.kx as u32)
    }

    /// Returns the height of the block in pixels, `2^ky`.
    pub fn height(&self) -> (r: u32)
        requires
            self.wf(),
            self.ky >= 0,
        ensures
            r == pow2(self.ky as nat),
    {
        proof {
            lemma_u32_pow2_no_overflow(self.ky as nat);
            lemma_u32_shl_is_mul(1u32, self.ky as u32);
        }
        1u32 << (self.ky as u32)
    }

    /// Returns `true` if the block can be divided on the n_θ axis.
    pub fn is_subdivisible_on_n_theta(&self) -> (r: bool)
        requires
            self.n_theta.wf(),
        ensures
            r == (!self.n_theta.spec_is_singleton() && self.n_theta.spec_mig()
                <= MAX_DISCRETE_N_THETA),
    {
        !self.n_theta.is_singleton() && self.n_theta.mig() <= MAX_DISCRETE_N_THETA
    }

    /// Returns `true` if the block can be divided both horizontally and vertically.
    pub fn is_subdivisible_on_xy(&self) -> (r: bool)
        ensures
            r == (self.kx > MIN_K && self.ky > MIN_K),
    {
        self.kx > MIN_K && self.ky > MIN_K
    }

    /// Returns `true` if the block is a subpixel.
    pub fn is_subpixel(&self) -> (r: bool)
        ensures
            r == (self.kx < 0 || self.ky < 0),
    {
        self.kx < 0 || self.ky < 0
    }

    /// Returns `true` if the block is a superpixel.
    pub fn is_superpixel(&self) -> (r: bool)
        ensures
            r == (self.kx > 0 || self.ky > 0),
    {
        self.kx > 0 || self.ky > 0
    }

    /// Returns the width of a pixel in multiples of the block's width, `2^-kx`.
    pub fn pixel_align_x(&self) -> (r: u32)
        requires
            self.wf(),
            self.kx <= 0,
        ensures
            r == pow2((-self.kx) as nat),
            r >= 1,
    {
        proof {
            lemma_u32_pow2_no_overflow((-self.kx) as nat);
            lemma_u32_shl_is_mul(1u32, (-self.kx) as u32);
        }
        1u32 << ((-self.kx) as u32)
    }

    /// Returns the height of a pixel in multiples of the block's height, `2^-ky`.
    pub fn pixel_align_y(&self) -> (r: u32)
        requires
            self.wf(),
            self.ky <= 0,
        ensures
            r == pow2((-self.ky) as nat),
            r >= 1,
    {
        proof {
            lemma_u32_pow2_no_overflow((-self.ky) as nat);
            lemma_u32_shl_is_mul(1u32, (-self.ky) as u32);
        }
        1u32 << ((-self.ky) as u32)
    }

    /// The index of the pixel that contains the block, for use in specifications:
    /// `x·2^kx` for a superpixel axis and `x / 2^-kx` for a subpixel axis.
    pub open spec fn spec_pixel_index(self) -> PixelIndex {
        PixelIndex {
            x: if self.kx >= 0 {
                (self.x * pow2(self.kx as nat)) as u32
            } else {
                (self.x as int / pow2((-self.kx) as nat) as int) as u32
            },
            y: if self.ky >= 0 {
                (self.y * pow2(self.ky as nat)) as u32
            } else {
                (self.y as int / pow2((-self.ky) as nat) as int) as u32
            },
        }
    }

    /// Returns the index of the pixel that contains the block.
    /// If the block spans multiple pixels, the least index is returned.
    pub fn pixel_index(&self) -> (r: PixelIndex)
        requires
            self.wf(),
        ensures
            r == self.spec_pixel_index(),
            self.kx >= 0 ==> r.x == self.x * pow2(self.kx as nat),
            self.ky >= 0 ==> r.y == self.y * pow2(self.ky as nat),
    {
        let x: u32 = if self.kx >= 0 {
            proof {
                lemma_coord_shift_bound(self.x, self.kx);
                lemma_u32_pow2_no_overflow(self.kx as nat);
                lemma_u32_shl_is_mul(self.x, self.kx as u32);
            }
            self.x << (self.kx as u32)
        } else {
            proof {
                lemma_u32_pow2_no_overflow((-self.kx) as nat);
                vstd::bits::lemma_u32_shr_is_div(self.x, (-self.kx) as u32);
            }
            self.x >> ((-self.kx) as u32)
        };
        let y: u32 = if self.ky >= 0 {
            proof {
                lemma_coord_shift_bound(self.y, self.ky);
                lemma_u32_pow2_no_overflow(self.ky as nat);
                lemma_u32_shl_is_mul(self.y, self.ky as u32);
            }
            self.y << (self.ky as u32)
        } else {
            proof {
                lemma_u32_pow2_no_overflow((-self.ky) as nat);
                vstd::bits::lemma_u32_shr_is_div(self.y, (-self.ky) as u32);
            }
            self.y >> ((-self.ky) as u32)
        };
        PixelIndex::new(x, y)
    }

    /// Returns the pixel-level block that contains the given block.
    pub fn pixel_block(&self) -> (r: Self)
        requires
            self.wf(),
            !(self.kx > 0 || self.ky > 0),
        ensures
            r.x == self.spec_pixel_index().x,
            r.y == self.spec_pixel_index().y,
            r.kx == 0,
            r.ky == 0,
            r.n_theta == self.n_theta,
            r.next_dir == self.next_dir,
            r.wf(),
    {
        let pixel: PixelIndex = self.pixel_index();
        proof {
            lemma_pixel_index_of_subpixel_bounded(*self);
        }
        Self { x: pixel.x, y: pixel.y, kx: 0, ky: 0, n_theta: self.n_theta, next_dir: self.next_dir }
    }
}

/// A block coordinate at a nonnegative level stays under 2^16 in pixels.
pub proof fn lemma_coord_shift_bound(x: u32, k: i8)
    requires
        0 <= k <= 16,
        x < pow2((16 - k) as nat),
    ensures
        x * pow2(k as nat) < 0x1_0000,
        x * pow2(k as nat) <= 0xffff_ffff,
{
    lemma_pow2_adds((16 - k) as nat, k as nat);
    lemma2_to64();
    assert(x * pow2(k as nat) < pow2((16 - k) as nat) * pow2(k as nat)) by (nonlinear_arith)
        requires
            x < pow2((16 - k) as nat),
            pow2(k as nat) > 0,
    ;
}

/// The pixel index of a (sub)pixel block fits a zero-level block.
proof fn lemma_pixel_index_of_subpixel_bounded(b: ImageBlock)
    requires
        b.wf(),
        b.kx <= 0,
        b.ky <= 0,
    ensures
        b.spec_pixel_index().x < pow2(16),
        b.spec_pixel_index().y < pow2(16),
{
    lemma2_to64();
    if b.kx < 0 {
        assert((16 - b.kx) as nat == 16 + ((-b.kx) as nat));
        assert(b.x < pow2(16 + ((-b.kx) as nat)));
        lemma_div_bound(b.x as int, (-b.kx) as nat);
        assert(b.x as int / (pow2((-b.kx) as nat) as int) < pow2(16));
    } else {
        assert(pow2(0) == 1);
        assert(b.x * pow2(0) == b.x);
    }
    if b.ky < 0 {
        assert((16 - b.ky) as nat == 16 + ((-b.ky) as nat));
        assert(b.y < pow2(16 + ((-b.ky) as nat)));
        lemma_div_bound(b.y as int, (-b.ky) as nat);
        assert(b.y as int / (pow2((-b.ky) as nat) as int) < pow2(16));
    } else {
        assert(pow2(0) == 1);
        assert(b.y * pow2(0) == b.y);
    }
}

/// Dividing a coordinate bounded by `2^(16+k)` by `2^k` leaves it under
/// `2^16`.
proof fn lemma_div_bound(x: int, k: nat)
    requires
        0 <= x < pow2(16 + k),
    ensures
        x / (pow2(k) as int) < pow2(16),
{
    lemma_pow2_adds(16, k);
    vstd::arithmetic::power2::lemma_pow2_pos(k);
    assert(x / (pow2(k) as int) < pow2(16)) by (nonlinear_arith)
        requires
            0 <= x < pow2(16) * pow2(k),
            pow2(k) > 0,
    ;
}

} // verus!
