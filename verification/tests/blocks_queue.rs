//! Tests of image blocks, the delta-compressed block queue, inexact
//! regions, rationals and the engine's resource errors.

use graphing::{
    BranchBound, BranchInterval, ImageBlock, ImageBlockQueue, InexactRegion, IvBits, PixelIndex,
    Rational, Region, SubdivisionDir,
};

fn entire() -> BranchInterval {
    BranchInterval::entire()
}

fn block(x: u32, y: u32, kx: i8, ky: i8, n_theta: BranchInterval) -> ImageBlock {
    ImageBlock { x, y, kx, ky, n_theta, next_dir: SubdivisionDir::XY }
}

#[test]
fn image_block() {
    let b = ImageBlock::new(42, 42, 3, 5, entire());
    assert_eq!(b.width(), 8);
    assert_eq!(b.height(), 32);
    assert_eq!(b.pixel_index(), PixelIndex::new(336, 1344));
    assert!(b.is_superpixel());
    assert!(!b.is_subpixel());

    let b = ImageBlock::new(42, 42, 0, 0, entire());
    assert_eq!(b.width(), 1);
    assert_eq!(b.height(), 1);
    assert_eq!(b.pixel_align_x(), 1);
    assert_eq!(b.pixel_align_y(), 1);
    assert_eq!(b.pixel_block(), b);
    assert_eq!(b.pixel_index(), PixelIndex::new(42, 42));
    assert!(!b.is_superpixel());
    assert!(!b.is_subpixel());

    let b = ImageBlock::new(42, 42, -3, -5, entire());
    assert_eq!(b.pixel_align_x(), 8);
    assert_eq!(b.pixel_align_y(), 32);
    assert_eq!(b.pixel_block(), ImageBlock::new(5, 1, 0, 0, entire()));
    assert_eq!(b.pixel_index(), PixelIndex::new(5, 1));
    assert!(!b.is_superpixel());
    assert!(b.is_subpixel());
}

#[test]
fn image_block_queue() {
    let mut queue = ImageBlockQueue::new(false);
    let blocks = [
        block(0, 0xffffffff, -128, -64, entire()),
        block(0x7f, 0x10000000, -32, 0, entire()),
        block(0x80, 0xfffffff, 0, 32, entire()),
        block(0x3fff, 0x200000, 64, 127, entire()),
        block(0x4000, 0x1fffff, 0, 0, entire()),
        block(0x1fffff, 0x4000, 0, 0, entire()),
        block(0x200000, 0x3fff, 0, 0, entire()),
        block(0xfffffff, 0x80, 0, 0, entire()),
        block(0x10000000, 0x7f, 0, 0, entire()),
        block(0xffffffff, 0, 0, 0, entire()),
    ];
    for (i, b) in blocks.iter().copied().enumerate() {
        let back_index = queue.push_back(b);
        assert_eq!(back_index, i);
    }
    for (i, b) in blocks.iter().copied().enumerate() {
        let (front_index, front) = queue.pop_front().unwrap();
        assert_eq!(front_index, i);
        assert_eq!(front, b);
    }
    assert!(queue.is_empty());

    let mut queue = ImageBlockQueue::new(true);
    let b1 = block(
        0,
        0,
        0,
        0,
        BranchInterval { lo: BranchBound::Fin(-2), hi: BranchBound::Fin(3) },
    );
    let b2 = ImageBlock { next_dir: SubdivisionDir::NTheta, ..b1 };
    queue.push_back(b1);
    queue.push_back(b2);
    assert_eq!(queue.pop_front().unwrap().1, b1);
    assert_eq!(queue.pop_front().unwrap().1, b2);
}

fn iv(a: f64, b: f64) -> IvBits {
    IvBits { lo: a.to_bits(), hi: b.to_bits() }
}

#[test]
fn inexact_region() {
    let u = InexactRegion::new(
        iv(0.33, 0.34),
        iv(0.66, 0.67),
        iv(1.33, 1.34),
        iv(1.66, 1.67),
    );

    assert_eq!(
        u.inner(),
        Region { x: iv(0.34, 0.66), y: iv(1.34, 1.66), empty: false }
    );

    let outer = u.outer();
    assert_eq!(outer.x, iv(0.33, 0.67));
    assert_eq!(outer.y, iv(1.33, 1.67));
    assert!(!outer.empty);

    let u = InexactRegion::new(
        iv(0.33, 0.66),
        iv(0.34, 0.67),
        iv(1.33, 1.66),
        iv(1.34, 1.67),
    );

    assert!(u.inner().is_empty());

    let outer = u.outer();
    assert_eq!(outer.x, iv(0.33, 0.67));
    assert_eq!(outer.y, iv(1.33, 1.67));
}

#[test]
fn subpixel_outer_sides() {
    // a side on a pixel boundary keeps its pessimistic bound; an interior
    // side is split at the midpoint the collaborator picks
    let u = InexactRegion::new(
        iv(0.33, 0.34),
        iv(0.66, 0.67),
        iv(1.33, 1.34),
        iv(1.66, 1.67),
    );
    let g = graphing::Graph::new(
        NoRelation,
        Mid,
        InexactRegion { l: iv(0.0, 0.0), r: iv(1.0, 1.0), b: iv(0.0, 0.0), t: iv(1.0, 1.0) },
        16,
        16,
        1 << 30,
    );

    // the bottom and left sides are pixel boundaries
    let b = ImageBlock::new(4, 8, -2, -2, entire());
    let u_up = g.subpixel_outer(&u, &b);
    assert_eq!(u_up.x.lo, u.l.lo);
    assert_eq!(u_up.x.hi, 0.665f64.to_bits());
    assert_eq!(u_up.y.lo, u.b.lo);
    assert_eq!(u_up.y.hi, 1.665f64.to_bits());

    // the top and right sides are pixel boundaries
    let b = ImageBlock::new(4 + 3, 8 + 3, -2, -2, entire());
    let u_up = g.subpixel_outer(&u, &b);
    assert_eq!(u_up.x.lo, 0.335f64.to_bits());
    assert_eq!(u_up.x.hi, u.r.hi);
    assert_eq!(u_up.y.lo, 1.335f64.to_bits());
    assert_eq!(u_up.y.hi, u.t.hi);
}

struct NoRelation;

impl graphing::Relation for NoRelation {
    fn relation_type(&self) -> graphing::RelationType {
        graphing::RelationType::Implicit
    }

    fn forms(&self) -> Vec<graphing::StaticForm> {
        Vec::new()
    }

    fn atom_count(&self) -> usize {
        0
    }

    fn eval(
        &mut self,
        _x: IvBits,
        _y: IvBits,
        _n: BranchInterval,
    ) -> graphing::EvalResult {
        graphing::EvalResult(Vec::new())
    }

    fn eval_count(&self) -> usize {
        0
    }
}

struct Mid;

impl graphing::IntervalOps for Mid {
    fn mul_add(&self, _a: IvBits, _b: IvBits, c: IvBits) -> IvBits {
        c
    }

    fn sub(&self, a: IvBits, _b: IvBits) -> IvBits {
        a
    }

    fn div(&self, a: IvBits, _b: IvBits) -> IvBits {
        a
    }

    fn midpoint(&self, a: IvBits) -> u64 {
        ((f64::from_bits(a.lo) + f64::from_bits(a.hi)) / 2.0).to_bits()
    }
}

#[test]
fn region_intersection() {
    let a = Region { x: iv(0.0, 2.0), y: iv(0.0, 2.0), empty: false };
    let b = Region { x: iv(1.0, 3.0), y: iv(-1.0, 1.0), empty: false };
    let c = a.intersection(&b);
    assert!(!c.empty);
    assert_eq!(c.x, iv(1.0, 2.0));
    assert_eq!(c.y, iv(0.0, 1.0));
    let d = Region { x: iv(5.0, 6.0), y: iv(0.0, 1.0), empty: false };
    assert!(a.intersection(&d).is_empty());
}

#[test]
fn branch_interval_bisection() {
    // adjacent integers split into the two singletons
    let n = BranchInterval { lo: BranchBound::Fin(4), hi: BranchBound::Fin(5) };
    let (a, b) = n.bisect();
    assert_eq!(a, BranchInterval { lo: BranchBound::Fin(4), hi: BranchBound::Fin(4) });
    assert_eq!(b, Some(BranchInterval { lo: BranchBound::Fin(5), hi: BranchBound::Fin(5) }));

    // a half-infinite interval splits by doubling its finite endpoint
    let n = BranchInterval::above(1);
    let (a, b) = n.bisect();
    assert_eq!(a, BranchInterval { lo: BranchBound::Fin(1), hi: BranchBound::Fin(2) });
    assert_eq!(b, Some(BranchInterval { lo: BranchBound::Fin(2), hi: BranchBound::PosInf }));

    let n = BranchInterval::below(-1);
    let (a, b) = n.bisect();
    assert_eq!(a, BranchInterval { lo: BranchBound::NegInf, hi: BranchBound::Fin(-2) });
    assert_eq!(b, Some(BranchInterval { lo: BranchBound::Fin(-2), hi: BranchBound::Fin(-1) }));

    // a singleton is kept whole
    let n = BranchInterval::singleton(0);
    let (a, b) = n.bisect();
    assert_eq!(a, n);
    assert_eq!(b, None);

    // a finite range splits at its midpoint
    let n = BranchInterval { lo: BranchBound::Fin(0), hi: BranchBound::Fin(8) };
    let (a, b) = n.bisect();
    assert_eq!(a, BranchInterval { lo: BranchBound::Fin(0), hi: BranchBound::Fin(4) });
    assert_eq!(b, Some(BranchInterval { lo: BranchBound::Fin(4), hi: BranchBound::Fin(8) }));
}

#[test]
fn rational_arithmetic() {
    // construction reduces to lowest terms
    let r = Rational::make(4, 2).unwrap();
    assert_eq!((r.num, r.den), (2, 1));
    let r = Rational::make(-6, -4).unwrap();
    assert_eq!((r.num, r.den), (3, 2));
    let r = Rational::make(6, -4).unwrap();
    assert_eq!((r.num, r.den), (-3, 2));

    let a = Rational::make(1, 2).unwrap();
    let b = Rational::make(1, 3).unwrap();
    let s = a.add(&b).unwrap();
    assert_eq!((s.num, s.den), (5, 6));
    let p = a.mul(&b).unwrap();
    assert_eq!((p.num, p.den), (1, 6));

    // exact integer powers, with failure instead of overflow
    let two = Rational::from_int(2);
    let p = two.pow_int(10).unwrap();
    assert_eq!((p.num, p.den), (1024, 1));
    let p = two.pow_int(-2).unwrap();
    assert_eq!((p.num, p.den), (1, 4));
    assert_eq!(two.pow_int(200), None);
    assert_eq!(Rational::from_int(0).recip(), None);

    assert!(Rational::make(1, 3).unwrap().lt(&Rational::make(1, 2).unwrap()));
}
