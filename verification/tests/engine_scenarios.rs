//! End-to-end scenarios of the refinement engine, with a small
//! floating-point interval collaborator. All the arithmetic these scenarios
//! need is exact in double precision; anything inexact is rounded outward.

use graphing::{
    BranchBound, BranchInterval, DecSignSet, Decoration, EvalResult, Graph, GraphingError,
    GraphingErrorKind,
    InexactRegion, IntervalOps, IvBits, PixelIndex, PixelState, RelOp, Relation, RelationType,
    SignSet, StaticForm, StaticFormKind, SIGN_NEG, SIGN_POS, SIGN_ZERO,
};

fn bits(x: f64) -> u64 {
    x.to_bits()
}

fn val(b: u64) -> f64 {
    f64::from_bits(b)
}

fn point(x: f64) -> IvBits {
    IvBits { lo: bits(x), hi: bits(x) }
}

fn lo_of(iv: IvBits) -> f64 {
    val(iv.lo)
}

fn hi_of(iv: IvBits) -> f64 {
    val(iv.hi)
}

fn next_up(x: f64) -> f64 {
    if x.is_nan() || x == f64::INFINITY {
        return x;
    }
    let b = if x == 0.0 { 0u64 } else { x.to_bits() };
    if (b >> 63) == 0 {
        f64::from_bits(b + 1)
    } else if b == 0x8000_0000_0000_0000 {
        f64::from_bits(1)
    } else {
        f64::from_bits(b - 1)
    }
}

fn next_down(x: f64) -> f64 {
    -next_up(-x)
}

/// The sum of `a` and `b` rounded toward the given direction, exact when
/// the double addition is exact.
fn add_dir(a: f64, b: f64, up: bool) -> f64 {
    let s = a + b;
    // the error term of double addition is exactly representable
    let bb = s - a;
    let err = (a - (s - bb)) + (b - bb);
    if err == 0.0 {
        s
    } else if up {
        if err > 0.0 { next_up(s) } else { s }
    } else {
        if err < 0.0 { next_down(s) } else { s }
    }
}

/// The product of `a` and `b` rounded toward the given direction, exact
/// when the double multiplication is exact.
fn mul_dir(a: f64, b: f64, up: bool) -> f64 {
    let p = a * b;
    let err = a.mul_add(b, -p);
    if err == 0.0 {
        p
    } else if up {
        if err > 0.0 { next_up(p) } else { p }
    } else {
        if err < 0.0 { next_down(p) } else { p }
    }
}

/// A floating-point interval collaborator over endpoint bit patterns.
struct F64Ops;

impl IntervalOps for F64Ops {
    fn mul_add(&self, a: IvBits, b: IvBits, c: IvBits) -> IvBits {
        let (al, ah) = (lo_of(a), hi_of(a));
        let (bl, bh) = (lo_of(b), hi_of(b));
        let mut lo = f64::INFINITY;
        let mut hi = f64::NEG_INFINITY;
        for &x in &[al, ah] {
            for &y in &[bl, bh] {
                let d = mul_dir(x, y, false);
                let u = mul_dir(x, y, true);
                if d < lo {
                    lo = d;
                }
                if u > hi {
                    hi = u;
                }
            }
        }
        IvBits {
            lo: bits(add_dir(lo, lo_of(c), false)),
            hi: bits(add_dir(hi, hi_of(c), true)),
        }
    }

    fn sub(&self, a: IvBits, b: IvBits) -> IvBits {
        IvBits {
            lo: bits(add_dir(lo_of(a), -hi_of(b), false)),
            hi: bits(add_dir(hi_of(a), -lo_of(b), true)),
        }
    }

    fn div(&self, a: IvBits, b: IvBits) -> IvBits {
        // only used for the pixel scale; divisors here are positive
        let (al, ah) = (lo_of(a), hi_of(a));
        let (bl, bh) = (lo_of(b), hi_of(b));
        let mut lo = f64::INFINITY;
        let mut hi = f64::NEG_INFINITY;
        for &x in &[al, ah] {
            for &y in &[bl, bh] {
                let q = x / y;
                let exact = q.mul_add(y, -x) == 0.0;
                let d = if exact { q } else { next_down(q) };
                let u = if exact { q } else { next_up(q) };
                if d < lo {
                    lo = d;
                }
                if u > hi {
                    hi = u;
                }
            }
        }
        IvBits { lo: bits(lo), hi: bits(hi) }
    }

    fn midpoint(&self, a: IvBits) -> u64 {
        bits((lo_of(a) + hi_of(a)) / 2.0)
    }
}

/// The sign set of a point residual.
fn signs_point(v: f64) -> u8 {
    if v < 0.0 {
        SIGN_NEG
    } else if v > 0.0 {
        SIGN_POS
    } else {
        SIGN_ZERO
    }
}

/// The sign set of the values a residual takes on a vertical cell,
/// treating a non-degenerate cell as open at its lower end: a line on a
/// pixel boundary belongs to the row below it.
fn signs_lower_open(lo: f64, hi: f64) -> u8 {
    if lo == hi {
        return signs_point(lo);
    }
    let mut s = 0u8;
    if lo < 0.0 {
        s |= SIGN_NEG;
    }
    if lo < 0.0 && hi >= 0.0 {
        s |= SIGN_ZERO;
    }
    if hi > 0.0 {
        s |= SIGN_POS;
    }
    s
}

/// The sign set of the values a residual takes on a closed cell.
fn signs_closed(lo: f64, hi: f64) -> u8 {
    if lo == hi {
        return signs_point(lo);
    }
    let mut s = 0u8;
    if lo < 0.0 {
        s |= SIGN_NEG;
    }
    if lo <= 0.0 && hi >= 0.0 {
        s |= SIGN_ZERO;
    }
    if hi > 0.0 {
        s |= SIGN_POS;
    }
    s
}

fn single_eq_forms() -> Vec<StaticForm> {
    vec![StaticForm { kind: StaticFormKind::Atomic(RelOp::Eq, 0, 0) }]
}

fn result_of(bits8: u8) -> EvalResult {
    EvalResult(vec![DecSignSet(SignSet::from_bits(bits8), Decoration::Com)])
}

fn result_with(bits8: u8, dec: Decoration) -> EvalResult {
    EvalResult(vec![DecSignSet(SignSet::from_bits(bits8), dec)])
}

/// The relation `y = 0`.
struct LineY0 {
    evals: usize,
}

impl Relation for LineY0 {
    fn relation_type(&self) -> RelationType {
        RelationType::FunctionOfX
    }

    fn forms(&self) -> Vec<StaticForm> {
        single_eq_forms()
    }

    fn atom_count(&self) -> usize {
        1
    }

    fn eval(&mut self, _x: IvBits, y: IvBits, _n: BranchInterval) -> EvalResult {
        self.evals += 1;
        result_of(signs_lower_open(lo_of(y), hi_of(y)))
    }

    fn eval_count(&self) -> usize {
        self.evals
    }
}

/// The relation `x ≥ 0`, as the sign of its residual: zero where it holds.
struct HalfPlane {
    evals: usize,
}

impl Relation for HalfPlane {
    fn relation_type(&self) -> RelationType {
        RelationType::Implicit
    }

    fn forms(&self) -> Vec<StaticForm> {
        vec![StaticForm { kind: StaticFormKind::Atomic(RelOp::Ge, 0, 0) }]
    }

    fn atom_count(&self) -> usize {
        1
    }

    fn eval(&mut self, x: IvBits, _y: IvBits, _n: BranchInterval) -> EvalResult {
        self.evals += 1;
        let (lo, hi) = (lo_of(x), hi_of(x));
        // residual of `x ≥ 0`: zero where the inequality holds, positive
        // where it fails; a non-degenerate cell is half-open above
        let holds_somewhere = if lo == hi { lo >= 0.0 } else { hi > 0.0 };
        let fails_somewhere = lo < 0.0;
        let mut s = 0u8;
        if holds_somewhere {
            s |= SIGN_ZERO;
        }
        if fails_somewhere {
            s |= SIGN_POS;
        }
        result_of(s)
    }

    fn eval_count(&self) -> usize {
        self.evals
    }
}

/// The relation `x² + y² = 1`.
struct Circle {
    evals: usize,
}

fn square_range(lo: f64, hi: f64) -> (f64, f64) {
    let a = lo * lo;
    let b = hi * hi;
    let top = if a > b { a } else { b };
    if lo <= 0.0 && hi >= 0.0 {
        (0.0, top)
    } else if a < b {
        (a, b)
    } else {
        (b, a)
    }
}

impl Relation for Circle {
    fn relation_type(&self) -> RelationType {
        RelationType::Implicit
    }

    fn forms(&self) -> Vec<StaticForm> {
        single_eq_forms()
    }

    fn atom_count(&self) -> usize {
        1
    }

    fn eval(&mut self, x: IvBits, y: IvBits, _n: BranchInterval) -> EvalResult {
        self.evals += 1;
        let (xl, xh) = square_range(lo_of(x), hi_of(x));
        let (yl, yh) = square_range(lo_of(y), hi_of(y));
        // every coordinate here is a small dyadic rational: the squares and
        // sums are exact doubles
        let lo = xl + yl - 1.0;
        let hi = xh + yh - 1.0;
        let mut s = 0u8;
        if lo < 0.0 {
            s |= SIGN_NEG;
        }
        if lo <= 0.0 && hi >= 0.0 {
            s |= SIGN_ZERO;
        }
        if hi > 0.0 {
            s |= SIGN_POS;
        }
        result_of(s)
    }

    fn eval_count(&self) -> usize {
        self.evals
    }
}

/// The relation `x = y`.
struct Diagonal {
    evals: usize,
}

impl Relation for Diagonal {
    fn relation_type(&self) -> RelationType {
        RelationType::FunctionOfX
    }

    fn forms(&self) -> Vec<StaticForm> {
        single_eq_forms()
    }

    fn atom_count(&self) -> usize {
        1
    }

    fn eval(&mut self, x: IvBits, y: IvBits, _n: BranchInterval) -> EvalResult {
        self.evals += 1;
        // x − y, with one unit in the last place of outward rounding, and
        // claiming only definedness, not continuity: an evaluator that
        // cannot support intermediate-value-theorem arguments
        let lo = next_down(lo_of(x) - hi_of(y));
        let hi = next_up(hi_of(x) - lo_of(y));
        result_with(signs_closed(lo, hi), Decoration::Def)
    }

    fn eval_count(&self) -> usize {
        self.evals
    }
}

/// A polar relation: `y = 0` on the branch n_θ = 0, empty on every other
/// branch. Exercises the three-seed initialization and the last-queued
/// discipline across overlapping root blocks.
struct PolarLine {
    evals: usize,
}

fn branch_contains_zero(n: BranchInterval) -> bool {
    let lo_ok = match n.lo {
        BranchBound::NegInf => true,
        BranchBound::Fin(v) => v <= 0,
        BranchBound::PosInf => false,
    };
    let hi_ok = match n.hi {
        BranchBound::NegInf => false,
        BranchBound::Fin(v) => v >= 0,
        BranchBound::PosInf => true,
    };
    lo_ok && hi_ok
}

impl Relation for PolarLine {
    fn relation_type(&self) -> RelationType {
        RelationType::Polar
    }

    fn forms(&self) -> Vec<StaticForm> {
        single_eq_forms()
    }

    fn atom_count(&self) -> usize {
        1
    }

    fn eval(&mut self, _x: IvBits, y: IvBits, n: BranchInterval) -> EvalResult {
        self.evals += 1;
        if !branch_contains_zero(n) {
            return result_of(SIGN_POS);
        }
        result_of(signs_lower_open(lo_of(y), hi_of(y)))
    }

    fn eval_count(&self) -> usize {
        self.evals
    }
}

fn region(l: f64, r: f64, b: f64, t: f64) -> InexactRegion {
    InexactRegion { l: point(l), r: point(r), b: point(b), t: point(t) }
}

fn states_grid<R: Relation, F: IntervalOps>(g: &Graph<R, F>, w: u32, h: u32) -> Vec<Vec<PixelState>> {
    let flat = {
        let mut buf: Vec<u8> = Vec::new();
        g.get_gray_alpha_image(&mut buf);
        buf
    };
    let mut rows = Vec::new();
    for oy in 0..h {
        let mut row = Vec::new();
        for x in 0..w {
            let a = flat[(2 * (oy * w + x) + 1) as usize];
            row.push(match a {
                255 => PixelState::True,
                0 => PixelState::False,
                _ => PixelState::Uncertain,
            });
        }
        rows.push(row);
    }
    rows
}

#[test]
fn axis_aligned_line() {
    let mut g = Graph::new(LineY0 { evals: 0 }, F64Ops, region(-1.0, 1.0, -1.0, 1.0), 16, 16, 1 << 30);
    let r = g.refine(60_000);
    assert_eq!(r, Ok(true));
    let grid = states_grid(&g, 16, 16);
    // output row 8 (after the bottom flip) holds the line, all else is false
    for oy in 0..16 {
        for x in 0..16 {
            let expect = if oy == 8 { PixelState::True } else { PixelState::False };
            assert_eq!(grid[oy][x as usize], expect, "row {oy} col {x}");
        }
    }
    let stats = g.get_statistics();
    assert_eq!(stats.pixels, 256);
    assert_eq!(stats.pixels_proven, 256);
}

#[test]
fn half_plane() {
    let mut g = Graph::new(HalfPlane { evals: 0 }, F64Ops, region(-1.0, 1.0, -1.0, 1.0), 16, 16, 1 << 30);
    let r = g.refine(60_000);
    assert_eq!(r, Ok(true));
    let grid = states_grid(&g, 16, 16);
    for oy in 0..16 {
        for x in 0..16 {
            let expect = if x >= 8 { PixelState::True } else { PixelState::False };
            assert_eq!(grid[oy][x], expect, "row {oy} col {x}");
        }
    }
}

#[test]
fn circle() {
    let w = 64u32;
    let mut g = Graph::new(Circle { evals: 0 }, F64Ops, region(-1.5, 1.5, -1.5, 1.5), w, w, 1 << 30);
    let r = g.refine(60_000);
    assert_eq!(r, Ok(true));
    let grid = states_grid(&g, w, w);
    let pixel_width = 3.0 / w as f64;
    let mut true_pixels = Vec::new();
    for oy in 0..w as usize {
        for x in 0..w as usize {
            // the graph-space center of the pixel (output row oy is graph row w-1-oy)
            let gy = (w as usize - 1 - oy) as f64;
            let cx = -1.5 + (x as f64 + 0.5) * pixel_width;
            let cy = -1.5 + (gy + 0.5) * pixel_width;
            let dist = (cx * cx + cy * cy).sqrt();
            match grid[oy][x] {
                PixelState::True => {
                    assert!(
                        (dist - 1.0).abs() <= std::f64::consts::SQRT_2 * pixel_width,
                        "true pixel too far from the circle at ({x},{oy}), dist {dist}"
                    );
                    true_pixels.push((x as i32, oy as i32));
                }
                PixelState::False => {
                    // the whole pixel lies outside the annulus 1 ± pixel_width
                    let half = pixel_width / 2.0;
                    let near = ((cx.abs() - half).max(0.0).powi(2)
                        + (cy.abs() - half).max(0.0).powi(2))
                    .sqrt();
                    let far = ((cx.abs() + half).powi(2) + (cy.abs() + half).powi(2)).sqrt();
                    // the pixel holds no point of the circle: it lies
                    // entirely inside or entirely outside of it
                    assert!(
                        far < 1.0 || near > 1.0,
                        "false pixel overlaps the circle at ({x},{oy})"
                    );
                }
                PixelState::Uncertain => panic!("uncertain pixel at ({x},{oy})"),
            }
        }
    }
    // the true pixels form one 8-connected loop
    assert!(!true_pixels.is_empty());
    let mut seen = std::collections::HashSet::new();
    let mut stack = vec![true_pixels[0]];
    seen.insert(true_pixels[0]);
    let set: std::collections::HashSet<_> = true_pixels.iter().copied().collect();
    while let Some((x, y)) = stack.pop() {
        for dx in -1..=1 {
            for dy in -1..=1 {
                let q = (x + dx, y + dy);
                if set.contains(&q) && !seen.contains(&q) {
                    seen.insert(q);
                    stack.push(q);
                }
            }
        }
    }
    assert_eq!(seen.len(), true_pixels.len(), "true pixels are not connected");
}

#[test]
fn subdivision_limit() {
    let tiny = (2.0f64).powi(-30);
    let mut g = Graph::new(Diagonal { evals: 0 }, F64Ops, region(0.0, tiny, 0.0, tiny), 16, 16, 1 << 30);
    let r = g.refine(60_000);
    assert_eq!(
        r.map_err(|e| e.kind),
        Err(GraphingErrorKind::ReachedSubdivisionLimit)
    );
    let grid = states_grid(&g, 16, 16);
    // the diagonal pixels stay uncertain: the relation can never be settled
    // there at any subdivision depth
    for i in 0..16usize {
        let oy = 15 - i;
        assert_eq!(grid[oy][i], PixelState::Uncertain, "diagonal pixel {i}");
        assert_ne!(grid[oy][i], PixelState::False);
    }
}

#[test]
fn polar_seeding() {
    let mut g = Graph::new(PolarLine { evals: 0 }, F64Ops, region(-1.0, 1.0, -1.0, 1.0), 16, 16, 1 << 30);
    let r = g.refine(60_000);
    assert_eq!(r, Ok(true));
    let grid = states_grid(&g, 16, 16);
    for oy in 0..16 {
        for x in 0..16 {
            let expect = if oy == 8 { PixelState::True } else { PixelState::False };
            assert_eq!(grid[oy][x], expect, "row {oy} col {x}");
        }
    }
}

#[test]
fn statistics_and_rgb_render() {
    let mut g = Graph::new(LineY0 { evals: 0 }, F64Ops, region(-1.0, 1.0, -1.0, 1.0), 16, 16, 1 << 30);
    let before = g.get_statistics();
    assert_eq!(before.pixels, 256);
    assert_eq!(before.pixels_proven, 0);
    let _ = g.refine(60_000);
    let after = g.get_statistics();
    assert_eq!(after.pixels_proven, 256);
    assert!(after.eval_count > 0);
    let mut rgb: Vec<u8> = Vec::new();
    g.get_image(&mut rgb);
    assert_eq!(rgb.len(), 256 * 3);
    // the row holding the line is black, the rest is white
    for oy in 0..16usize {
        for x in 0..16usize {
            let k = 3 * (oy * 16 + x);
            if oy == 8 {
                assert_eq!(&rgb[k..k + 3], &[0, 0, 0]);
            } else {
                assert_eq!(&rgb[k..k + 3], &[255, 255, 255]);
            }
        }
    }
}

#[test]
fn memory_limit() {
    // a zero memory budget fails with the memory error after the one
    // permitted cache flush
    let mut g = Graph::new(LineY0 { evals: 0 }, F64Ops, region(-1.0, 1.0, -1.0, 1.0), 16, 16, 0);
    let r = g.refine(60_000);
    assert_eq!(r.map_err(|e| e.kind), Err(GraphingErrorKind::ReachedMemLimit));
}

#[test]
fn error_messages() {
    assert_eq!(
        GraphingError { kind: GraphingErrorKind::BlockIndexOverflow }.message(),
        "block index overflow"
    );
    assert_eq!(
        GraphingError { kind: GraphingErrorKind::ReachedMemLimit }.message(),
        "reached the memory usage limit"
    );
    assert_eq!(
        GraphingError { kind: GraphingErrorKind::ReachedSubdivisionLimit }.message(),
        "reached the subdivision limit"
    );
}

/// The relation `lcm(x, y) <= 1`, with `lcm` extended to the reals as
/// `|x y| / gcd(x, y)`: it is 0 whenever either coordinate is 0, and at
/// least `max(|x|, |y|)` when both are nonzero. The evaluator encloses the
/// residual `lcm(x, y) - 1` soundly: on a box that meets an axis every sign
/// is possible, away from the axes the bound `lcm >= max(min |x|, min |y|)`
/// decides the far pixels.
struct LcmCusp {
    evals: usize,
}

fn min_abs_over(lo: f64, hi: f64) -> f64 {
    if lo <= 0.0 && 0.0 <= hi {
        0.0
    } else {
        lo.abs().min(hi.abs())
    }
}

impl Relation for LcmCusp {
    fn relation_type(&self) -> RelationType {
        RelationType::Implicit
    }

    fn forms(&self) -> Vec<StaticForm> {
        vec![StaticForm { kind: StaticFormKind::Atomic(RelOp::Le, 0, 0) }]
    }

    fn atom_count(&self) -> usize {
        1
    }

    fn eval(&mut self, x: IvBits, y: IvBits, _n: BranchInterval) -> EvalResult {
        self.evals += 1;
        let (xl, xh) = (lo_of(x), hi_of(x));
        let (yl, yh) = (lo_of(y), hi_of(y));
        if xl == xh && yl == yh {
            // a point: the value is exact on an axis, unresolved elsewhere
            if xl == 0.0 || yl == 0.0 {
                // lcm(x, 0) = 0, so the residual is exactly -1
                return result_of(SIGN_NEG);
            }
            return result_with(SIGN_NEG | SIGN_ZERO | SIGN_POS, Decoration::Trv);
        }
        let mx = min_abs_over(xl, xh);
        let my = min_abs_over(yl, yh);
        if mx == 0.0 || my == 0.0 {
            // the box meets an axis: lcm reaches 0 there and grows unboundedly
            // beside it, so the residual takes every sign
            return result_of(SIGN_NEG | SIGN_ZERO | SIGN_POS);
        }
        // away from the axes lcm(x, y) >= max(|x|, |y|) >= max(mx, my)
        if mx.max(my) > 1.0 {
            result_of(SIGN_POS)
        } else {
            result_of(SIGN_NEG | SIGN_ZERO | SIGN_POS)
        }
    }

    fn eval_count(&self) -> usize {
        self.evals
    }
}

#[test]
fn lcm_cusp_inequality() {
    let w = 32u32;
    let mut g = Graph::new(
        LcmCusp { evals: 0 },
        F64Ops,
        region(-2.0, 2.0, -2.0, 2.0),
        w,
        w,
        1 << 30,
    );
    // the axis pixels never settle, so refinement stops on the timeout or on
    // the subpixel floor; either way no sound engine can prove them false
    let r = g.refine(500);
    match r {
        Ok(_) => {}
        Err(e) => assert_eq!(e.kind, GraphingErrorKind::ReachedSubdivisionLimit),
    }
    let grid = states_grid(&g, w, w);
    // no False pixel overlaps the lattice points (+-1, 0), (0, +-1): each
    // lies on a corner shared by four pixels
    for &(px, py) in &[(1.0f64, 0.0f64), (-1.0, 0.0), (0.0, 1.0), (0.0, -1.0)] {
        let cx = ((px + 2.0) * 8.0) as i64;
        let cy = ((py + 2.0) * 8.0) as i64;
        for &x in &[cx - 1, cx] {
            for &y in &[cy - 1, cy] {
                let oy = (31 - y) as usize;
                assert_ne!(
                    grid[oy][x as usize],
                    PixelState::False,
                    "pixel ({x}, {y}) by the lattice point ({px}, {py})"
                );
            }
        }
    }
    // far from both axes the bound proves the relation false
    assert_eq!(grid[0][31], PixelState::False);
    assert_eq!(grid[31][0], PixelState::False);
    assert_eq!(grid[0][0], PixelState::False);
    assert_eq!(grid[31][31], PixelState::False);
}
