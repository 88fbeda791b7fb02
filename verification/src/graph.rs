//! The adaptive refinement engine: subdivides image blocks, classifies each
//! by interval evaluation of the relation, and settles pixels.

use crate::block::BranchInterval;
use crate::block::ImageBlock;
use crate::block::SubdivisionDir;
use crate::block::MAX_DISCRETE_N_THETA;
use crate::block::MAX_N_THETA_BOUND;
use crate::block::MIN_K;
use crate::eval::spec_eval_form;
use crate::eval::spec_forms_wf;
use crate::eval::DecSignSet;
use crate::eval::Decoration;
use crate::eval::EvalResult;
use crate::eval::EvalResultMask;
use crate::eval::SignSet;
use crate::eval::StaticForm;
use crate::eval::StaticFormKind;
use crate::image::Image;
use crate::image::PixelIndex;
use crate::image::PixelState;
use crate::image::QueuedBlockIndex;
use crate::image::MAX_IMAGE_WIDTH;
use crate::interval::spec_f64_key;
use crate::interval::IvBits;
use crate::interval::Region;
use crate::queue::ImageBlockQueue;
use std::collections::HashMap;
use std::time::Instant;
use vstd::prelude::*;

verus! {

/// How the relation constrains its variables.
#[derive(Clone, Copy, Debug, Eq, PartialEq, Structural)]
pub enum RelationType {
    /// A general implicit relation over x and y.
    Implicit,
    /// The relation determines y from x.
    FunctionOfX,
    /// The relation determines x from y.
    FunctionOfY,
    /// A polar relation, evaluated per branch index n_θ.
    Polar,
}

/// The compiled relation, supplied by the collaborator that performs
/// interval evaluation. Nothing is assumed of an implementation: the engine
/// checks every result before using it.
pub trait Relation {
    /// The shape of the relation.
    fn relation_type(&self) -> RelationType;

    /// The Boolean form tree over the atomic formulas.
    fn forms(&self) -> Vec<StaticForm>;

    /// The number of atomic formulas.
    fn atom_count(&self) -> usize;

    /// Evaluates every atomic formula over the given region and branch
    /// interval, returning one sign/decoration slot per atom.
    fn eval(&mut self, x: IvBits, y: IvBits, n_theta: BranchInterval) -> EvalResult;

    /// The number of evaluations performed so far.
    fn eval_count(&self) -> usize;
}

/// The interval arithmetic supplied by the collaborator, over endpoint bit
/// patterns. The engine treats every result as opaque.
pub trait IntervalOps {
    /// The interval extension of `a * b + c`.
    fn mul_add(&self, a: IvBits, b: IvBits, c: IvBits) -> IvBits;

    /// The interval extension of `a - b`.
    fn sub(&self, a: IvBits, b: IvBits) -> IvBits;

    /// The interval extension of `a / b`.
    fn div(&self, a: IvBits, b: IvBits) -> IvBits;

    /// The bit pattern of a point inside the interval, used to split a side
    /// that does not fall on a pixel boundary.
    fn midpoint(&self, a: IvBits) -> u64;
}

/// Why refinement stopped without completing.
#[derive(Clone, Copy, Debug, Eq, PartialEq, Structural)]
pub enum GraphingErrorKind {
    /// An enqueue index would exceed the 32-bit block index space.
    BlockIndexOverflow,
    /// The memory limit was exceeded even after dropping the caches.
    ReachedMemLimit,
    /// No block could be subdivided further along any permitted axis.
    ReachedSubdivisionLimit,
}

/// An error from [`Graph::refine`]. Prior pixel proofs remain valid.
#[derive(Clone, Copy, Debug, Eq, PartialEq, Structural)]
pub struct GraphingError {
    /// What stopped the refinement.
    pub kind: GraphingErrorKind,
}

impl GraphingError {
    /// A short description of the error.
    pub fn message(&self) -> (r: &'static str)
        ensures
            self.kind == GraphingErrorKind::BlockIndexOverflow ==> r@ =~= "block index overflow"@,
            self.kind == GraphingErrorKind::ReachedMemLimit ==> r@
                =~= "reached the memory usage limit"@,
            self.kind == GraphingErrorKind::ReachedSubdivisionLimit ==> r@
                =~= "reached the subdivision limit"@,
    {
        match self.kind {
            GraphingErrorKind::BlockIndexOverflow => "block index overflow",
            GraphingErrorKind::ReachedMemLimit => "reached the memory usage limit",
            GraphingErrorKind::ReachedSubdivisionLimit => "reached the subdivision limit",
        }
    }
}

/// Progress counters of a graph.
#[derive(Clone, Copy, Debug, Eq, PartialEq, Structural)]
pub struct GraphingStatistics {
    /// The number of pixels of the image.
    pub pixels: usize,
    /// The number of pixels settled as true or false.
    pub pixels_proven: usize,
    /// The number of relation evaluations performed.
    pub eval_count: usize,
    /// The wall time spent refining, in milliseconds.
    pub time_elapsed_ms: u64,
}

#[verifier::external_type_specification]
#[verifier::external_body]
/// The standard monotonic clock, opaque to verification.
pub struct ExInstant(Instant);

/// Relies on `std::time::Instant::now` for reading the monotonic clock.
/// Nothing is assumed of the returned instant.
#[verifier::external_body]
fn instant_now() -> Instant {
    Instant::now()
}

/// Relies on `std::time::Instant::elapsed` and `Duration::as_millis` for the
/// wall time since `start`, saturated to 64 bits. Nothing is assumed of the
/// result: the clock may report any value.
#[verifier::external_body]
fn elapsed_millis(start: &Instant) -> u64 {
    u64::try_from(start.elapsed().as_millis()).unwrap_or(u64::MAX)
}

/// One stored evaluation: the region key and its result.
struct CacheEntry {
    x: IvBits,
    y: IvBits,
    n_theta: BranchInterval,
    result: EvalResult,
}

/// The lookup key of a stored evaluation.
pub type CacheKey = (IvBits, IvBits, BranchInterval);

/// The key of one cache entry.
spec fn spec_entry_key(e: CacheEntry) -> CacheKey {
    (e.x, e.y, e.n_theta)
}

/// An evaluation cache keyed by the IEEE-754 bit patterns of the region's
/// intervals together with the branch interval. Entries are grouped by the
/// lower x bound and searched linearly within a group. Its specification
/// view is the map from keys to the stored per-atom results.
pub struct EvalCache {
    n_atoms: usize,
    map: HashMap<u64, Vec<CacheEntry>>,
    bytes: u64,
    model: Ghost<Map<CacheKey, Seq<DecSignSet>>>,
}

impl EvalCache {
    /// The number of per-atom slots every stored result has, for use in
    /// specifications.
    pub closed spec fn spec_n_atoms(&self) -> usize {
        self.n_atoms
    }

    /// The stored results by key, for use in specifications.
    pub closed spec fn spec_model(&self) -> Map<CacheKey, Seq<DecSignSet>> {
        self.model@
    }

    /// Every stored entry is grouped under its own lower x bound and agrees
    /// with the model.
    spec fn buckets_sound(&self) -> bool {
        forall|k: u64, i: int|
            #![trigger self.map@[k][i]]
            self.map@.contains_key(k) && 0 <= i < self.map@[k].len() ==> {
                let e = self.map@[k][i];
                &&& e.x.lo == k
                &&& self.model@.contains_key(spec_entry_key(e))
                &&& self.model@[spec_entry_key(e)] == e.result@
            }
    }

    /// Every modeled key is stored in its group.
    spec fn model_complete(&self) -> bool {
        forall|key: CacheKey| #[trigger]
            self.model@.contains_key(key) ==> self.map@.contains_key(key.0.lo) && exists|i: int|
                0 <= i < self.map@[key.0.lo].len() && spec_entry_key(
                    #[trigger] self.map@[key.0.lo][i],
                ) == key
    }

    /// Every stored result has one slot per atomic formula, and the stored
    /// entries match the model exactly.
    pub closed spec fn wf(&self) -> bool {
        &&& self.buckets_sound()
        &&& self.model_complete()
        &&& forall|key: CacheKey| #[trigger]
            self.model@.contains_key(key) ==> self.model@[key].len() == self.n_atoms
    }

    /// Creates an empty cache for results with the given number of atoms.
    pub fn new(n_atoms: usize) -> (r: Self)
        ensures
            r.wf(),
            r.spec_n_atoms() == n_atoms,
            r.spec_model() == Map::<CacheKey, Seq<DecSignSet>>::empty(),
    {
        let r = Self {
            n_atoms,
            map: HashMap::new(),
            bytes: 0,
            model: Ghost(Map::empty()),
        };
        proof {
            assert(r.map@ =~= Map::<u64, Vec<CacheEntry>>::empty());
        }
        r
    }

    /// Returns the result stored for the key: `Some` exactly when one was
    /// stored, and then the stored result itself.
    pub fn get(&self, x: IvBits, y: IvBits, n_theta: BranchInterval) -> (r: Option<EvalResult>)
        requires
            self.wf(),
        ensures
            r matches Some(er) ==> {
                &&& self.spec_model().contains_key((x, y, n_theta))
                &&& er@ == self.spec_model()[(x, y, n_theta)]
                &&& er@.len() == self.spec_n_atoms()
            },
            r is None ==> !self.spec_model().contains_key((x, y, n_theta)),
    {
        let ghost key: CacheKey = (x, y, n_theta);
        match self.map.get(&x.lo) {
            Some(bucket) => {
                let mut i: usize = 0;
                while i < bucket.len()
                    invariant
                        self.wf(),
                        self.map@.contains_key(x.lo),
                        bucket@ == self.map@[x.lo]@,
                        i <= bucket@.len(),
                        key == (x, y, n_theta),
                        forall|j: int|
                            0 <= j < i ==> spec_entry_key(#[trigger] bucket@[j]) != key,
                    decreases bucket@.len() - i,
                {
                    let e = &bucket[i];
                    if e.x == x && e.y == y && e.n_theta == n_theta {
                        proof {
                            assert(spec_entry_key(self.map@[x.lo][i as int]) == key);
                        }
                        return Some(e.result.clone_result());
                    }
                    i = i + 1;
                }
                proof {
                    if self.model@.contains_key(key) {
                        let j = choose|j: int|
                            0 <= j < self.map@[key.0.lo].len() && spec_entry_key(
                                #[trigger] self.map@[key.0.lo][j],
                            ) == key;
                        assert(spec_entry_key(bucket@[j]) == key);
                    }
                }
                None
            },
            None => {
                proof {
                    if self.model@.contains_key(key) {
                        assert(self.map@.contains_key(key.0.lo));
                    }
                }
                None
            },
        }
    }

    /// Stores a result for the key, accounting its approximate size; a key
    /// already stored keeps its first result.
    pub fn insert(&mut self, x: IvBits, y: IvBits, n_theta: BranchInterval, result: EvalResult)
        requires
            old(self).wf(),
            result@.len() == old(self).spec_n_atoms(),
        ensures
            final(self).wf(),
            final(self).spec_n_atoms() == old(self).spec_n_atoms(),
            !old(self).spec_model().contains_key((x, y, n_theta)) ==> final(self).spec_model()
                == old(self).spec_model().insert((x, y, n_theta), result@),
            old(self).spec_model().contains_key((x, y, n_theta)) ==> final(self).spec_model()
                == old(self).spec_model(),
    {
        let ghost key: CacheKey = (x, y, n_theta);
        let existing = self.get(x, y, n_theta);
        if existing.is_some() {
            return ;
        }
        let mut bucket: Vec<CacheEntry> = match self.map.remove(&x.lo) {
            Some(b) => b,
            None => Vec::new(),
        };
        let ghost old_bucket = bucket@;
        let na: u64 = if self.n_atoms > 0xffff_ffff {
            0xffff_ffff
        } else {
            self.n_atoms as u64
        };
        let cost: u64 = 64 + 2 * na;
        bucket.push(CacheEntry { x, y, n_theta, result });
        let ghost new_bucket = bucket@;
        self.map.insert(x.lo, bucket);
        if self.bytes <= u64::MAX - cost {
            self.bytes = self.bytes + cost;
        }
        proof {
            self.model@ = self.model@.insert(key, result@);
            assert forall|k: u64, i: int|
                self.map@.contains_key(k) && 0 <= i < self.map@[k].len() implies {
                let e = #[trigger] self.map@[k][i];
                &&& e.x.lo == k
                &&& self.model@.contains_key(spec_entry_key(e))
                &&& self.model@[spec_entry_key(e)] == e.result@
            } by {
                if k == x.lo {
                    assert(self.map@[k]@ == new_bucket);
                    if i < old_bucket.len() {
                        assert(old(self).map@.contains_key(k) && old(self).map@[k][i]
                            == new_bucket[i]);
                    }
                } else {
                    assert(old(self).map@.contains_key(k));
                    assert(old(self).map@[k][i] == self.map@[k][i]);
                }
            }
            assert forall|key2: CacheKey| #[trigger]
                self.model@.contains_key(key2) implies self.map@.contains_key(key2.0.lo)
                && exists|i: int|
                0 <= i < self.map@[key2.0.lo].len() && spec_entry_key(
                    #[trigger] self.map@[key2.0.lo][i],
                ) == key2 by {
                if key2 == key {
                    assert(self.map@[key.0.lo]@ == new_bucket);
                    assert(spec_entry_key(self.map@[key.0.lo][new_bucket.len() - 1]) == key2);
                } else {
                    assert(old(self).model@.contains_key(key2));
                    let j = choose|j: int|
                        0 <= j < old(self).map@[key2.0.lo].len() && spec_entry_key(
                            #[trigger] old(self).map@[key2.0.lo][j],
                        ) == key2;
                    if key2.0.lo == x.lo {
                        assert(self.map@[key2.0.lo]@ == new_bucket);
                        assert(old(self).map@[key2.0.lo]@ == old_bucket);
                        assert(spec_entry_key(self.map@[key2.0.lo][j]) == key2);
                    } else {
                        assert(self.map@[key2.0.lo] == old(self).map@[key2.0.lo]);
                        assert(spec_entry_key(self.map@[key2.0.lo][j]) == key2);
                    }
                }
            }
        }
    }

    /// The accounted size in bytes, for use in specifications.
    pub closed spec fn spec_size(&self) -> u64 {
        self.bytes
    }

    /// Returns the approximate number of bytes held by the cache.
    pub fn size_in_heap(&self) -> (r: u64)
        ensures
            r == self.spec_size(),
    {
        self.bytes
    }
}

/// Settled pixel states never change: true and false are terminal, and only
/// uncertain pixels may move.
pub open spec fn states_monotone(s1: Seq<PixelState>, s2: Seq<PixelState>) -> bool {
    &&& s1.len() == s2.len()
    &&& forall|i: int|
        0 <= i < s1.len() ==> ((s1[i] == PixelState::True ==> #[trigger] s2[i] == PixelState::True)
            && (s1[i] == PixelState::False ==> s2[i] == PixelState::False))
}

/// Pixel `i` (row-major) lies in the half-open pixel rectangle
/// `[x0, x1) × [y0, y1)` of a `w`-wide image.
pub open spec fn spec_in_rect(i: int, w: int, x0: int, x1: int, y0: int, y1: int) -> bool {
    x0 <= i % w < x1 && y0 <= i / w < y1
}

/// The states after marking every uncertain pixel of the rectangle true.
pub open spec fn spec_mark_true(
    s: Seq<PixelState>,
    w: int,
    x0: int,
    x1: int,
    y0: int,
    y1: int,
) -> Seq<PixelState> {
    Seq::new(
        s.len(),
        |i: int|
            if spec_in_rect(i, w, x0, x1, y0, y1) && s[i] == PixelState::Uncertain {
                PixelState::True
            } else {
                s[i]
            },
    )
}

/// The states after marking false every uncertain pixel of the rectangle
/// whose last queued block is the given parent.
pub open spec fn spec_mark_false(
    s: Seq<PixelState>,
    blocks: Seq<QueuedBlockIndex>,
    w: int,
    x0: int,
    x1: int,
    y0: int,
    y1: int,
    parent: QueuedBlockIndex,
) -> Seq<PixelState> {
    Seq::new(
        s.len(),
        |i: int|
            if spec_in_rect(i, w, x0, x1, y0, y1) && s[i] == PixelState::Uncertain && blocks[i]
                == parent {
                PixelState::False
            } else {
                s[i]
            },
    )
}

/// The last-queued slots after writing the index into every slot of the
/// rectangle.
pub open spec fn spec_mark_queued(
    blocks: Seq<QueuedBlockIndex>,
    w: int,
    x0: int,
    x1: int,
    y0: int,
    y1: int,
    index: QueuedBlockIndex,
) -> Seq<QueuedBlockIndex> {
    Seq::new(
        blocks.len(),
        |i: int|
            if spec_in_rect(i, w, x0, x1, y0, y1) {
                index
            } else {
                blocks[i]
            },
    )
}

/// Every pixel of the rectangle is already settled true.
pub open spec fn spec_all_true(
    s: Seq<PixelState>,
    w: int,
    x0: int,
    x1: int,
    y0: int,
    y1: int,
) -> bool {
    forall|i: int|
        0 <= i < s.len() && spec_in_rect(i, w, x0, x1, y0, y1) ==> #[trigger] s[i]
            == PixelState::True
}

/// The left edge of the pixel cover of a block, clamped to the image.
pub open spec fn spec_cover_x0(b: ImageBlock, w: u32) -> int {
    let px = b.spec_pixel_index().x as int;
    if px <= spec_cover_x1(b, w) {
        px
    } else {
        spec_cover_x1(b, w)
    }
}

/// The right edge (exclusive) of the pixel cover of a block, clamped.
pub open spec fn spec_cover_x1(b: ImageBlock, w: u32) -> int {
    let end = b.spec_pixel_index().x + vstd::arithmetic::power2::pow2(b.kx as nat);
    if end <= w {
        end as int
    } else {
        w as int
    }
}

/// The bottom edge of the pixel cover of a block, clamped to the image.
pub open spec fn spec_cover_y0(b: ImageBlock, h: u32) -> int {
    let py = b.spec_pixel_index().y as int;
    if py <= spec_cover_y1(b, h) {
        py
    } else {
        spec_cover_y1(b, h)
    }
}

/// The top edge (exclusive) of the pixel cover of a block, clamped.
pub open spec fn spec_cover_y1(b: ImageBlock, h: u32) -> int {
    let end = b.spec_pixel_index().y + vstd::arithmetic::power2::pow2(b.ky as nat);
    if end <= h {
        end as int
    } else {
        h as int
    }
}

/// Settling one uncertain pixel keeps the evolution monotone and
/// introduces no settled state of the other kind.
proof fn lemma_mark_step(before: Seq<PixelState>, idx: int, v: PixelState)
    requires
        0 <= idx < before.len(),
        before[idx] == PixelState::Uncertain,
    ensures
        states_monotone(before, before.update(idx, v)),
        forall|i: int|
            0 <= i < before.len() && i != idx ==> #[trigger] before.update(idx, v)[i] == before[i],
        before.update(idx, v)[idx] == v,
{
}

/// Monotone state evolution composes.
pub proof fn lemma_states_monotone_trans(
    s1: Seq<PixelState>,
    s2: Seq<PixelState>,
    s3: Seq<PixelState>,
)
    requires
        states_monotone(s1, s2),
        states_monotone(s2, s3),
    ensures
        states_monotone(s1, s3),
{
}

/// The position of the most significant set bit of a positive number.
pub open spec fn spec_msb32(n: u32) -> int
    decreases n,
{
    if n <= 1 {
        0
    } else {
        1 + spec_msb32(n / 2)
    }
}

/// The most significant bit position brackets the number by powers of two.
proof fn lemma_msb32_bounds(n: u32)
    requires
        n >= 1,
    ensures
        0 <= spec_msb32(n) <= 31,
        vstd::arithmetic::power2::pow2(spec_msb32(n) as nat) <= n,
        n < vstd::arithmetic::power2::pow2((spec_msb32(n) + 1) as nat),
    decreases n,
{
    vstd::arithmetic::power2::lemma2_to64();
    if n > 1 {
        lemma_msb32_bounds(n / 2);
        let p = spec_msb32(n / 2);
        assert(vstd::arithmetic::power2::pow2((p + 1) as nat) == 2
            * vstd::arithmetic::power2::pow2(p as nat));
        assert(vstd::arithmetic::power2::pow2((p + 2) as nat) == 2
            * vstd::arithmetic::power2::pow2((p + 1) as nat));
    }
}

/// The bit pattern of the finite double `num * 2^k`: the IEEE-754 biased
/// exponent of the number's magnitude and its mantissa bits below the
/// leading one.
pub open spec fn spec_dyadic_bits(num: u32, k: i8) -> u64 {
    if num == 0 {
        0u64
    } else {
        let p = spec_msb32(num);
        (((1023 + p + k) as u64) << 52) | (((num as u64) << ((52 - p) as u64))
            & 0x000f_ffff_ffff_ffff)
    }
}

/// The bit pattern of the finite double `num * 2^k`, built directly from
/// the normalized mantissa and exponent. The engine needs exact pixel-space
/// coordinates as doubles, and every such coordinate is a small dyadic
/// rational, so no rounding is involved.
fn dyadic_bits(num: u32, k: i8) -> (r: u64)
    requires
        -32 <= k <= 32,
    ensures
        r == spec_dyadic_bits(num, k),
{
    if num == 0 {
        return 0;
    }
    let mut p: u32 = 31;
    while p > 0 && (num >> p) == 0
        invariant
            p <= 31,
            num >= 1,
            p == 31 || (num >> (p + 1)) == 0,
        decreases p,
    {
        p = p - 1;
    }
    proof {
        vstd::arithmetic::power2::lemma2_to64();
        vstd::bits::lemma_u32_pow2_no_overflow(p as nat);
        vstd::bits::lemma_u32_shr_is_div(num, p);
        let pw = vstd::arithmetic::power2::pow2(p as nat) as int;
        vstd::arithmetic::div_mod::lemma_fundamental_div_mod(num as int, pw);
        if p > 0 {
            // the loop stopped on a set bit: num / 2^p >= 1
            assert(num as int / pw >= 1);
            assert(num as int >= pw) by (nonlinear_arith)
                requires
                    pw >= 1,
                    num as int == pw * (num as int / pw) + (num as int % pw),
                    num as int % pw >= 0,
                    num as int / pw >= 1,
            ;
        }
        if p < 31 {
            vstd::bits::lemma_u32_pow2_no_overflow((p + 1) as nat);
            vstd::bits::lemma_u32_shr_is_div(num, (p + 1) as u32);
            let pw1 = vstd::arithmetic::power2::pow2((p + 1) as nat) as int;
            vstd::arithmetic::div_mod::lemma_fundamental_div_mod(num as int, pw1);
            assert(num as int / pw1 == 0);
            assert((num as int) < pw1);
        } else {
            assert((num as int) < vstd::arithmetic::power2::pow2(32) as int);
        }
        lemma_msb32_bounds(num);
        lemma_msb_unique(num, p as int);
    }
    let e: i32 = p as i32 + k as i32;
    let biased: u64 = (1023 + e) as u64;
    let mantissa: u64 = ((num as u64) << ((52 - p) as u64)) & 0x000f_ffff_ffff_ffff;
    (biased << 52u64) | mantissa
}

/// A power-of-two bracket pins the most significant bit position.
proof fn lemma_msb_unique(n: u32, p: int)
    requires
        n >= 1,
        0 <= p <= 31,
        vstd::arithmetic::power2::pow2(p as nat) <= n,
        n < vstd::arithmetic::power2::pow2((p + 1) as nat),
    ensures
        p == spec_msb32(n),
{
    lemma_msb32_bounds(n);
    let q = spec_msb32(n);
    if p < q {
        vstd::arithmetic::power2::lemma_pow2_adds((p + 1) as nat, (q - p - 1) as nat);
        vstd::arithmetic::power2::lemma_pow2_pos((q - p - 1) as nat);
        assert(vstd::arithmetic::power2::pow2(q as nat) >= vstd::arithmetic::power2::pow2(
            (p + 1) as nat,
        )) by (nonlinear_arith)
            requires
                vstd::arithmetic::power2::pow2(q as nat) == vstd::arithmetic::power2::pow2(
                    (p + 1) as nat,
                ) * vstd::arithmetic::power2::pow2((q - p - 1) as nat),
                vstd::arithmetic::power2::pow2((q - p - 1) as nat) >= 1,
                vstd::arithmetic::power2::pow2((p + 1) as nat) >= 0,
        ;
    }
    if q < p {
        vstd::arithmetic::power2::lemma_pow2_adds((q + 1) as nat, (p - q - 1) as nat);
        vstd::arithmetic::power2::lemma_pow2_pos((p - q - 1) as nat);
        assert(vstd::arithmetic::power2::pow2(p as nat) >= vstd::arithmetic::power2::pow2(
            (q + 1) as nat,
        )) by (nonlinear_arith)
            requires
                vstd::arithmetic::power2::pow2(p as nat) == vstd::arithmetic::power2::pow2(
                    (q + 1) as nat,
                ) * vstd::arithmetic::power2::pow2((p - q - 1) as nat),
                vstd::arithmetic::power2::pow2((p - q - 1) as nat) >= 1,
                vstd::arithmetic::power2::pow2((q + 1) as nat) >= 0,
        ;
    }
}

/// Classifies a block's pixel cover, clamped to the image: the half-open
/// pixel ranges `[x0, x1) × [y0, y1)`.
fn block_pixel_range(b: &ImageBlock, w: u32, h: u32) -> (r: (u32, u32, u32, u32))
    requires
        b.wf(),
        b.kx >= 0,
        b.ky >= 0,
    ensures
        r.0 == spec_cover_x0(*b, w),
        r.1 == spec_cover_x1(*b, w),
        r.2 == spec_cover_y0(*b, h),
        r.3 == spec_cover_y1(*b, h),
        r.0 <= r.1 <= w,
        r.2 <= r.3 <= h,
{
    let px = b.pixel_index();
    let bw = b.width();
    let bh = b.height();
    proof {
        crate::block::lemma_coord_shift_bound(b.x, b.kx);
        crate::block::lemma_coord_shift_bound(b.y, b.ky);
        vstd::arithmetic::power2::lemma2_to64();
        vstd::bits::lemma_u32_pow2_no_overflow(b.kx as nat);
        vstd::bits::lemma_u32_pow2_no_overflow(b.ky as nat);
    }
    let x1 = if px.x >= w {
        w
    } else if bw > w - px.x {
        w
    } else {
        px.x + bw
    };
    let x0 = if px.x >= x1 {
        x1
    } else {
        px.x
    };
    let y1 = if px.y >= h {
        h
    } else if bh > h - px.y {
        h
    } else {
        px.y + bh
    };
    let y0 = if px.y >= y1 {
        y1
    } else {
        px.y
    };
    (x0, x1, y0, y1)
}

/// The flat index of pixel `(x, y)` decomposes back into its coordinates.
proof fn lemma_rect_index(x: int, y: int, w: int)
    requires
        0 < w,
        0 <= x < w,
        0 <= y,
    ensures
        (y * w + x) / w == y,
        (y * w + x) % w == x,
{
    vstd::arithmetic::div_mod::lemma_fundamental_div_mod_converse(y * w + x, w, y, x);
}

/// All pixels of the clamped range are already settled true.
fn all_true_in_range(im: &Image, x0: u32, x1: u32, y0: u32, y1: u32) -> (r: bool)
    requires
        im.wf(),
        x0 <= x1 <= im.spec_width(),
        y0 <= y1 <= im.spec_height(),
    ensures
        r == spec_all_true(
            im.spec_states(),
            im.spec_width() as int,
            x0 as int,
            x1 as int,
            y0 as int,
            y1 as int,
        ),
{
    let ghost w = im.spec_width() as int;
    let mut y = y0;
    while y < y1
        invariant
            im.wf(),
            x0 <= x1 <= im.spec_width(),
            y1 <= im.spec_height(),
            y0 <= y <= y1,
            w == im.spec_width() as int,
            forall|i: int|
                0 <= i < im.spec_states().len() && spec_in_rect(
                    i,
                    w,
                    x0 as int,
                    x1 as int,
                    y0 as int,
                    y as int,
                ) ==> #[trigger] im.spec_states()[i] == PixelState::True,
        decreases y1 - y,
    {
        let mut x = x0;
        while x < x1
            invariant
                im.wf(),
                x1 <= im.spec_width(),
                y1 <= im.spec_height(),
                x0 <= x <= x1,
                y0 <= y < y1,
                w == im.spec_width() as int,
                forall|i: int|
                    0 <= i < im.spec_states().len() && spec_in_rect(
                        i,
                        w,
                        x0 as int,
                        x1 as int,
                        y0 as int,
                        y as int,
                    ) ==> #[trigger] im.spec_states()[i] == PixelState::True,
                forall|i: int|
                    0 <= i < im.spec_states().len() && spec_in_rect(
                        i,
                        w,
                        x0 as int,
                        x as int,
                        y as int,
                        y as int + 1,
                    ) ==> #[trigger] im.spec_states()[i] == PixelState::True,
            decreases x1 - x,
        {
            let p = PixelIndex { x, y };
            if !matches!(im.state(p), PixelState::True) {
                proof {
                    lemma_rect_index(x as int, y as int, w);
                    assert(0 <= im.spec_index(p) < im.spec_states().len()) by (nonlinear_arith)
                        requires
                            im.spec_index(p) == p.y * im.spec_width() + p.x,
                            p.x < im.spec_width(),
                            p.y < im.spec_height(),
                            im.spec_states().len() == im.spec_width() * im.spec_height(),
                    ;
                    assert(spec_in_rect(
                        im.spec_index(p),
                        w,
                        x0 as int,
                        x1 as int,
                        y0 as int,
                        y1 as int,
                    ));
                }
                return false;
            }
            proof {
                assert forall|i: int|
                    0 <= i < im.spec_states().len() && spec_in_rect(
                        i,
                        w,
                        x0 as int,
                        x as int + 1,
                        y as int,
                        y as int + 1,
                    ) implies #[trigger] im.spec_states()[i] == PixelState::True by {
                    if i % w == x as int {
                        lemma_rect_index(x as int, y as int, w);
                        vstd::arithmetic::div_mod::lemma_fundamental_div_mod(i, w);
                        assert((i / w) * w == w * (i / w)) by (nonlinear_arith);
                        assert(i == (i / w) * w + i % w);
                        assert(i == im.spec_index(p));
                    }
                }
            }
            x = x + 1;
        }
        proof {
            assert forall|i: int|
                0 <= i < im.spec_states().len() && spec_in_rect(
                    i,
                    w,
                    x0 as int,
                    x1 as int,
                    y0 as int,
                    y as int + 1,
                ) implies #[trigger] im.spec_states()[i] == PixelState::True by {}
        }
        y = y + 1;
    }
    true
}

/// Marks every not-yet-settled pixel of the range as true, and nothing else:
/// the result is exactly [`spec_mark_true`] of the old states.
fn mark_true_range(im: &mut Image, x0: u32, x1: u32, y0: u32, y1: u32)
    requires
        old(im).wf(),
        x0 <= x1 <= old(im).spec_width(),
        y0 <= y1 <= old(im).spec_height(),
    ensures
        final(im).wf(),
        final(im).spec_width() == old(im).spec_width(),
        final(im).spec_height() == old(im).spec_height(),
        final(im).spec_blocks() == old(im).spec_blocks(),
        final(im).spec_states() == spec_mark_true(
            old(im).spec_states(),
            old(im).spec_width() as int,
            x0 as int,
            x1 as int,
            y0 as int,
            y1 as int,
        ),
        states_monotone(old(im).spec_states(), final(im).spec_states()),
{
    let ghost s0 = im.spec_states();
    let ghost w = im.spec_width() as int;
    proof {
        assert(spec_mark_true(s0, w, x0 as int, x1 as int, y0 as int, y0 as int) =~= s0);
    }
    let mut y = y0;
    while y < y1
        invariant
            im.wf(),
            im.spec_width() == old(im).spec_width(),
            im.spec_height() == old(im).spec_height(),
            im.spec_blocks() == old(im).spec_blocks(),
            x0 <= x1 <= im.spec_width(),
            y1 <= im.spec_height(),
            y0 <= y <= y1,
            w == im.spec_width() as int,
            s0 == old(im).spec_states(),
            im.spec_states() == spec_mark_true(s0, w, x0 as int, x1 as int, y0 as int, y as int),
        decreases y1 - y,
    {
        let mut x = x0;
        proof {
            lemma_mark_true_row_start(s0, w, x0 as int, x1 as int, y0 as int, y as int);
        }
        while x < x1
            invariant
                im.wf(),
                im.spec_width() == old(im).spec_width(),
                im.spec_height() == old(im).spec_height(),
                im.spec_blocks() == old(im).spec_blocks(),
                x1 <= im.spec_width(),
                y1 <= im.spec_height(),
                x0 <= x <= x1,
                y0 <= y < y1,
                w == im.spec_width() as int,
                s0 == old(im).spec_states(),
                im.spec_states() == spec_mark_true_upto(
                    s0,
                    w,
                    x0 as int,
                    x1 as int,
                    y0 as int,
                    y as int,
                    x as int,
                ),
            decreases x1 - x,
        {
            let p = PixelIndex { x, y };
            let ghost before = im.spec_states();
            if matches!(im.state(p), PixelState::Uncertain) {
                let slot = im.state_mut(p);
                *slot = PixelState::True;
            }
            proof {
                lemma_rect_index(x as int, y as int, w);
                assert(0 <= im.spec_index(p) < before.len()) by (nonlinear_arith)
                    requires
                        im.spec_index(p) == p.y * im.spec_width() + p.x,
                        p.x < im.spec_width(),
                        p.y < im.spec_height(),
                        before.len() == im.spec_width() * im.spec_height(),
                ;
                lemma_mark_true_step(s0, w, x0 as int, x1 as int, y0 as int, y as int, x as int);
                assert(im.spec_states() =~= spec_mark_true_upto(
                    s0,
                    w,
                    x0 as int,
                    x1 as int,
                    y0 as int,
                    y as int,
                    x as int + 1,
                ));
            }
            x = x + 1;
        }
        proof {
            lemma_mark_true_row_end(s0, w, x0 as int, x1 as int, y0 as int, y as int);
            assert(im.spec_states() =~= spec_mark_true(
                s0,
                w,
                x0 as int,
                x1 as int,
                y0 as int,
                y as int + 1,
            ));
        }
        y = y + 1;
    }
    proof {
        lemma_mark_true_monotone(s0, w, x0 as int, x1 as int, y0 as int, y1 as int);
    }
}

/// Marking true only settles uncertain pixels: the evolution is monotone.
proof fn lemma_mark_true_monotone(s: Seq<PixelState>, w: int, x0: int, x1: int, y0: int, y1: int)
    ensures
        states_monotone(s, spec_mark_true(s, w, x0, x1, y0, y1)),
{
    let t = spec_mark_true(s, w, x0, x1, y0, y1);
    assert forall|i: int| 0 <= i < s.len() implies ((s[i] == PixelState::True
        ==> #[trigger] t[i] == PixelState::True) && (s[i] == PixelState::False ==> t[i]
        == PixelState::False)) by {}
}

/// The states after marking whole rows `[y0, y)` plus columns `[x0, x)` of
/// row `y` of the rectangle.
pub open spec fn spec_mark_true_upto(
    s: Seq<PixelState>,
    w: int,
    x0: int,
    x1: int,
    y0: int,
    y: int,
    x: int,
) -> Seq<PixelState> {
    Seq::new(
        s.len(),
        |i: int|
            if (spec_in_rect(i, w, x0, x1, y0, y) || (spec_in_rect(i, w, x0, x, y, y + 1))) && s[i]
                == PixelState::Uncertain {
                PixelState::True
            } else {
                s[i]
            },
    )
}

/// At the start of a row, nothing of the row is marked yet.
proof fn lemma_mark_true_row_start(s: Seq<PixelState>, w: int, x0: int, x1: int, y0: int, y: int)
    ensures
        spec_mark_true(s, w, x0, x1, y0, y) =~= spec_mark_true_upto(s, w, x0, x1, y0, y, x0),
{
}

/// Marking one more pixel of the row advances the column bound.
proof fn lemma_mark_true_step(
    s: Seq<PixelState>,
    w: int,
    x0: int,
    x1: int,
    y0: int,
    y: int,
    x: int,
)
    requires
        0 < w,
        0 <= x < w,
        0 <= y,
        y0 <= y,
        x0 <= x < x1,
        0 <= y * w + x < s.len(),
    ensures
        spec_mark_true_upto(s, w, x0, x1, y0, y, x + 1) =~= (
        if s[y * w + x] == PixelState::Uncertain {
            spec_mark_true_upto(s, w, x0, x1, y0, y, x).update(y * w + x, PixelState::True)
        } else {
            spec_mark_true_upto(s, w, x0, x1, y0, y, x)
        }),
{
    lemma_rect_index(x, y, w);
    assert forall|i: int| 0 <= i < s.len() implies #[trigger] spec_mark_true_upto(
        s,
        w,
        x0,
        x1,
        y0,
        y,
        x + 1,
    )[i] == (
    if s[y * w + x] == PixelState::Uncertain {
        spec_mark_true_upto(s, w, x0, x1, y0, y, x).update(y * w + x, PixelState::True)
    } else {
        spec_mark_true_upto(s, w, x0, x1, y0, y, x)
    })[i] by {
        vstd::arithmetic::div_mod::lemma_fundamental_div_mod(i, w);
        if i != y * w + x {
            if i % w == x && i / w == y {
                assert(i == w * (i / w) + i % w);
                assert(w * y == y * w) by (nonlinear_arith);
                assert(false);
            }
        }
    }
}

/// A fully marked row extends the marked rectangle by one row.
proof fn lemma_mark_true_row_end(s: Seq<PixelState>, w: int, x0: int, x1: int, y0: int, y: int)
    requires
        y0 <= y,
    ensures
        spec_mark_true_upto(s, w, x0, x1, y0, y, x1) =~= spec_mark_true(
            s,
            w,
            x0,
            x1,
            y0,
            y + 1,
        ),
{
}

/// Marks as false every not-yet-settled pixel of the range whose last queued
/// block is the given parent, and nothing else: the result is exactly
/// [`spec_mark_false`] of the old states.
fn mark_false_range(im: &mut Image, x0: u32, x1: u32, y0: u32, y1: u32, parent: QueuedBlockIndex)
    requires
        old(im).wf(),
        x0 <= x1 <= old(im).spec_width(),
        y0 <= y1 <= old(im).spec_height(),
    ensures
        final(im).wf(),
        final(im).spec_width() == old(im).spec_width(),
        final(im).spec_height() == old(im).spec_height(),
        final(im).spec_blocks() == old(im).spec_blocks(),
        final(im).spec_states() == spec_mark_false(
            old(im).spec_states(),
            old(im).spec_blocks(),
            old(im).spec_width() as int,
            x0 as int,
            x1 as int,
            y0 as int,
            y1 as int,
            parent,
        ),
        states_monotone(old(im).spec_states(), final(im).spec_states()),
{
    let ghost s0 = im.spec_states();
    let ghost bl = im.spec_blocks();
    let ghost w = im.spec_width() as int;
    proof {
        assert(spec_mark_false(s0, bl, w, x0 as int, x1 as int, y0 as int, y0 as int, parent)
            =~= s0);
    }
    let mut y = y0;
    while y < y1
        invariant
            im.wf(),
            im.spec_width() == old(im).spec_width(),
            im.spec_height() == old(im).spec_height(),
            im.spec_blocks() == old(im).spec_blocks(),
            x0 <= x1 <= im.spec_width(),
            y1 <= im.spec_height(),
            y0 <= y <= y1,
            w == im.spec_width() as int,
            s0 == old(im).spec_states(),
            bl == old(im).spec_blocks(),
            im.spec_states() == spec_mark_false(
                s0,
                bl,
                w,
                x0 as int,
                x1 as int,
                y0 as int,
                y as int,
                parent,
            ),
        decreases y1 - y,
    {
        let mut x = x0;
        proof {
            lemma_mark_false_row_start(s0, bl, w, x0 as int, x1 as int, y0 as int, y as int, parent);
        }
        while x < x1
            invariant
                im.wf(),
                im.spec_width() == old(im).spec_width(),
                im.spec_height() == old(im).spec_height(),
                im.spec_blocks() == old(im).spec_blocks(),
                x1 <= im.spec_width(),
                y1 <= im.spec_height(),
                x0 <= x <= x1,
                y0 <= y < y1,
                w == im.spec_width() as int,
                s0 == old(im).spec_states(),
                bl == old(im).spec_blocks(),
                im.spec_states() == spec_mark_false_upto(
                    s0,
                    bl,
                    w,
                    x0 as int,
                    x1 as int,
                    y0 as int,
                    y as int,
                    x as int,
                    parent,
                ),
            decreases x1 - x,
        {
            let p = PixelIndex { x, y };
            let ghost before = im.spec_states();
            if matches!(im.state(p), PixelState::Uncertain) && im.last_queued_block(p) == parent {
                let slot = im.state_mut(p);
                *slot = PixelState::False;
            }
            proof {
                lemma_rect_index(x as int, y as int, w);
                assert(0 <= im.spec_index(p) < before.len()) by (nonlinear_arith)
                    requires
                        im.spec_index(p) == p.y * im.spec_width() + p.x,
                        p.x < im.spec_width(),
                        p.y < im.spec_height(),
                        before.len() == im.spec_width() * im.spec_height(),
                ;
                lemma_mark_false_step(
                    s0,
                    bl,
                    w,
                    x0 as int,
                    x1 as int,
                    y0 as int,
                    y as int,
                    x as int,
                    parent,
                );
                assert(im.spec_states() =~= spec_mark_false_upto(
                    s0,
                    bl,
                    w,
                    x0 as int,
                    x1 as int,
                    y0 as int,
                    y as int,
                    x as int + 1,
                    parent,
                ));
            }
            x = x + 1;
        }
        proof {
            lemma_mark_false_row_end(s0, bl, w, x0 as int, x1 as int, y0 as int, y as int, parent);
            assert(im.spec_states() =~= spec_mark_false(
                s0,
                bl,
                w,
                x0 as int,
                x1 as int,
                y0 as int,
                y as int + 1,
                parent,
            ));
        }
        y = y + 1;
    }
    proof {
        lemma_mark_false_monotone(
            s0,
            bl,
            w,
            x0 as int,
            x1 as int,
            y0 as int,
            y1 as int,
            parent,
        );
    }
}

/// Finalizing false only settles uncertain pixels: the evolution is
/// monotone.
proof fn lemma_mark_false_monotone(
    s: Seq<PixelState>,
    blocks: Seq<QueuedBlockIndex>,
    w: int,
    x0: int,
    x1: int,
    y0: int,
    y1: int,
    parent: QueuedBlockIndex,
)
    ensures
        states_monotone(s, spec_mark_false(s, blocks, w, x0, x1, y0, y1, parent)),
{
    let t = spec_mark_false(s, blocks, w, x0, x1, y0, y1, parent);
    assert forall|i: int| 0 <= i < s.len() implies ((s[i] == PixelState::True
        ==> #[trigger] t[i] == PixelState::True) && (s[i] == PixelState::False ==> t[i]
        == PixelState::False)) by {}
}

/// The states after finalizing whole rows `[y0, y)` plus columns `[x0, x)`
/// of row `y` of the rectangle.
pub open spec fn spec_mark_false_upto(
    s: Seq<PixelState>,
    blocks: Seq<QueuedBlockIndex>,
    w: int,
    x0: int,
    x1: int,
    y0: int,
    y: int,
    x: int,
    parent: QueuedBlockIndex,
) -> Seq<PixelState> {
    Seq::new(
        s.len(),
        |i: int|
            if (spec_in_rect(i, w, x0, x1, y0, y) || (spec_in_rect(i, w, x0, x, y, y + 1))) && s[i]
                == PixelState::Uncertain && blocks[i] == parent {
                PixelState::False
            } else {
                s[i]
            },
    )
}

/// At the start of a row, nothing of the row is finalized yet.
proof fn lemma_mark_false_row_start(
    s: Seq<PixelState>,
    blocks: Seq<QueuedBlockIndex>,
    w: int,
    x0: int,
    x1: int,
    y0: int,
    y: int,
    parent: QueuedBlockIndex,
)
    ensures
        spec_mark_false(s, blocks, w, x0, x1, y0, y, parent) =~= spec_mark_false_upto(
            s,
            blocks,
            w,
            x0,
            x1,
            y0,
            y,
            x0,
            parent,
        ),
{
}

/// Finalizing one more pixel of the row advances the column bound.
proof fn lemma_mark_false_step(
    s: Seq<PixelState>,
    blocks: Seq<QueuedBlockIndex>,
    w: int,
    x0: int,
    x1: int,
    y0: int,
    y: int,
    x: int,
    parent: QueuedBlockIndex,
)
    requires
        0 < w,
        0 <= x < w,
        0 <= y,
        y0 <= y,
        x0 <= x < x1,
        0 <= y * w + x < s.len(),
        blocks.len() == s.len(),
    ensures
        spec_mark_false_upto(s, blocks, w, x0, x1, y0, y, x + 1, parent) =~= (
        if s[y * w + x] == PixelState::Uncertain && blocks[y * w + x] == parent {
            spec_mark_false_upto(s, blocks, w, x0, x1, y0, y, x, parent).update(
                y * w + x,
                PixelState::False,
            )
        } else {
            spec_mark_false_upto(s, blocks, w, x0, x1, y0, y, x, parent)
        }),
{
    lemma_rect_index(x, y, w);
    assert forall|i: int| 0 <= i < s.len() implies #[trigger] spec_mark_false_upto(
        s,
        blocks,
        w,
        x0,
        x1,
        y0,
        y,
        x + 1,
        parent,
    )[i] == (
    if s[y * w + x] == PixelState::Uncertain && blocks[y * w + x] == parent {
        spec_mark_false_upto(s, blocks, w, x0, x1, y0, y, x, parent).update(
            y * w + x,
            PixelState::False,
        )
    } else {
        spec_mark_false_upto(s, blocks, w, x0, x1, y0, y, x, parent)
    })[i] by {
        vstd::arithmetic::div_mod::lemma_fundamental_div_mod(i, w);
        if i != y * w + x {
            if i % w == x && i / w == y {
                assert(i == w * (i / w) + i % w);
                assert(w * y == y * w) by (nonlinear_arith);
                assert(false);
            }
        }
    }
}

/// A fully finalized row extends the rectangle by one row.
proof fn lemma_mark_false_row_end(
    s: Seq<PixelState>,
    blocks: Seq<QueuedBlockIndex>,
    w: int,
    x0: int,
    x1: int,
    y0: int,
    y: int,
    parent: QueuedBlockIndex,
)
    requires
        y0 <= y,
    ensures
        spec_mark_false_upto(s, blocks, w, x0, x1, y0, y, x1, parent) =~= spec_mark_false(
            s,
            blocks,
            w,
            x0,
            x1,
            y0,
            y + 1,
            parent,
        ),
{
}

/// Writes the given enqueue index into the last-queued-block slot of every
/// pixel the block covers, and nothing else; pixel states do not change.
fn mark_last_queued(im: &mut Image, b: &ImageBlock, index: QueuedBlockIndex)
    requires
        old(im).wf(),
        b.wf(),
    ensures
        final(im).wf(),
        final(im).spec_width() == old(im).spec_width(),
        final(im).spec_height() == old(im).spec_height(),
        final(im).spec_states() == old(im).spec_states(),
        final(im).spec_blocks() == spec_marked_blocks(
            old(im).spec_blocks(),
            *b,
            old(im).spec_width(),
            old(im).spec_height(),
            index,
        ),
{
    if b.kx >= 0 && b.ky >= 0 {
        let (x0, x1, y0, y1) = block_pixel_range(b, im.width(), im.height());
        let ghost bl0 = im.spec_blocks();
        let ghost w = im.spec_width() as int;
        proof {
            assert(spec_mark_queued(bl0, w, x0 as int, x1 as int, y0 as int, y0 as int, index)
                =~= bl0);
        }
        let mut y = y0;
        while y < y1
            invariant
                im.wf(),
                im.spec_width() == old(im).spec_width(),
                im.spec_height() == old(im).spec_height(),
                im.spec_states() == old(im).spec_states(),
                x0 == spec_cover_x0(*b, im.spec_width()),
                x1 == spec_cover_x1(*b, im.spec_width()),
                y0 == spec_cover_y0(*b, im.spec_height()),
                y1 == spec_cover_y1(*b, im.spec_height()),
                x0 <= x1 <= im.spec_width(),
                y0 <= y <= y1 <= im.spec_height(),
                w == im.spec_width() as int,
                bl0 == old(im).spec_blocks(),
                im.spec_blocks() == spec_mark_queued(
                    bl0,
                    w,
                    x0 as int,
                    x1 as int,
                    y0 as int,
                    y as int,
                    index,
                ),
            decreases y1 - y,
        {
            let mut x = x0;
            proof {
                lemma_mark_queued_row_start(bl0, w, x0 as int, x1 as int, y0 as int, y as int, index);
            }
            while x < x1
                invariant
                    im.wf(),
                    im.spec_width() == old(im).spec_width(),
                    im.spec_height() == old(im).spec_height(),
                    im.spec_states() == old(im).spec_states(),
                    x0 <= x <= x1 <= im.spec_width(),
                    y0 <= y < y1 <= im.spec_height(),
                    w == im.spec_width() as int,
                    bl0 == old(im).spec_blocks(),
                    im.spec_blocks() == spec_mark_queued_upto(
                        bl0,
                        w,
                        x0 as int,
                        x1 as int,
                        y0 as int,
                        y as int,
                        x as int,
                        index,
                    ),
                decreases x1 - x,
            {
                let p = PixelIndex { x, y };
                let ghost before = im.spec_blocks();
                let slot = im.last_queued_block_mut(p);
                *slot = index;
                proof {
                    lemma_rect_index(x as int, y as int, w);
                    assert(0 <= im.spec_index(p) < before.len()) by (nonlinear_arith)
                        requires
                            im.spec_index(p) == p.y * im.spec_width() + p.x,
                            p.x < im.spec_width(),
                            p.y < im.spec_height(),
                            before.len() == im.spec_width() * im.spec_height(),
                    ;
                    lemma_mark_queued_step(
                        bl0,
                        w,
                        x0 as int,
                        x1 as int,
                        y0 as int,
                        y as int,
                        x as int,
                        index,
                    );
                    assert(im.spec_blocks() =~= spec_mark_queued_upto(
                        bl0,
                        w,
                        x0 as int,
                        x1 as int,
                        y0 as int,
                        y as int,
                        x as int + 1,
                        index,
                    ));
                }
                x = x + 1;
            }
            proof {
                lemma_mark_queued_row_end(bl0, w, x0 as int, x1 as int, y0 as int, y as int, index);
                assert(im.spec_blocks() =~= spec_mark_queued(
                    bl0,
                    w,
                    x0 as int,
                    x1 as int,
                    y0 as int,
                    y as int + 1,
                    index,
                ));
            }
            y = y + 1;
        }
    } else {
        let p = b.pixel_index();
        let ghost bl0 = im.spec_blocks();
        if p.x < im.width() && p.y < im.height() {
            let slot = im.last_queued_block_mut(p);
            *slot = index;
        }
        proof {
            if b.spec_pixel_index().x < im.spec_width() && b.spec_pixel_index().y
                < im.spec_height() {
                assert(im.spec_blocks() =~= spec_marked_blocks(
                    bl0,
                    *b,
                    im.spec_width(),
                    im.spec_height(),
                    index,
                ));
            } else {
                assert(im.spec_blocks() =~= spec_marked_blocks(
                    bl0,
                    *b,
                    im.spec_width(),
                    im.spec_height(),
                    index,
                ));
            }
        }
    }
}

/// The slots after recording the index for a block: a pixel or superpixel
/// block writes its whole clamped cover; a subpixel block writes the one
/// pixel that contains it, if that pixel is inside the image.
pub open spec fn spec_marked_blocks(
    blocks: Seq<QueuedBlockIndex>,
    b: ImageBlock,
    w: u32,
    h: u32,
    index: QueuedBlockIndex,
) -> Seq<QueuedBlockIndex> {
    if b.kx >= 0 && b.ky >= 0 {
        spec_mark_queued(
            blocks,
            w as int,
            spec_cover_x0(b, w),
            spec_cover_x1(b, w),
            spec_cover_y0(b, h),
            spec_cover_y1(b, h),
            index,
        )
    } else if b.spec_pixel_index().x < w && b.spec_pixel_index().y < h {
        blocks.update(
            b.spec_pixel_index().y * w + b.spec_pixel_index().x,
            index,
        )
    } else {
        blocks
    }
}

/// The slots after writing whole rows `[y0, y)` plus columns `[x0, x)` of
/// row `y` of the rectangle.
pub open spec fn spec_mark_queued_upto(
    blocks: Seq<QueuedBlockIndex>,
    w: int,
    x0: int,
    x1: int,
    y0: int,
    y: int,
    x: int,
    index: QueuedBlockIndex,
) -> Seq<QueuedBlockIndex> {
    Seq::new(
        blocks.len(),
        |i: int|
            if spec_in_rect(i, w, x0, x1, y0, y) || (spec_in_rect(i, w, x0, x, y, y + 1)) {
                index
            } else {
                blocks[i]
            },
    )
}

/// At the start of a row, nothing of the row is written yet.
proof fn lemma_mark_queued_row_start(
    blocks: Seq<QueuedBlockIndex>,
    w: int,
    x0: int,
    x1: int,
    y0: int,
    y: int,
    index: QueuedBlockIndex,
)
    ensures
        spec_mark_queued(blocks, w, x0, x1, y0, y, index) =~= spec_mark_queued_upto(
            blocks,
            w,
            x0,
            x1,
            y0,
            y,
            x0,
            index,
        ),
{
}

/// Writing one more slot of the row advances the column bound.
proof fn lemma_mark_queued_step(
    blocks: Seq<QueuedBlockIndex>,
    w: int,
    x0: int,
    x1: int,
    y0: int,
    y: int,
    x: int,
    index: QueuedBlockIndex,
)
    requires
        0 < w,
        0 <= x < w,
        0 <= y,
        y0 <= y,
        x0 <= x < x1,
        0 <= y * w + x < blocks.len(),
    ensures
        spec_mark_queued_upto(blocks, w, x0, x1, y0, y, x + 1, index) =~= spec_mark_queued_upto(
            blocks,
            w,
            x0,
            x1,
            y0,
            y,
            x,
            index,
        ).update(y * w + x, index),
{
    lemma_rect_index(x, y, w);
    assert forall|i: int| 0 <= i < blocks.len() implies #[trigger] spec_mark_queued_upto(
        blocks,
        w,
        x0,
        x1,
        y0,
        y,
        x + 1,
        index,
    )[i] == spec_mark_queued_upto(blocks, w, x0, x1, y0, y, x, index).update(
        y * w + x,
        index,
    )[i] by {
        vstd::arithmetic::div_mod::lemma_fundamental_div_mod(i, w);
        if i != y * w + x {
            if i % w == x && i / w == y {
                assert(i == w * (i / w) + i % w);
                assert(w * y == y * w) by (nonlinear_arith);
                assert(false);
            }
        }
    }
}

/// A fully written row extends the rectangle by one row.
proof fn lemma_mark_queued_row_end(
    blocks: Seq<QueuedBlockIndex>,
    w: int,
    x0: int,
    x1: int,
    y0: int,
    y: int,
    index: QueuedBlockIndex,
)
    requires
        y0 <= y,
    ensures
        spec_mark_queued_upto(blocks, w, x0, x1, y0, y, x1, index) =~= spec_mark_queued(
            blocks,
            w,
            x0,
            x1,
            y0,
            y + 1,
            index,
        ),
{
}

/// Pads or replaces a relation result that does not have one slot per atom
/// with fully uncertain slots, so that a misbehaving collaborator can never
/// make the engine settle a pixel.
fn normalize_result(raw: EvalResult, n_atoms: usize) -> (r: EvalResult)
    ensures
        r@.len() == n_atoms,
{
    if raw.0.len() == n_atoms {
        return raw;
    }
    let mut out: Vec<DecSignSet> = Vec::new();
    let mut i: usize = 0;
    while i < n_atoms
        invariant
            i <= n_atoms,
            out@.len() == i,
        decreases n_atoms - i,
    {
        out.push(DecSignSet(SignSet { bits: 15 }, Decoration::Trv));
        i = i + 1;
    }
    EvalResult(out)
}

/// Evaluates the relation on a region through the cache.
fn eval_cached<R: Relation>(
    rel: &mut R,
    n_atoms: usize,
    cache: &mut EvalCache,
    x: IvBits,
    y: IvBits,
    n_theta: BranchInterval,
) -> (r: EvalResult)
    requires
        old(cache).wf(),
        old(cache).spec_n_atoms() == n_atoms,
    ensures
        r@.len() == n_atoms,
        final(cache).wf(),
        final(cache).spec_n_atoms() == n_atoms,
{
    match cache.get(x, y, n_theta) {
        Some(c) => c,
        None => {
            let raw = rel.eval(x, y, n_theta);
            let fixed = normalize_result(raw, n_atoms);
            cache.insert(x, y, n_theta, fixed.clone_result());
            fixed
        },
    }
}

/// Decides "the relation certainly holds everywhere on the region".
fn decide_true(r: &EvalResult, forms: &Vec<StaticForm>, forms_ok: bool) -> (ret: bool)
    requires
        forms_ok ==> spec_forms_wf(forms@, r@.len() as int) && forms@.len() > 0,
    ensures
        ret == (forms_ok && spec_eval_form(
            Seq::new(r@.len(), |j: int| r@[j].spec_certainly_zero()),
            forms@,
            forms@.len() - 1,
        )),
{
    if !forms_ok {
        return false;
    }
    let mask = r.map_certainly_zero();
    proof {
        assert(mask@ =~= Seq::new(r@.len(), |j: int| r@[j].spec_certainly_zero()));
    }
    mask.eval(forms)
}

/// Decides "the relation certainly fails everywhere on the region": no
/// atomic formula can be zero anywhere on it.
fn decide_false(r: &EvalResult, forms: &Vec<StaticForm>, forms_ok: bool) -> (ret: bool)
    requires
        forms_ok ==> spec_forms_wf(forms@, r@.len() as int) && forms@.len() > 0,
    ensures
        ret == (forms_ok && !spec_eval_form(
            Seq::new(r@.len(), |j: int| r@[j].spec_possibly_zero()),
            forms@,
            forms@.len() - 1,
        )),
{
    if !forms_ok {
        return false;
    }
    let mask = r.map_possibly_zero();
    proof {
        assert(mask@ =~= Seq::new(r@.len(), |j: int| r@[j].spec_possibly_zero()));
    }
    !mask.eval(forms)
}

/// One evaluation can never decide a region both certainly true and
/// certainly false: the consistency behind the soundness of pixel settling.
pub proof fn lemma_decisions_exclusive(r: Seq<DecSignSet>, forms: Seq<StaticForm>)
    ensures
        spec_eval_form(
            Seq::new(r.len(), |j: int| r[j].spec_certainly_zero()),
            forms,
            forms.len() - 1,
        ) ==> spec_eval_form(
            Seq::new(r.len(), |j: int| r[j].spec_possibly_zero()),
            forms,
            forms.len() - 1,
        ),
{
    crate::eval::lemma_certainly_true_excludes_certainly_false(r, forms, forms.len() - 1);
}

/// Picks a point of the region whose coordinates have as many trailing zero
/// bits as possible, so that expressions are more likely to evaluate to thin
/// intervals there. When a side is ordered under the IEEE-754 order key, the
/// chosen coordinate lies within it.
fn simple_eval_point(r: &Region) -> (p: (u64, u64))
    ensures
        spec_f64_key(r.x.lo) <= spec_f64_key(r.x.hi) ==> spec_f64_key(r.x.lo) <= spec_f64_key(p.0)
            && spec_f64_key(p.0) <= spec_f64_key(r.x.hi),
        spec_f64_key(r.y.lo) <= spec_f64_key(r.y.hi) ==> spec_f64_key(r.y.lo) <= spec_f64_key(p.1)
            && spec_f64_key(p.1) <= spec_f64_key(r.y.hi),
{
    (simple_coord(r.x), simple_coord(r.y))
}

/// The simple-bit heuristic on one axis: keep the bits down to the first
/// one where the endpoints differ, taking the lower endpoint when it is
/// nonpositive and the upper one otherwise.
fn simple_coord(iv: IvBits) -> (p: u64)
    ensures
        spec_f64_key(iv.lo) <= spec_f64_key(iv.hi) ==> spec_f64_key(iv.lo) <= spec_f64_key(p)
            && spec_f64_key(p) <= spec_f64_key(iv.hi),
{
    let a = iv.lo;
    let b = iv.hi;
    let diff = a ^ b;
    if diff == 0 {
        return a;
    }
    let mut q: u64 = 63;
    while q > 0 && (diff >> q) == 0
        invariant
            q <= 63,
            diff != 0,
            diff == a ^ b,
            q == 63 || (diff >> (q + 1)) == 0,
        decreases q,
    {
        q = q - 1;
    }
    proof {
        if q == 0 {
            let d = diff;
            assert(d != 0 ==> (d >> 0u64) != 0) by (bit_vector);
        }
    }
    let mask = !0u64 << q;
    let chosen = if a >= 0x8000_0000_0000_0000 || a == 0 {
        a & mask
    } else {
        b & mask
    };
    proof {
        if spec_f64_key(a) <= spec_f64_key(b) {
            lemma_key_le_as_bits(a, b);
            lemma_simple_coord_in_range(a, b, q);
            lemma_key_le_as_bits(a, chosen);
            lemma_key_le_as_bits(chosen, b);
        }
    }
    chosen
}

/// The IEEE-754 order key comparison, as a formula over the raw bits.
pub open spec fn spec_bits_le(a: u64, b: u64) -> bool {
    if (a >= 0x8000_0000_0000_0000) != (b >= 0x8000_0000_0000_0000) {
        (a >= 0x8000_0000_0000_0000) || (a == 0 && b == 0x8000_0000_0000_0000)
    } else if a >= 0x8000_0000_0000_0000 {
        b <= a
    } else {
        a <= b
    }
}

/// The bit formula agrees with the order key.
proof fn lemma_key_le_as_bits(a: u64, b: u64)
    ensures
        spec_bits_le(a, b) == (spec_f64_key(a) <= spec_f64_key(b)),
{
}

/// Masking off the bits below the highest differing bit keeps the chosen
/// endpoint between the two: the simple-bit point lies in the interval.
#[verifier::spinoff_prover]
#[verifier::rlimit(100)]
proof fn lemma_simple_coord_in_range(a: u64, b: u64, q: u64)
    requires
        q <= 63,
        ((a ^ b) >> q) != 0,
        q == 63 || ((a ^ b) >> (q + 1)) == 0,
        spec_bits_le(a, b),
    ensures
        spec_bits_le(a, if a >= 0x8000_0000_0000_0000 || a == 0 {
            a & (!0u64 << q)
        } else {
            b & (!0u64 << q)
        }),
        spec_bits_le(
            if a >= 0x8000_0000_0000_0000 || a == 0 {
                a & (!0u64 << q)
            } else {
                b & (!0u64 << q)
            },
            b,
        ),
{
    let c = if a >= 0x8000_0000_0000_0000 || a == 0 {
        a & (!0u64 << q)
    } else {
        b & (!0u64 << q)
    };
    assert({
        let c2 = if a >= 0x8000_0000_0000_0000 || a == 0 {
            a & (!0u64 << q)
        } else {
            b & (!0u64 << q)
        };
        &&& (if (a >= 0x8000_0000_0000_0000) != (c2 >= 0x8000_0000_0000_0000) {
            (a >= 0x8000_0000_0000_0000) || (a == 0 && c2 == 0x8000_0000_0000_0000)
        } else if a >= 0x8000_0000_0000_0000 {
            c2 <= a
        } else {
            a <= c2
        })
        &&& (if (c2 >= 0x8000_0000_0000_0000) != (b >= 0x8000_0000_0000_0000) {
            (c2 >= 0x8000_0000_0000_0000) || (c2 == 0 && b == 0x8000_0000_0000_0000)
        } else if c2 >= 0x8000_0000_0000_0000 {
            b <= c2
        } else {
            c2 <= b
        })
    }) by (bit_vector)
        requires
            q <= 63,
            ((a ^ b) >> q) != 0,
            q == 63 || ((a ^ b) >> (q + 1)) == 0,
            (if (a >= 0x8000_0000_0000_0000) != (b >= 0x8000_0000_0000_0000) {
                (a >= 0x8000_0000_0000_0000) || (a == 0 && b == 0x8000_0000_0000_0000)
            } else if a >= 0x8000_0000_0000_0000 {
                b <= a
            } else {
                a <= b
            }),
    ;
}

/// The graphing engine: the image, the block queue, the affine mapping
/// into graph space, and the collaborators that evaluate the relation.
pub struct Graph<R: Relation, F: IntervalOps> {
    rel: R,
    ops: F,
    forms: Vec<StaticForm>,
    forms_ok: bool,
    n_atoms: usize,
    relation_type: RelationType,
    im: Image,
    bs_to_subdivide: ImageBlockQueue,
    sx: IvBits,
    sy: IvBits,
    tx: IvBits,
    ty: IvBits,
    time_elapsed_ms: u64,
    mem_limit: u64,
}

impl<R: Relation, F: IntervalOps> Graph<R, F> {
    /// The pixel states of the image, row-major, for use in specifications.
    pub closed spec fn spec_states(&self) -> Seq<PixelState> {
        self.im.spec_states()
    }

    /// The image width, for use in specifications.
    pub closed spec fn spec_width(&self) -> u32 {
        self.im.spec_width()
    }

    /// The image height, for use in specifications.
    pub closed spec fn spec_height(&self) -> u32 {
        self.im.spec_height()
    }

    /// The last-queued-block slots of the image, for use in specifications.
    pub closed spec fn spec_last_queued(&self) -> Seq<QueuedBlockIndex> {
        self.im.spec_blocks()
    }

    /// The queued blocks, front first, for use in specifications.
    pub closed spec fn spec_queue(&self) -> Seq<ImageBlock> {
        self.bs_to_subdivide@
    }

    /// The relation's shape as the engine recorded it, for use in
    /// specifications.
    pub closed spec fn spec_relation_type(&self) -> RelationType {
        self.relation_type
    }

    /// The engine's invariant: a well-formed image, a well-formed queue of
    /// well-formed blocks matching the relation's shape, and a validated
    /// form tree.
    pub closed spec fn wf(&self) -> bool {
        &&& self.im.wf()
        &&& self.bs_to_subdivide.wf()
        &&& self.bs_to_subdivide.spec_polar() == (self.relation_type == RelationType::Polar)
        &&& forall|i: int|
            0 <= i < self.bs_to_subdivide@.len() ==> (#[trigger] self.bs_to_subdivide@[i]).wf()
        &&& self.forms_ok ==> spec_forms_wf(self.forms@, self.n_atoms as int) && self.forms@.len()
            > 0
    }

    /// Creates a new graph over the given real region and starts it with the
    /// seed blocks: three branch seeds for a polar relation, one otherwise.
    pub fn new(
        rel: R,
        ops: F,
        region: crate::interval::InexactRegion,
        im_width: u32,
        im_height: u32,
        mem_limit: u64,
    ) -> (g: Self)
        requires
            0 < im_width <= MAX_IMAGE_WIDTH,
            0 < im_height <= MAX_IMAGE_WIDTH,
        ensures
            g.wf(),
            g.spec_width() == im_width,
            g.spec_height() == im_height,
            g.spec_states().len() == im_width * im_height,
            forall|i: int|
                0 <= i < g.spec_states().len() ==> g.spec_states()[i] == PixelState::Uncertain,
            spec_seed_level_ok(g.spec_queue()[0].kx, im_width, im_height),
            ({
                let k = g.spec_queue()[0].kx;
                &&& (g.spec_relation_type() == RelationType::Polar ==> g.spec_queue() == seq![
                    spec_child_block(
                        0,
                        0,
                        k,
                        k,
                        BranchInterval {
                            lo: crate::block::BranchBound::NegInf,
                            hi: crate::block::BranchBound::Fin(-1 as i64),
                        },
                    ),
                    spec_child_block(
                        0,
                        0,
                        k,
                        k,
                        BranchInterval {
                            lo: crate::block::BranchBound::Fin(0 as i64),
                            hi: crate::block::BranchBound::Fin(0 as i64),
                        },
                    ),
                    spec_child_block(
                        0,
                        0,
                        k,
                        k,
                        BranchInterval {
                            lo: crate::block::BranchBound::Fin(1 as i64),
                            hi: crate::block::BranchBound::PosInf,
                        },
                    ),
                ])
                &&& (g.spec_relation_type() != RelationType::Polar ==> g.spec_queue() == seq![
                    spec_child_block(0, 0, k, k, BranchInterval::spec_entire()),
                ])
            }),
            g.spec_relation_type() == RelationType::Polar ==> forall|i: int|
                0 <= i < g.spec_last_queued().len() ==> #[trigger] g.spec_last_queued()[i] == 2,
            g.spec_relation_type() != RelationType::Polar ==> forall|i: int|
                0 <= i < g.spec_last_queued().len() ==> #[trigger] g.spec_last_queued()[i] == 0,
    {
        let rel = rel;
        let forms = rel.forms();
        let n_atoms = rel.atom_count();
        let relation_type = rel.relation_type();
        let forms_ok = check_forms(&forms, n_atoms);
        let mut im = Image::new(im_width, im_height);
        let polar = matches!(relation_type, RelationType::Polar);
        let mut queue = ImageBlockQueue::new(polar);
        let w_iv = ops.sub(region.r, region.l);
        let h_iv = ops.sub(region.t, region.b);
        let sx = ops.div(w_iv, IvBits::point(dyadic_bits(im_width, 0)));
        let sy = ops.div(h_iv, IvBits::point(dyadic_bits(im_height, 0)));
        let m = if im_width >= im_height {
            im_width
        } else {
            im_height
        };
        let mut k: i8 = 0;
        while (1u32 << (k as u32)) < m
            invariant
                0 <= k <= 15,
                1 <= m <= 0x8000,
                k == 0 || vstd::arithmetic::power2::pow2((k - 1) as nat) < m,
            decreases 15 - k,
        {
            proof {
                let kk = k;
                assert(kk < 15 ==> (1u32 << ((kk + 1) as u32)) <= 0x8000u32) by (bit_vector)
                    requires
                        0 <= kk < 16,
                ;
                assert((1u32 << (kk as u32)) >= 0x8000u32 ==> !((1u32 << (kk as u32))
                    < 0x8000u32)) by (bit_vector);
                assert(kk == 15 ==> (1u32 << (kk as u32)) == 0x8000u32) by (bit_vector);
                vstd::bits::lemma_u32_pow2_no_overflow(k as nat);
                vstd::bits::lemma_u32_shl_is_mul(1u32, k as u32);
            }
            k = k + 1;
        }
        proof {
            lemma_seed_block_wf(k);
            vstd::bits::lemma_u32_pow2_no_overflow(k as nat);
            vstd::bits::lemma_u32_shl_is_mul(1u32, k as u32);
            assert(vstd::arithmetic::power2::pow2(k as nat) >= m);
            assert(spec_seed_level_ok(k, im_width, im_height));
        }
        if polar {
            let b0 = ImageBlock::new(0, 0, k, k, BranchInterval::below(-1));
            let b1 = ImageBlock::new(0, 0, k, k, BranchInterval::singleton(0));
            let b2 = ImageBlock::new(0, 0, k, k, BranchInterval::above(1));
            mark_last_queued(&mut im, &b2, 2);
            proof {
                lemma_seed_cover_everything(b2, im_width, im_height);
                assert forall|i: int| 0 <= i < im.spec_blocks().len()
                    implies #[trigger] im.spec_blocks()[i] == 2u32 by {
                    lemma_flat_index_in_rect(i, im_width as int, im_height as int);
                }
            }
            let _ = queue.push_back(b0);
            let _ = queue.push_back(b1);
            let _ = queue.push_back(b2);
            proof {
                assert(queue@ =~= seq![b0, b1, b2]);
            }
        } else {
            let b0 = ImageBlock::new(0, 0, k, k, BranchInterval::entire());
            let _ = queue.push_back(b0);
            proof {
                assert(queue@ =~= seq![b0]);
            }
        }
        Graph {
            rel,
            ops,
            forms,
            forms_ok,
            n_atoms,
            relation_type,
            im,
            bs_to_subdivide: queue,
            sx,
            sy,
            tx: region.l,
            ty: region.b,
            time_elapsed_ms: 0,
            mem_limit,
        }
    }

    /// Maps a block to its real region: each pixel-space bound is pushed
    /// through the affine map `bound * s + t` by the interval collaborator.
    /// A collaborator that returns disordered bounds gets a degenerate
    /// region instead of a panic.
    fn block_to_region(&self, b: &ImageBlock) -> (r: crate::interval::InexactRegion)
        requires
            b.wf(),
    {
        proof {
            lemma_coord_incr(b.x, b.kx);
            lemma_coord_incr(b.y, b.ky);
        }
        let (l2, r2) = ordered_sides(
            self.ops.mul_add(IvBits::point(dyadic_bits(b.x, b.kx)), self.sx, self.tx),
            self.ops.mul_add(IvBits::point(dyadic_bits(b.x + 1, b.kx)), self.sx, self.tx),
        );
        let (b2, t2) = ordered_sides(
            self.ops.mul_add(IvBits::point(dyadic_bits(b.y, b.ky)), self.sy, self.ty),
            self.ops.mul_add(IvBits::point(dyadic_bits(b.y + 1, b.ky)), self.sy, self.ty),
        );
        crate::interval::InexactRegion::new(l2, r2, b2, t2)
    }

    /// Maps a pixel or superpixel block to its real region, clipping its
    /// pixel extent to the image on the right and top edges.
    fn block_to_region_clipped(&self, b: &ImageBlock) -> (r: crate::interval::InexactRegion)
        requires
            b.wf(),
            b.kx >= 0,
            b.ky >= 0,
    {
        let (x0, x1, y0, y1) = block_pixel_range(b, self.im.width(), self.im.height());
        let px = b.pixel_index();
        let (l2, r2) = ordered_sides(
            self.ops.mul_add(IvBits::point(dyadic_bits(px.x, 0)), self.sx, self.tx),
            self.ops.mul_add(IvBits::point(dyadic_bits(x1, 0)), self.sx, self.tx),
        );
        let (b2, t2) = ordered_sides(
            self.ops.mul_add(IvBits::point(dyadic_bits(px.y, 0)), self.sy, self.ty),
            self.ops.mul_add(IvBits::point(dyadic_bits(y1, 0)), self.sy, self.ty),
        );
        crate::interval::InexactRegion::new(l2, r2, b2, t2)
    }

    /// The subpixel outer region: a side that falls on a pixel boundary
    /// keeps its pessimistic bound; an interior side is split at a point the
    /// interval collaborator picks, so that the subpixels tiling one pixel
    /// tile its outer region.
    pub fn subpixel_outer(&self, u: &crate::interval::InexactRegion, b: &ImageBlock) -> (r: Region)
        requires
            b.wf(),
            b.kx <= 0,
            b.ky <= 0,
        ensures
            !r.empty,
            spec_pixel_aligned(b.x, b.kx) ==> r.x.lo == u.l.lo,
            spec_pixel_aligned((b.x + 1) as u32, b.kx) ==> r.x.hi == u.r.hi,
            spec_pixel_aligned(b.y, b.ky) ==> r.y.lo == u.b.lo,
            spec_pixel_aligned((b.y + 1) as u32, b.ky) ==> r.y.hi == u.t.hi,
    {
        proof {
            lemma_coord_incr(b.x, b.kx);
            lemma_coord_incr(b.y, b.ky);
        }
        let mask_x = b.pixel_align_x() - 1;
        let mask_y = b.pixel_align_y() - 1;
        let l = if b.x & mask_x == 0 {
            u.l.lo
        } else {
            self.ops.midpoint(u.l)
        };
        let r = if (b.x + 1) & mask_x == 0 {
            u.r.hi
        } else {
            self.ops.midpoint(u.r)
        };
        let bb = if b.y & mask_y == 0 {
            u.b.lo
        } else {
            self.ops.midpoint(u.b)
        };
        let t = if (b.y + 1) & mask_y == 0 {
            u.t.hi
        } else {
            self.ops.midpoint(u.t)
        };
        Region { x: IvBits { lo: l, hi: r }, y: IvBits { lo: bb, hi: t }, empty: false }
    }
}

impl<R: Relation, F: IntervalOps> Graph<R, F> {
    /// Classifies a pixel or superpixel block: proves it true or false from
    /// one region evaluation, or reports it incomplete. Settled pixels never
    /// change.
    fn refine_pixel(
        &mut self,
        cache: &mut EvalCache,
        b: &ImageBlock,
        is_last_sibling: bool,
        parent: QueuedBlockIndex,
    ) -> (complete: bool)
        requires
            old(self).wf(),
            b.wf(),
            b.kx >= 0,
            b.ky >= 0,
            old(cache).wf(),
            old(cache).spec_n_atoms() == old(self).n_atoms,
        ensures
            final(self).wf(),
            final(cache).wf(),
            final(cache).spec_n_atoms() == final(self).n_atoms,
            states_monotone(old(self).spec_states(), final(self).spec_states()),
            final(self).same_shape(old(self)),
            final(self).bs_to_subdivide == old(self).bs_to_subdivide,
            final(self).spec_last_queued() == old(self).spec_last_queued(),
            !complete ==> final(self).spec_states() == old(self).spec_states(),
            spec_all_true(
                old(self).spec_states(),
                old(self).spec_width() as int,
                spec_cover_x0(*b, old(self).spec_width()),
                spec_cover_x1(*b, old(self).spec_width()),
                spec_cover_y0(*b, old(self).spec_height()),
                spec_cover_y1(*b, old(self).spec_height()),
            ) ==> complete,
            final(self).spec_states() == old(self).spec_states() || final(self).spec_states()
                == spec_mark_true(
                old(self).spec_states(),
                old(self).spec_width() as int,
                spec_cover_x0(*b, old(self).spec_width()),
                spec_cover_x1(*b, old(self).spec_width()),
                spec_cover_y0(*b, old(self).spec_height()),
                spec_cover_y1(*b, old(self).spec_height()),
            ) || (is_last_sibling && final(self).spec_states() == spec_mark_false(
                old(self).spec_states(),
                old(self).spec_last_queued(),
                old(self).spec_width() as int,
                spec_cover_x0(*b, old(self).spec_width()),
                spec_cover_x1(*b, old(self).spec_width()),
                spec_cover_y0(*b, old(self).spec_height()),
                spec_cover_y1(*b, old(self).spec_height()),
                parent,
            )),
    {
        let (x0, x1, y0, y1) = block_pixel_range(b, self.im.width(), self.im.height());
        if all_true_in_range(&self.im, x0, x1, y0, y1) {
            return true;
        }
        let u = self.block_to_region_clipped(b);
        let rr = u.outer();
        let r = eval_cached(&mut self.rel, self.n_atoms, cache, rr.x, rr.y, b.n_theta);
        let is_true = decide_true(&r, &self.forms, self.forms_ok);
        let is_false = decide_false(&r, &self.forms, self.forms_ok);
        if !(is_true || is_false) {
            return false;
        }
        if is_true {
            mark_true_range(&mut self.im, x0, x1, y0, y1);
        } else if is_last_sibling {
            mark_false_range(&mut self.im, x0, x1, y0, y1, parent);
        }
        true
    }

    /// Classifies a subpixel block: proves the enclosing pixel true from a
    /// locally-zero evaluation or an intermediate-value-theorem witness at
    /// sample points, finalizes false, or reports it incomplete.
    fn refine_subpixel(
        &mut self,
        cache_region: &mut EvalCache,
        cache_point: &mut EvalCache,
        b: &ImageBlock,
        is_last_sibling: bool,
        parent: QueuedBlockIndex,
    ) -> (complete: bool)
        requires
            old(self).wf(),
            b.wf(),
            b.kx <= 0,
            b.ky <= 0,
            old(cache_region).wf(),
            old(cache_region).spec_n_atoms() == old(self).n_atoms,
            old(cache_point).wf(),
            old(cache_point).spec_n_atoms() == old(self).n_atoms,
        ensures
            final(self).wf(),
            final(cache_region).wf(),
            final(cache_region).spec_n_atoms() == final(self).n_atoms,
            final(cache_point).wf(),
            final(cache_point).spec_n_atoms() == final(self).n_atoms,
            states_monotone(old(self).spec_states(), final(self).spec_states()),
            final(self).same_shape(old(self)),
            final(self).bs_to_subdivide == old(self).bs_to_subdivide,
            final(self).spec_last_queued() == old(self).spec_last_queued(),
            !complete ==> final(self).spec_states() == old(self).spec_states(),
            ({
                let px = b.spec_pixel_index().x as int;
                let py = b.spec_pixel_index().y as int;
                &&& ((px < old(self).spec_width() && py < old(self).spec_height()
                    && old(self).spec_states()[py * old(self).spec_width() + px]
                    != PixelState::Uncertain) ==> complete)
                &&& (final(self).spec_states() == old(self).spec_states()
                    || final(self).spec_states() == spec_mark_true(
                    old(self).spec_states(),
                    old(self).spec_width() as int,
                    px,
                    px + 1,
                    py,
                    py + 1,
                ) || (is_last_sibling && final(self).spec_states() == spec_mark_false(
                    old(self).spec_states(),
                    old(self).spec_last_queued(),
                    old(self).spec_width() as int,
                    px,
                    px + 1,
                    py,
                    py + 1,
                    parent,
                )))
            }),
    {
        let pixel = b.pixel_index();
        if pixel.x >= self.im.width() || pixel.y >= self.im.height() {
            return true;
        }
        let state = self.im.state(pixel);
        if !matches!(state, PixelState::Uncertain) {
            // the pixel is already settled; nothing to prove here
            return true;
        }
        let base = self.block_to_region(b);
        let u_up = self.subpixel_outer(&base, b);
        let r = eval_cached(&mut self.rel, self.n_atoms, cache_region, u_up.x, u_up.y, b.n_theta);
        let locally_zero = r.map_certainly_zero();
        let lz_holds = self.forms_ok && locally_zero.eval(&self.forms);
        let p_dn = self.block_to_region(&b.pixel_block()).inner();
        let inter = u_up.intersection(&p_dn);
        let inter_empty = inter.is_empty();
        if lz_holds && !inter_empty {
            // the relation holds everywhere on the subpixel, which certainly
            // overlaps the pixel
            mark_true_range(&mut self.im, pixel.x, pixel.x + 1, pixel.y, pixel.y + 1);
            return true;
        }
        if decide_false(&r, &self.forms, self.forms_ok) {
            if is_last_sibling {
                mark_false_range(&mut self.im, pixel.x, pixel.x + 1, pixel.y, pixel.y + 1, parent);
            }
            return true;
        }
        if inter_empty {
            return false;
        }
        // look for a solution at sample points: a point where the relation
        // certainly holds, or sign changes that prove one by the
        // intermediate value theorem
        let dac = r.map_dac();
        let simple = simple_eval_point(&inter);
        let mut points: Vec<(u64, u64)> = Vec::new();
        points.push(simple);
        points.push((inter.x.lo, inter.y.lo));
        points.push((inter.x.hi, inter.y.lo));
        points.push((inter.x.lo, inter.y.hi));
        points.push((inter.x.hi, inter.y.hi));
        let mut neg = EvalResultMask::all_false(self.n_atoms);
        let mut pos = EvalResultMask::all_false(self.n_atoms);
        let mut i: usize = 0;
        while i < points.len()
            invariant
                self.wf(),
                cache_region.wf(),
                cache_region.spec_n_atoms() == self.n_atoms,
                cache_point.wf(),
                cache_point.spec_n_atoms() == self.n_atoms,
                self.bs_to_subdivide == old(self).bs_to_subdivide,
                self.spec_states() == old(self).spec_states(),
                self.spec_last_queued() == old(self).spec_last_queued(),
                pixel == b.spec_pixel_index(),
                neg@.len() == self.n_atoms,
                pos@.len() == self.n_atoms,
                locally_zero@.len() == self.n_atoms,
                dac@.len() == self.n_atoms,
                states_monotone(old(self).spec_states(), self.spec_states()),
                self.same_shape(old(self)),
                pixel.x < self.im.spec_width(),
                pixel.y < self.im.spec_height(),
            decreases points@.len() - i,
        {
            let (px, py) = points[i];
            let rp = eval_cached(
                &mut self.rel,
                self.n_atoms,
                cache_point,
                IvBits::point(px),
                IvBits::point(py),
                b.n_theta,
            );
            neg = neg.or(&rp.map_nonpositive());
            pos = pos.or(&rp.map_nonnegative());
            let point_true = decide_true(&rp, &self.forms, self.forms_ok);
            let witness = neg.and(&pos).and(&dac);
            let exists = self.forms_ok && witness.solution_certainly_exists(
                &self.forms,
                &locally_zero,
            );
            if point_true || exists {
                mark_true_range(&mut self.im, pixel.x, pixel.x + 1, pixel.y, pixel.y + 1);
                return true;
            }
            i = i + 1;
        }
        false
    }

    /// Everything but the pixel states and the queue is unchanged.
    pub closed spec fn same_shape(&self, other: &Self) -> bool {
        &&& self.im.spec_width() == other.im.spec_width()
        &&& self.im.spec_height() == other.im.spec_height()
        &&& self.n_atoms == other.n_atoms
        &&& self.forms == other.forms
        &&& self.forms_ok == other.forms_ok
        &&& self.relation_type == other.relation_type
        &&& self.mem_limit == other.mem_limit
    }
}

impl<R: Relation, F: IntervalOps> Graph<R, F> {
    /// Subdivides a block on the image plane and appends the children, each
    /// with its last-sibling flag. A superpixel splits each axis that is
    /// above pixel level, dropping children outside the image; a pixel or
    /// subpixel splits along the axes the relation shape calls for, if the
    /// subdivision floor has not been reached.
    fn subdivide_on_xy(&self, out: &mut Vec<(ImageBlock, bool)>, b: &ImageBlock)
        requires
            self.wf(),
            b.wf(),
            old(out)@.len() == 0,
        ensures
            forall|i: int| 0 <= i < final(out)@.len() ==> (#[trigger] final(out)@[i]).0.wf(),
            final(out)@.len() <= 4,
            final(out)@ == spec_xy_children(
                *b,
                self.spec_width(),
                self.spec_height(),
                self.spec_relation_type(),
            ),
    {
        proof {
            lemma_coord_incr(b.x, b.kx);
            lemma_coord_incr(b.y, b.ky);
        }
        if b.kx > 0 || b.ky > 0 {
            // a superpixel: split each axis that is above pixel level
            let (xs0, xs1, kx2) = if b.kx > 0 {
                proof {
                    lemma_halved_coord_wf(b.x, b.kx);
                }
                (2 * b.x, Some(2 * b.x + 1), b.kx - 1)
            } else {
                (b.x, None, b.kx)
            };
            let (ys0, ys1, ky2) = if b.ky > 0 {
                proof {
                    lemma_halved_coord_wf(b.y, b.ky);
                }
                (2 * b.y, Some(2 * b.y + 1), b.ky - 1)
            } else {
                (b.y, None, b.ky)
            };
            let w = self.im.width();
            let h = self.im.height();
            out.push((ImageBlock::new(xs0, ys0, kx2, ky2, b.n_theta), true));
            match ys1 {
                Some(y1) => {
                    if child_starts_inside(y1, ky2, h) {
                        out.push((ImageBlock::new(xs0, y1, kx2, ky2, b.n_theta), true));
                    }
                },
                None => {},
            }
            match xs1 {
                Some(x1) => {
                    if child_starts_inside(x1, kx2, w) {
                        out.push((ImageBlock::new(x1, ys0, kx2, ky2, b.n_theta), true));
                        match ys1 {
                            Some(y1) => {
                                if child_starts_inside(y1, ky2, h) {
                                    out.push((ImageBlock::new(x1, y1, kx2, ky2, b.n_theta), true));
                                }
                            },
                            None => {},
                        }
                    }
                },
                None => {},
            }
            proof {
                assert(out@ =~= spec_xy_children(
                    *b,
                    self.spec_width(),
                    self.spec_height(),
                    self.spec_relation_type(),
                ));
            }
        } else {
            // a pixel or subpixel: split along the axes the relation shape
            // calls for, two children for a function of one variable and
            // four otherwise
            let split_x = !matches!(self.relation_type, RelationType::FunctionOfY);
            let split_y = !matches!(self.relation_type, RelationType::FunctionOfX);
            if (split_x && b.kx <= MIN_K) || (split_y && b.ky <= MIN_K) {
                // the subdivision floor is reached: keep the block whole, so
                // that an unsettled block here surfaces as a subdivision
                // failure
                out.push((*b, true));
                proof {
                    assert(out@ =~= spec_xy_children(
                        *b,
                        self.spec_width(),
                        self.spec_height(),
                        self.spec_relation_type(),
                    ));
                }
                return;
            }
            if split_x && split_y {
                proof {
                    lemma_halved_coord_wf_low(b.x, b.kx);
                    lemma_halved_coord_wf_low(b.y, b.ky);
                }
                let kx2 = b.kx - 1;
                let ky2 = b.ky - 1;
                out.push((ImageBlock::new(2 * b.x, 2 * b.y, kx2, ky2, b.n_theta), false));
                out.push((ImageBlock::new(2 * b.x + 1, 2 * b.y, kx2, ky2, b.n_theta), false));
                out.push((ImageBlock::new(2 * b.x, 2 * b.y + 1, kx2, ky2, b.n_theta), false));
                out.push((ImageBlock::new(2 * b.x + 1, 2 * b.y + 1, kx2, ky2, b.n_theta), true));
                proof {
                    assert(out@ =~= spec_xy_children(
                        *b,
                        self.spec_width(),
                        self.spec_height(),
                        self.spec_relation_type(),
                    ));
                }
            } else if split_x {
                proof {
                    lemma_halved_coord_wf_low(b.x, b.kx);
                }
                let kx2 = b.kx - 1;
                out.push((ImageBlock::new(2 * b.x, b.y, kx2, b.ky, b.n_theta), false));
                out.push((ImageBlock::new(2 * b.x + 1, b.y, kx2, b.ky, b.n_theta), true));
                proof {
                    assert(out@ =~= spec_xy_children(
                        *b,
                        self.spec_width(),
                        self.spec_height(),
                        self.spec_relation_type(),
                    ));
                }
            } else if split_y {
                proof {
                    lemma_halved_coord_wf_low(b.y, b.ky);
                }
                let ky2 = b.ky - 1;
                out.push((ImageBlock::new(b.x, 2 * b.y, b.kx, ky2, b.n_theta), false));
                out.push((ImageBlock::new(b.x, 2 * b.y + 1, b.kx, ky2, b.n_theta), true));
                proof {
                    assert(out@ =~= spec_xy_children(
                        *b,
                        self.spec_width(),
                        self.spec_height(),
                        self.spec_relation_type(),
                    ));
                }
            } else {
                proof {
                    assert(out@ =~= spec_xy_children(
                        *b,
                        self.spec_width(),
                        self.spec_height(),
                        self.spec_relation_type(),
                    ));
                }
            }
        }
    }
}

/// A child block of an image-plane subdivision, with its next direction
/// reset.
pub open spec fn spec_child_block(x: u32, y: u32, kx: i8, ky: i8, n: BranchInterval) -> ImageBlock {
    ImageBlock { x, y, kx, ky, n_theta: n, next_dir: SubdivisionDir::XY }
}

/// The seed level of the refinement: the least level whose single block
/// covers the whole image.
pub open spec fn spec_seed_level_ok(k: i8, w: u32, h: u32) -> bool {
    let m: u32 = if w >= h {
        w
    } else {
        h
    };
    &&& 0 <= k <= 15
    &&& vstd::arithmetic::power2::pow2(k as nat) >= m
    &&& (k == 0 || vstd::arithmetic::power2::pow2((k - 1) as nat) < m)
}

/// The child's first pixel lies inside the image on this axis.
pub open spec fn spec_child_inside(x: u32, k: i8, limit: u32) -> bool {
    x * vstd::arithmetic::power2::pow2(k as nat) < limit
}

/// The children of an image-plane subdivision, in emission order. A
/// superpixel splits each axis that is above pixel level, dropping children
/// outside the image; every superpixel child is flagged as a last sibling,
/// for the children cover disjoint pixels, so each child is the one block
/// of its batch covering its own pixels. A pixel or subpixel splits along
/// the axes the relation shape calls for, and only the lexicographically
/// last child carries the flag; a block at the subdivision floor is kept
/// whole.
pub open spec fn spec_xy_children(b: ImageBlock, w: u32, h: u32, rt: RelationType) -> Seq<
    (ImageBlock, bool),
> {
    if b.kx > 0 || b.ky > 0 {
        let xs0 = if b.kx > 0 {
            (2 * b.x) as u32
        } else {
            b.x
        };
        let kx2 = if b.kx > 0 {
            (b.kx - 1) as i8
        } else {
            b.kx
        };
        let ys0 = if b.ky > 0 {
            (2 * b.y) as u32
        } else {
            b.y
        };
        let ky2 = if b.ky > 0 {
            (b.ky - 1) as i8
        } else {
            b.ky
        };
        let x1 = (2 * b.x + 1) as u32;
        let y1 = (2 * b.y + 1) as u32;
        let base = seq![(spec_child_block(xs0, ys0, kx2, ky2, b.n_theta), true)];
        let with_y = if b.ky > 0 && spec_child_inside(y1, ky2, h) {
            base + seq![(spec_child_block(xs0, y1, kx2, ky2, b.n_theta), true)]
        } else {
            base
        };
        if b.kx > 0 && spec_child_inside(x1, kx2, w) {
            let with_x = with_y + seq![(spec_child_block(x1, ys0, kx2, ky2, b.n_theta), true)];
            if b.ky > 0 && spec_child_inside(y1, ky2, h) {
                with_x + seq![(spec_child_block(x1, y1, kx2, ky2, b.n_theta), true)]
            } else {
                with_x
            }
        } else {
            with_y
        }
    } else {
        let split_x = rt != RelationType::FunctionOfY;
        let split_y = rt != RelationType::FunctionOfX;
        if (split_x && b.kx <= MIN_K) || (split_y && b.ky <= MIN_K) {
            seq![(b, true)]
        } else if split_x && split_y {
            let kx2 = (b.kx - 1) as i8;
            let ky2 = (b.ky - 1) as i8;
            seq![
                (spec_child_block((2 * b.x) as u32, (2 * b.y) as u32, kx2, ky2, b.n_theta), false),
                (
                    spec_child_block((2 * b.x + 1) as u32, (2 * b.y) as u32, kx2, ky2, b.n_theta),
                    false,
                ),
                (
                    spec_child_block((2 * b.x) as u32, (2 * b.y + 1) as u32, kx2, ky2, b.n_theta),
                    false,
                ),
                (
                    spec_child_block(
                        (2 * b.x + 1) as u32,
                        (2 * b.y + 1) as u32,
                        kx2,
                        ky2,
                        b.n_theta,
                    ),
                    true,
                ),
            ]
        } else if split_x {
            let kx2 = (b.kx - 1) as i8;
            seq![
                (spec_child_block((2 * b.x) as u32, b.y, kx2, b.ky, b.n_theta), false),
                (spec_child_block((2 * b.x + 1) as u32, b.y, kx2, b.ky, b.n_theta), true),
            ]
        } else if split_y {
            let ky2 = (b.ky - 1) as i8;
            seq![
                (spec_child_block(b.x, (2 * b.y) as u32, b.kx, ky2, b.n_theta), false),
                (spec_child_block(b.x, (2 * b.y + 1) as u32, b.kx, ky2, b.n_theta), true),
            ]
        } else {
            Seq::empty()
        }
    }
}

/// Bisects a branch interval up to twice: between one and four parts that
/// chain from the interval's lower endpoint to its upper one.
#[verifier::spinoff_prover]
#[verifier::rlimit(100)]
fn branch_parts(n: BranchInterval) -> (parts: Vec<BranchInterval>)
    requires
        n.wf(),
        !n.spec_is_entire(),
    ensures
        1 <= parts@.len() <= 4,
        parts@[0].lo == n.lo,
        parts@.last().hi == n.hi,
        forall|i: int| 0 <= i < parts@.len() ==> (#[trigger] parts@[i]).wf(),
        forall|i: int|
            0 <= i < parts@.len() - 1 ==> BranchInterval::contiguous(
                #[trigger] parts@[i],
                parts@[i + 1],
            ),
        (!n.spec_is_singleton() && n.spec_mig() <= MAX_DISCRETE_N_THETA) ==> parts@.len() >= 2,
{
    let (h1, h2opt) = n.bisect();
    let mut parts: Vec<BranchInterval> = Vec::new();
    let (p1, p2opt) = h1.bisect();
    parts.push(p1);
    match p2opt {
        Some(p2) => parts.push(p2),
        None => {},
    }
    proof {
        assert(parts@[0].lo == n.lo);
        assert(parts@.last().hi == h1.hi);
    }
    match h2opt {
        Some(h2) => {
            let (p3, p4opt) = h2.bisect();
            let ghost before = parts@;
            parts.push(p3);
            match p4opt {
                Some(p4) => parts.push(p4),
                None => {},
            }
            proof {
                assert(parts@[0].lo == n.lo);
                assert(parts@.last().hi == n.hi);
                assert forall|i: int| 0 <= i < parts@.len() - 1 implies
                    BranchInterval::contiguous(#[trigger] parts@[i], parts@[i + 1]) by {
                    if i < before.len() - 1 {
                        assert(parts@[i] == before[i]);
                        assert(parts@[i + 1] == before[i + 1]);
                    }
                }
            }
        },
        None => {},
    }
    parts
}

#[verifier::spinoff_prover]
#[verifier::rlimit(100)]
fn subdivide_on_n_theta(out: &mut Vec<(ImageBlock, bool)>, b: &ImageBlock)
    requires
        b.wf(),
        old(out)@.len() == 0,
    ensures
        1 <= final(out)@.len() <= 4,
        forall|i: int|
            0 <= i < final(out)@.len() ==> {
                let c = (#[trigger] final(out)@[i]).0;
                &&& c.wf()
                &&& c.x == b.x
                &&& c.y == b.y
                &&& c.kx == b.kx
                &&& c.ky == b.ky
                &&& c.next_dir == b.next_dir
            },
        final(out)@[0].0.n_theta.lo == b.n_theta.lo,
        final(out)@.last().0.n_theta.hi == b.n_theta.hi,
        forall|i: int|
            0 <= i < final(out)@.len() - 1 ==> BranchInterval::contiguous(
                (#[trigger] final(out)@[i]).0.n_theta,
                final(out)@[i + 1].0.n_theta,
            ),
        forall|i: int|
            0 <= i < final(out)@.len() ==> (#[trigger] final(out)@[i]).1 == (i == final(out)@.len()
                - 1),
        (!b.n_theta.spec_is_singleton() && b.n_theta.spec_mig() <= MAX_DISCRETE_N_THETA
            && !b.n_theta.spec_is_entire()) ==> final(out)@.len() >= 2,
{
    if b.n_theta.is_singleton() {
        out.push((*b, true));
        return;
    }
    let entire = matches!(b.n_theta.lo, crate::block::BranchBound::NegInf) && matches!(
        b.n_theta.hi,
        crate::block::BranchBound::PosInf,
    );
    if entire {
        // the sentinel branch interval of a non-polar relation is never
        // subdivided
        out.push((*b, true));
        return;
    }
    let parts = branch_parts(b.n_theta);
    let n = parts.len();
    let mut j: usize = 0;
    while j < n
        invariant
            n == parts@.len(),
            1 <= n <= 4,
            j <= n,
            out@.len() == j,
            b.wf(),
            parts@[0].lo == b.n_theta.lo,
            parts@.last().hi == b.n_theta.hi,
            forall|i: int| 0 <= i < parts@.len() ==> (#[trigger] parts@[i]).wf(),
            forall|i: int|
                0 <= i < parts@.len() - 1 ==> BranchInterval::contiguous(
                    #[trigger] parts@[i],
                    parts@[i + 1],
                ),
            forall|i: int|
                0 <= i < j ==> (#[trigger] out@[i]).0 == (ImageBlock {
                    n_theta: parts@[i],
                    ..*b
                }),
            forall|i: int| 0 <= i < j ==> (#[trigger] out@[i]).1 == (i == n - 1),
        decreases n - j,
    {
        let is_last = j + 1 == n;
        let nb = ImageBlock { n_theta: parts[j], ..*b };
        out.push((nb, is_last));
        j = j + 1;
    }
    proof {
        assert(out@[0].0.n_theta == parts@[0]);
        assert(out@.last().0.n_theta == parts@.last());
        assert forall|i: int| 0 <= i < out@.len() - 1 implies BranchInterval::contiguous(
            (#[trigger] out@[i]).0.n_theta,
            out@[i + 1].0.n_theta,
        ) by {
            assert(out@[i].0.n_theta == parts@[i]);
            assert(out@[i + 1].0.n_theta == parts@[i + 1]);
        }
    }
}

/// A child coordinate starts inside the image.
fn child_starts_inside(x: u32, k: i8, limit: u32) -> (r: bool)
    requires
        0 <= k <= 16,
        x < vstd::arithmetic::power2::pow2((16 - k) as nat),
    ensures
        r == spec_child_inside(x, k, limit),
{
    proof {
        crate::block::lemma_coord_shift_bound(x, k);
        vstd::bits::lemma_u32_pow2_no_overflow(k as nat);
        vstd::bits::lemma_u32_shl_is_mul(x, k as u32);
    }
    let width = 1u32 << (k as u32);
    proof {
        vstd::bits::lemma_u32_shl_is_mul(1u32, k as u32);
    }
    (x << (k as u32)) < limit
}

/// Doubling a coordinate at a positive level keeps the block well-formed
/// one level down.
proof fn lemma_halved_coord_wf(x: u32, k: i8)
    requires
        0 < k <= 16,
        x < vstd::arithmetic::power2::pow2((16 - k) as nat),
    ensures
        2 * x + 1 < vstd::arithmetic::power2::pow2((16 - (k - 1)) as nat),
        2 * x + 1 < 0x1_0000_0000,
{
    vstd::arithmetic::power2::lemma_pow2_adds((16 - k) as nat, 1);
    vstd::arithmetic::power2::lemma2_to64();
    assert(vstd::arithmetic::power2::pow2((16 - (k - 1)) as nat) == 2
        * vstd::arithmetic::power2::pow2((16 - k) as nat));
    vstd::arithmetic::power2::lemma_pow2_strictly_increases((16 - k) as nat, 32);
}

/// The same, for pixel and subpixel levels above the subdivision floor.
proof fn lemma_halved_coord_wf_low(x: u32, k: i8)
    requires
        MIN_K < k <= 0,
        x < vstd::arithmetic::power2::pow2((16 - k) as nat),
    ensures
        2 * x + 1 < vstd::arithmetic::power2::pow2((16 - (k - 1)) as nat),
        2 * x + 1 < 0x1_0000_0000,
{
    vstd::arithmetic::power2::lemma_pow2_adds((16 - k) as nat, 1);
    vstd::arithmetic::power2::lemma2_to64();
    assert(vstd::arithmetic::power2::pow2((16 - (k - 1)) as nat) == 2
        * vstd::arithmetic::power2::pow2((16 - k) as nat));
    vstd::arithmetic::power2::lemma_pow2_strictly_increases((16 - k) as nat, 32);
}

impl<R: Relation, F: IntervalOps> Graph<R, F> {
    /// Refines the graph for at most the given wall time in milliseconds.
    ///
    /// Returns `Ok(true)` when graphing is complete, `Ok(false)` when the
    /// time budget ran out first, and an error when the block index space,
    /// the memory limit or the subdivision floor was hit. In every case a
    /// settled pixel stays settled: a pixel proven true stays true and one
    /// proven false stays false, for the engine never revisits them.
    pub fn refine(&mut self, timeout_ms: u64) -> (res: Result<bool, GraphingError>)
        requires
            old(self).wf(),
        ensures
            final(self).wf(),
            states_monotone(old(self).spec_states(), final(self).spec_states()),
            final(self).spec_width() == old(self).spec_width(),
            final(self).spec_height() == old(self).spec_height(),
            final(self).same_shape(old(self)),
            res matches Ok(done) ==> done == (final(self).spec_queue().len() == 0),
            old(self).spec_queue().len() == 0 ==> res == Result::<bool, GraphingError>::Ok(true)
                && final(self).spec_states() == old(self).spec_states(),
    {
        let start = instant_now();
        let mut cache_region = EvalCache::new(self.n_atoms);
        let mut cache_point = EvalCache::new(self.n_atoms);
        let mut budget: u64 = 0xffff_ffff_ffff_ffff;
        let mut outcome: Option<Result<bool, GraphingError>> = None;
        while outcome.is_none() && budget > 0
            invariant
                self.wf(),
                cache_region.wf(),
                cache_region.spec_n_atoms() == self.n_atoms,
                cache_point.wf(),
                cache_point.spec_n_atoms() == self.n_atoms,
                states_monotone(old(self).spec_states(), self.spec_states()),
                self.same_shape(old(self)),
                outcome matches Some(r2) ==> (r2 matches Ok(done) ==> done == (
                self.spec_queue().len() == 0)),
                old(self).spec_queue().len() == 0 ==> {
                    &&& self.spec_queue().len() == 0
                    &&& self.spec_states() == old(self).spec_states()
                    &&& (outcome is None || outcome == Some(
                        Result::<bool, GraphingError>::Ok(true),
                    ))
                },
            decreases budget,
        {
            budget = budget - 1;
            let step = self.refine_step(&mut cache_region, &mut cache_point);
            match step {
                Some(r) => {
                    outcome = Some(r);
                },
                None => {
                    if elapsed_millis(&start) > timeout_ms {
                        // the time budget is spent; report whether the work
                        // happens to be complete
                        outcome = Some(Ok(self.bs_to_subdivide.is_empty()));
                    }
                },
            }
        }
        let spent = elapsed_millis(&start);
        if self.time_elapsed_ms <= u64::MAX - spent {
            self.time_elapsed_ms = self.time_elapsed_ms + spent;
        }
        match outcome {
            Some(r) => r,
            None => Ok(self.bs_to_subdivide.is_empty()),
        }
    }

    /// Processes one block of the queue. Returns `None` to continue,
    /// `Some(Ok(true))` when the queue is exhausted, and `Some(Err(..))` on
    /// a fatal condition.
    #[verifier::rlimit(100)]
    fn refine_step(
        &mut self,
        cache_region: &mut EvalCache,
        cache_point: &mut EvalCache,
    ) -> (res: Option<Result<bool, GraphingError>>)
        requires
            old(self).wf(),
            old(cache_region).wf(),
            old(cache_region).spec_n_atoms() == old(self).n_atoms,
            old(cache_point).wf(),
            old(cache_point).spec_n_atoms() == old(self).n_atoms,
        ensures
            final(self).wf(),
            final(cache_region).wf(),
            final(cache_region).spec_n_atoms() == final(self).n_atoms,
            final(cache_point).wf(),
            final(cache_point).spec_n_atoms() == final(self).n_atoms,
            states_monotone(old(self).spec_states(), final(self).spec_states()),
            final(self).same_shape(old(self)),
            res == Some(Result::<bool, GraphingError>::Ok(true))
                ==> final(self).spec_queue().len() == 0,
            res matches Some(r2) ==> (r2 matches Ok(done) ==> done),
            old(self).spec_queue().len() == 0 ==> res == Some(
                Result::<bool, GraphingError>::Ok(true),
            ) && final(self).spec_states() == old(self).spec_states()
                && final(self).spec_queue().len() == 0,
    {
        if self.bs_to_subdivide.is_empty() {
            return Some(Ok(true));
        }
        if self.bs_to_subdivide.next_back_index() >= 0xffff_fffcusize {
            // a step can assign up to four enqueue indices, so within four
            // of the 32-bit ceiling the next ones could leave the block
            // index space
            return Some(Err(GraphingError { kind: GraphingErrorKind::BlockIndexOverflow }));
        }
        proof {
            self.bs_to_subdivide.lemma_indices();
        }
        let popped = self.bs_to_subdivide.pop_front();
        let (bi, b) = match popped {
            Some(p) => p,
            None => {
                return Some(Ok(true));
            },
        };
        proof {
            assert(bi <= 0xffff_fffcusize);
        }
        let parent: QueuedBlockIndex = bi as QueuedBlockIndex;
        let mut subs: Vec<(ImageBlock, bool)> = Vec::new();
        match b.next_dir {
            SubdivisionDir::NTheta => subdivide_on_n_theta(&mut subs, &b),
            SubdivisionDir::XY => self.subdivide_on_xy(&mut subs, &b),
        }
        let n_subs = subs.len();
        let mut incomplete: Vec<ImageBlock> = Vec::new();
        let ghost q0 = self.bs_to_subdivide;
        let mut si: usize = 0;
        while si < subs.len()
            invariant
                self.wf(),
                cache_region.wf(),
                cache_region.spec_n_atoms() == self.n_atoms,
                cache_point.wf(),
                cache_point.spec_n_atoms() == self.n_atoms,
                states_monotone(old(self).spec_states(), self.spec_states()),
                self.same_shape(old(self)),
                self.bs_to_subdivide == q0,
                self.bs_to_subdivide.spec_back_index() < 0xffff_fffcusize,
                forall|i: int| 0 <= i < subs@.len() ==> (#[trigger] subs@[i]).0.wf(),
                forall|i: int| 0 <= i < incomplete@.len() ==> (#[trigger] incomplete@[i]).wf(),
                incomplete@.len() <= si,
                si <= subs@.len(),
                subs@.len() <= 4,
            decreases subs@.len() - si,
        {
            let (sub_b, is_last) = subs[si];
            let complete = if sub_b.kx >= 0 && sub_b.ky >= 0 {
                self.refine_pixel(cache_region, &sub_b, is_last, parent)
            } else {
                self.refine_subpixel(cache_region, cache_point, &sub_b, is_last, parent)
            };
            if !complete {
                let qidx = self.bs_to_subdivide.next_back_index() + incomplete.len();
                if qidx > 0xffff_ffffusize {
                    return Some(Err(GraphingError {
                        kind: GraphingErrorKind::BlockIndexOverflow,
                    }));
                }
                mark_last_queued(&mut self.im, &sub_b, qidx as QueuedBlockIndex);
                incomplete.push(sub_b);
            }
            si = si + 1;
        }
        // choose the next subdivision direction for the children that are
        // not settled yet
        let next_dir_opt: Option<SubdivisionDir> = if matches!(
            self.relation_type,
            RelationType::Polar,
        ) {
            let retry_same = 4 * incomplete.len() <= n_subs;
            let same_ok = match b.next_dir {
                SubdivisionDir::NTheta => b.is_subdivisible_on_n_theta(),
                SubdivisionDir::XY => b.is_subdivisible_on_xy(),
            };
            let other_ok = match b.next_dir {
                SubdivisionDir::NTheta => b.is_subdivisible_on_xy(),
                SubdivisionDir::XY => b.is_subdivisible_on_n_theta(),
            };
            let other_dir = match b.next_dir {
                SubdivisionDir::NTheta => SubdivisionDir::XY,
                SubdivisionDir::XY => SubdivisionDir::NTheta,
            };
            if retry_same && same_ok {
                Some(b.next_dir)
            } else if !retry_same && other_ok {
                Some(other_dir)
            } else if b.is_subdivisible_on_n_theta() {
                Some(SubdivisionDir::NTheta)
            } else if b.is_subdivisible_on_xy() {
                Some(SubdivisionDir::XY)
            } else {
                None
            }
        } else if b.is_subdivisible_on_xy() {
            Some(SubdivisionDir::XY)
        } else {
            None
        };
        if incomplete.len() > 0 && next_dir_opt.is_none() {
            return Some(Err(GraphingError { kind: GraphingErrorKind::ReachedSubdivisionLimit }));
        }
        let next_dir = match next_dir_opt {
            Some(d) => d,
            None => SubdivisionDir::XY,
        };
        let mut qi: usize = 0;
        while qi < incomplete.len()
            invariant
                self.wf(),
                states_monotone(old(self).spec_states(), self.spec_states()),
                self.same_shape(old(self)),
                forall|i: int| 0 <= i < incomplete@.len() ==> (#[trigger] incomplete@[i]).wf(),
                incomplete@.len() <= 4,
                qi <= incomplete@.len(),
                self.bs_to_subdivide.spec_back_index() <= 0xffff_fffbusize + qi,
            decreases incomplete@.len() - qi,
        {
            let sub_b = incomplete[qi];
            let queued = ImageBlock { next_dir, ..sub_b };
            let _ = self.bs_to_subdivide.push_back(queued);
            qi = qi + 1;
        }
        // the memory budget: when the image, the queue and the caches
        // together exceed it, drop the caches once; a second excess is fatal
        if self.memory_exceeded(cache_region, cache_point) {
            let n = self.n_atoms;
            *cache_region = EvalCache::new(n);
            *cache_point = EvalCache::new(n);
            if self.memory_exceeded(cache_region, cache_point) {
                return Some(Err(GraphingError { kind: GraphingErrorKind::ReachedMemLimit }));
            }
        }
        None
    }

    /// The image, the queue and the caches together exceed the soft memory
    /// limit.
    fn memory_exceeded(&self, cache_region: &EvalCache, cache_point: &EvalCache) -> (r: bool)
        requires
            self.wf(),
    {
        let mut acc: u64 = self.im.size_in_heap();
        let q = self.bs_to_subdivide.size_in_heap();
        if q > u64::MAX - acc {
            return true;
        }
        acc = acc + q;
        let c1 = cache_region.size_in_heap();
        if c1 > u64::MAX - acc {
            return true;
        }
        acc = acc + c1;
        let c2 = cache_point.size_in_heap();
        if c2 > u64::MAX - acc {
            return true;
        }
        acc = acc + c2;
        acc > self.mem_limit
    }

    /// Returns the progress counters of the graph.
    pub fn get_statistics(&self) -> (r: GraphingStatistics)
        requires
            self.wf(),
        ensures
            r.pixels == self.spec_states().len(),
            r.pixels_proven == spec_count_proven(self.spec_states(), self.spec_states().len() as int),
    {
        let mut proven: usize = 0;
        let states = self.im.state_iter();
        let mut i: usize = 0;
        proof {
            lemma_count_proven_bound(self.spec_states(), 0);
        }
        while i < states.len()
            invariant
                states@ == self.spec_states(),
                i <= states@.len(),
                proven == spec_count_proven(states@, i as int),
                proven <= i,
            decreases states@.len() - i,
        {
            proof {
                lemma_count_proven_bound(states@, i as int + 1);
            }
            if !matches!(states[i], PixelState::Uncertain) {
                proven = proven + 1;
            }
            i = i + 1;
        }
        GraphingStatistics {
            pixels: states.len(),
            pixels_proven: proven,
            eval_count: self.rel.eval_count(),
            time_elapsed_ms: self.time_elapsed_ms,
        }
    }
}

/// The color of a pixel state in the RGB rendering.
pub open spec fn spec_rgb(s: PixelState) -> (u8, u8, u8) {
    match s {
        PixelState::True => (0u8, 0u8, 0u8),
        PixelState::False => (255u8, 255u8, 255u8),
        PixelState::Uncertain => (64u8, 128u8, 192u8),
    }
}

/// The color of a pixel state in the gray-alpha rendering.
pub open spec fn spec_gray_alpha(s: PixelState) -> (u8, u8) {
    match s {
        PixelState::True => (0u8, 255u8),
        PixelState::False => (0u8, 0u8),
        PixelState::Uncertain => (0u8, 128u8),
    }
}

/// The row-major pixel that output position `k` reads: the image flipped
/// vertically, so that the first output row is the top of the graph.
pub open spec fn spec_flipped_source(k: int, w: int, h: int) -> int {
    (h - 1 - k / w) * w + k % w
}

impl<R: Relation, F: IntervalOps> Graph<R, F> {
    /// Renders the tri-state pixels as RGB bytes, three per pixel, flipped
    /// vertically so the row with pixel y = 0 comes out at the bottom.
    pub fn get_image(&self, im: &mut Vec<u8>)
        requires
            self.wf(),
        ensures
            final(im)@.len() == 3 * self.spec_states().len(),
            forall|k: int|
                0 <= k < self.spec_states().len() ==> {
                    let c = #[trigger] spec_rgb(
                        self.spec_states()[spec_flipped_source(
                            k,
                            self.spec_width() as int,
                            self.spec_height() as int,
                        )],
                    );
                    &&& final(im)@[3 * k] == c.0
                    &&& final(im)@[3 * k + 1] == c.1
                    &&& final(im)@[3 * k + 2] == c.2
                },
    {
        let w = self.im.width();
        let h = self.im.height();
        proof {
            lemma_flip_bounds(w as int, h as int);
        }
        let total: usize = w as usize * h as usize;
        let mut out: Vec<u8> = Vec::new();
        let mut k: usize = 0;
        while k < total
            invariant
                self.wf(),
                w == self.spec_width(),
                h == self.spec_height(),
                total == self.spec_states().len(),
                total <= 0x4000_0000,
                k <= total,
                out@.len() == 3 * k,
                forall|j: int|
                    0 <= j < k ==> {
                        let c = #[trigger] spec_rgb(
                            self.spec_states()[spec_flipped_source(j, w as int, h as int)],
                        );
                        &&& out@[3 * j] == c.0
                        &&& out@[3 * j + 1] == c.1
                        &&& out@[3 * j + 2] == c.2
                    },
            decreases total - k,
        {
            let oy = k as u32 / w;
            let x = k as u32 % w;
            proof {
                lemma_flip_index(k as int, w as int, h as int, total as int);
            }
            let src = PixelIndex { x, y: h - 1 - oy };
            let st = self.im.state(src);
            let (r, g, b) = match st {
                PixelState::True => (0u8, 0u8, 0u8),
                PixelState::False => (255u8, 255u8, 255u8),
                PixelState::Uncertain => (64u8, 128u8, 192u8),
            };
            out.push(r);
            out.push(g);
            out.push(b);
            proof {
                assert(spec_rgb(st) == (r, g, b));
                assert(self.spec_states()[spec_flipped_source(k as int, w as int, h as int)]
                    == st);
            }
            k = k + 1;
        }
        *im = out;
    }

    /// Renders the tri-state pixels as gray-alpha bytes, two per pixel,
    /// flipped vertically.
    pub fn get_gray_alpha_image(&self, im: &mut Vec<u8>)
        requires
            self.wf(),
        ensures
            final(im)@.len() == 2 * self.spec_states().len(),
            forall|k: int|
                0 <= k < self.spec_states().len() ==> {
                    let c = #[trigger] spec_gray_alpha(
                        self.spec_states()[spec_flipped_source(
                            k,
                            self.spec_width() as int,
                            self.spec_height() as int,
                        )],
                    );
                    &&& final(im)@[2 * k] == c.0
                    &&& final(im)@[2 * k + 1] == c.1
                },
    {
        let w = self.im.width();
        let h = self.im.height();
        proof {
            lemma_flip_bounds(w as int, h as int);
        }
        let total: usize = w as usize * h as usize;
        let mut out: Vec<u8> = Vec::new();
        let mut k: usize = 0;
        while k < total
            invariant
                self.wf(),
                w == self.spec_width(),
                h == self.spec_height(),
                total == self.spec_states().len(),
                total <= 0x4000_0000,
                k <= total,
                out@.len() == 2 * k,
                forall|j: int|
                    0 <= j < k ==> {
                        let c = #[trigger] spec_gray_alpha(
                            self.spec_states()[spec_flipped_source(j, w as int, h as int)],
                        );
                        &&& out@[2 * j] == c.0
                        &&& out@[2 * j + 1] == c.1
                    },
            decreases total - k,
        {
            let oy = k as u32 / w;
            let x = k as u32 % w;
            proof {
                lemma_flip_index(k as int, w as int, h as int, total as int);
            }
            let src = PixelIndex { x, y: h - 1 - oy };
            let st = self.im.state(src);
            let (g, a) = match st {
                PixelState::True => (0u8, 255u8),
                PixelState::False => (0u8, 0u8),
                PixelState::Uncertain => (0u8, 128u8),
            };
            out.push(g);
            out.push(a);
            proof {
                assert(spec_gray_alpha(st) == (g, a));
                assert(self.spec_states()[spec_flipped_source(k as int, w as int, h as int)]
                    == st);
            }
            k = k + 1;
        }
        *im = out;
    }
}

/// The product of the image dimensions fits the machine.
proof fn lemma_flip_bounds(w: int, h: int)
    by (nonlinear_arith)
    requires
        0 < w <= MAX_IMAGE_WIDTH,
        0 < h <= MAX_IMAGE_WIDTH,
    ensures
        w * h <= MAX_IMAGE_WIDTH * MAX_IMAGE_WIDTH,
        3 * (w * h) < 0x1_0000_0000_0000,
{
}

/// The flipped source index of an output position is a valid pixel.
proof fn lemma_flip_index(k: int, w: int, h: int, total: int)
    by (nonlinear_arith)
    requires
        0 < w <= MAX_IMAGE_WIDTH,
        0 < h <= MAX_IMAGE_WIDTH,
        total == w * h,
        0 <= k < total,
    ensures
        0 <= k / w < h,
        0 <= k % w < w,
        spec_flipped_source(k, w, h) == (h - 1 - k / w) * w + k % w,
        0 <= spec_flipped_source(k, w, h) < total,
{
}

/// How many of the first `n` pixels are settled.
pub open spec fn spec_count_proven(s: Seq<PixelState>, n: int) -> int
    decreases n,
{
    if n <= 0 {
        0
    } else {
        spec_count_proven(s, n - 1) + if s[n - 1] != PixelState::Uncertain {
            1int
        } else {
            0
        }
    }
}

/// The settled count grows by at most one per pixel.
proof fn lemma_count_proven_bound(s: Seq<PixelState>, n: int)
    ensures
        spec_count_proven(s, n) <= if n >= 0 {
            n
        } else {
            0
        },
        n >= 1 ==> spec_count_proven(s, n) == spec_count_proven(s, n - 1) + (if s[n - 1]
            != PixelState::Uncertain {
            1int
        } else {
            0
        }),
    decreases n,
{
    if n >= 1 {
        lemma_count_proven_bound(s, n - 1);
    }
}

/// The block coordinate falls on a pixel boundary at its subpixel level:
/// its low bits below the pixel alignment are all zero.
pub open spec fn spec_pixel_aligned(x: u32, k: i8) -> bool {
    x & ((vstd::arithmetic::power2::pow2((-k) as nat) - 1) as u32) == 0
}

/// Keeps a pair of region sides as they are when ordered under the
/// IEEE-754 order key, and collapses both to the left side's start
/// otherwise, so that a misbehaving interval collaborator yields a
/// degenerate region rather than a panic.
fn ordered_sides(lo_side: IvBits, hi_side: IvBits) -> (r: (IvBits, IvBits))
    ensures
        crate::interval::spec_f64_key(r.0.lo) <= crate::interval::spec_f64_key(r.1.hi),
        crate::interval::spec_f64_key(lo_side.lo) <= crate::interval::spec_f64_key(hi_side.hi)
            ==> r == (lo_side, hi_side),
{
    if crate::interval::f64_key_le(lo_side.lo, hi_side.hi) {
        (lo_side, hi_side)
    } else {
        (IvBits::point(lo_side.lo), IvBits::point(lo_side.lo))
    }
}

/// A block coordinate may be incremented within `u32`.
proof fn lemma_coord_incr(x: u32, k: i8)
    requires
        MIN_K <= k <= 16,
        x < vstd::arithmetic::power2::pow2((16 - k) as nat),
    ensures
        x < 0x8000_0000,
{
    vstd::arithmetic::power2::lemma2_to64();
    vstd::arithmetic::power2::lemma_pow2_strictly_increases((16 - k) as nat, 32);
}

/// A full-image seed block's clamped cover is the whole image.
proof fn lemma_seed_cover_everything(b: ImageBlock, w: u32, h: u32)
    requires
        b.x == 0,
        b.y == 0,
        b.kx == b.ky,
        0 <= b.kx <= 15,
        0 < w,
        0 < h,
        vstd::arithmetic::power2::pow2(b.kx as nat) >= w,
        vstd::arithmetic::power2::pow2(b.ky as nat) >= h,
    ensures
        spec_cover_x0(b, w) == 0,
        spec_cover_x1(b, w) == w,
        spec_cover_y0(b, h) == 0,
        spec_cover_y1(b, h) == h,
{
}

/// Every flat pixel index lies in the full-image rectangle.
proof fn lemma_flat_index_in_rect(i: int, w: int, h: int)
    requires
        0 < w,
        0 < h,
        0 <= i < w * h,
    ensures
        spec_in_rect(i, w, 0, w, 0, h),
{
    vstd::arithmetic::div_mod::lemma_fundamental_div_mod(i, w);
    vstd::arithmetic::div_mod::lemma_mod_bound(i, w);
    assert(0 <= i / w < h) by (nonlinear_arith)
        requires
            0 < w,
            0 <= i < w * h,
            i == w * (i / w) + i % w,
            0 <= i % w < w,
    ;
}

/// The seed block at level `(k, k)` is well-formed for any branch interval
/// that is.
proof fn lemma_seed_block_wf(k: i8)
    requires
        0 <= k <= 15,
    ensures
        0 < vstd::arithmetic::power2::pow2((16 - k) as nat),
{
    vstd::arithmetic::power2::lemma_pow2_pos((16 - k) as nat);
}

/// Validates that the form list is one the engine accepts: atoms first,
/// compound forms referring only to earlier forms, and at least one form.
fn check_forms(forms: &Vec<StaticForm>, n_atoms: usize) -> (r: bool)
    ensures
        r ==> spec_forms_wf(forms@, n_atoms as int) && forms@.len() > 0,
{
    if forms.len() == 0 || n_atoms > forms.len() {
        return false;
    }
    let mut i: usize = 0;
    while i < forms.len()
        invariant
            n_atoms <= forms@.len(),
            i <= forms@.len(),
            forall|j: int|
                0 <= j < i && j < n_atoms ==> ((#[trigger] forms@[j].kind) matches
                    StaticFormKind::Atomic(_, _, _)),
            forall|j: int|
                n_atoms <= j < i ==> match (#[trigger] forms@[j].kind) {
                    StaticFormKind::Atomic(_, _, _) => false,
                    StaticFormKind::And(x, y) => 0 <= x < j && 0 <= y < j,
                    StaticFormKind::Or(x, y) => 0 <= x < j && 0 <= y < j,
                },
        decreases forms@.len() - i,
    {
        let ok = if i < n_atoms {
            matches!(forms[i].kind, StaticFormKind::Atomic(_, _, _))
        } else {
            match forms[i].kind {
                StaticFormKind::Atomic(_, _, _) => false,
                StaticFormKind::And(x, y) => (x as usize) < i && (y as usize) < i,
                StaticFormKind::Or(x, y) => (x as usize) < i && (y as usize) < i,
            }
        };
        if !ok {
            return false;
        }
        i = i + 1;
    }
    true
}

} // verus!
