//! A FIFO queue of image blocks, stored delta-compressed: successive block
//! coordinates are XORed and the differences written as little-endian prefix
//! varints, so Morton-ordered insertion keeps the byte stream short.

use crate::block::BranchBound;
use crate::block::BranchInterval;
use crate::block::ImageBlock;
use crate::block::SubdivisionDir;
use std::collections::VecDeque;
use vstd::prelude::*;

verus! {

/// The number of trailing zeros in the head byte of the varint encoding of `x`:
/// the number of tail bytes that follow the head byte.
pub open spec fn spec_varint_zeros(x: u32) -> u32 {
    if x < 0x80 {
        0
    } else if x < 0x4000 {
        1
    } else if x < 0x200000 {
        2
    } else if x < 0x10000000 {
        3
    } else {
        4
    }
}

/// The head byte of the varint encoding of `x`.
pub open spec fn spec_varint_head(x: u32) -> u8 {
    (((x << 1) | 1) << spec_varint_zeros(x)) as u8
}

/// Tail byte `j` of the varint encoding of `x` (little-endian).
pub open spec fn spec_varint_tail(x: u32, j: u32) -> u8 {
    (x >> (7 + 8 * j - spec_varint_zeros(x))) as u8
}

/// The PrefixVarint encoding of `x`: a head byte whose trailing-zero count
/// gives the tail length, then that many little-endian tail bytes.
pub open spec fn spec_encode_u32(x: u32) -> Seq<u8> {
    let z = spec_varint_zeros(x);
    if z == 0 {
        seq![spec_varint_head(x)]
    } else if z == 1 {
        seq![spec_varint_head(x), spec_varint_tail(x, 0)]
    } else if z == 2 {
        seq![spec_varint_head(x), spec_varint_tail(x, 0), spec_varint_tail(x, 1)]
    } else if z == 3 {
        seq![
            spec_varint_head(x),
            spec_varint_tail(x, 0),
            spec_varint_tail(x, 1),
            spec_varint_tail(x, 2),
        ]
    } else {
        seq![
            spec_varint_head(x),
            spec_varint_tail(x, 0),
            spec_varint_tail(x, 1),
            spec_varint_tail(x, 2),
            spec_varint_tail(x, 3),
        ]
    }
}

/// Byte `j` of the little-endian encoding of `v`.
pub open spec fn spec_u64_byte(v: u64, j: u64) -> u8 {
    (v >> (8 * j)) as u8
}

/// The encoding of a branch-interval endpoint: a tag byte, then for a finite
/// endpoint the eight little-endian bytes of its two's-complement value.
pub open spec fn spec_encode_bound(b: BranchBound) -> Seq<u8> {
    match b {
        BranchBound::NegInf => seq![0u8],
        BranchBound::PosInf => seq![2u8],
        BranchBound::Fin(v) => seq![1u8].add(Seq::new(8, |j: int| spec_u64_byte(v as u64, j as u64))),
    }
}

/// The encoding of a branch interval: its two endpoints.
pub open spec fn spec_encode_branch(n: BranchInterval) -> Seq<u8> {
    spec_encode_bound(n.lo) + spec_encode_bound(n.hi)
}

/// The encoding of a subdivision direction.
pub open spec fn spec_encode_dir(d: SubdivisionDir) -> u8 {
    match d {
        SubdivisionDir::XY => 0u8,
        SubdivisionDir::NTheta => 1u8,
    }
}

/// The encoding of one block given the previously written coordinates:
/// XOR-deltas of `x` and `y` as varints, the levels as single bytes, and for
/// polar queues the branch interval and the next subdivision direction.
pub open spec fn spec_encode_block(b: ImageBlock, x_last: u32, y_last: u32, polar: bool) -> Seq<
    u8,
> {
    let base = spec_encode_u32(b.x ^ x_last) + spec_encode_u32(b.y ^ y_last) + seq![
        b.kx as u8,
        b.ky as u8,
    ];
    if polar {
        base + spec_encode_branch(b.n_theta) + seq![spec_encode_dir(b.next_dir)]
    } else {
        base
    }
}

/// The encoding of a whole sequence of blocks, each against its predecessor's
/// coordinates.
pub open spec fn spec_encode_blocks(
    bs: Seq<ImageBlock>,
    x_last: u32,
    y_last: u32,
    polar: bool,
) -> Seq<u8>
    decreases bs.len(),
{
    if bs.len() == 0 {
        Seq::empty()
    } else {
        spec_encode_block(bs[0], x_last, y_last, polar) + spec_encode_blocks(
            bs.skip(1),
            bs[0].x,
            bs[0].y,
            polar,
        )
    }
}

/// A queue for storing [`ImageBlock`]s. The closer the coordinates of
/// consecutive blocks are (which is expected by using the Morton order),
/// the less memory it consumes.
pub struct ImageBlockQueue {
    seq: VecDeque<u8>,
    x_front: u32,
    y_front: u32,
    x_back: u32,
    y_back: u32,
    front_index: usize,
    back_index: usize,
    polar: bool,
    blocks: Ghost<Seq<ImageBlock>>,
}

impl View for ImageBlockQueue {
    type V = Seq<ImageBlock>;

    /// The blocks currently stored, front first.
    closed spec fn view(&self) -> Seq<ImageBlock> {
        self.blocks@
    }
}

impl ImageBlockQueue {
    /// Whether the queue stores the polar extras, for use in specifications.
    pub closed spec fn spec_polar(&self) -> bool {
        self.polar
    }

    /// The index that the next pushed block receives, for use in specifications.
    pub closed spec fn spec_back_index(&self) -> usize {
        self.back_index
    }

    /// The index of the block at the front, for use in specifications.
    pub closed spec fn spec_front_index(&self) -> usize {
        self.front_index
    }

    /// The number of bytes held, for use in specifications.
    pub closed spec fn spec_byte_len(&self) -> nat {
        self.seq@.len()
    }

    /// The queue's byte stream is exactly the encoding of its blocks, the
    /// delta counters match the ends of the block sequence, and the indices
    /// count pops and pushes.
    pub closed spec fn wf(&self) -> bool {
        &&& self.seq@ == spec_encode_blocks(self.blocks@, self.x_front, self.y_front, self.polar)
        &&& if self.blocks@.len() == 0 {
            self.x_back == self.x_front && self.y_back == self.y_front
        } else {
            self.x_back == self.blocks@.last().x && self.y_back == self.blocks@.last().y
        }
        &&& self.back_index == self.front_index + self.blocks@.len()
    }

    /// The index bookkeeping: the front index never exceeds the back index,
    /// and they differ by the number of stored blocks.
    pub proof fn lemma_indices(&self)
        requires
            self.wf(),
        ensures
            self.spec_front_index() <= self.spec_back_index(),
            self.spec_back_index() - self.spec_front_index() == self@.len(),
    {
    }

    /// Creates an empty queue.
    pub fn new(polar: bool) -> (r: Self)
        ensures
            r.wf(),
            r@ == Seq::<ImageBlock>::empty(),
            r.spec_polar() == polar,
            r.spec_back_index() == 0,
            r.spec_front_index() == 0,
            r.spec_byte_len() == 0,
    {
        let r = Self {
            seq: VecDeque::new(),
            x_front: 0,
            y_front: 0,
            x_back: 0,
            y_back: 0,
            front_index: 0,
            back_index: 0,
            polar,
            blocks: Ghost(Seq::empty()),
        };
        proof {
            assert(spec_encode_blocks(Seq::empty(), 0, 0, polar) == Seq::<u8>::empty());
        }
        r
    }

    /// Returns `true` if the queue is empty.
    pub fn is_empty(&self) -> (r: bool)
        requires
            self.wf(),
        ensures
            r == (self@.len() == 0),
    {
        proof {
            if self.blocks@.len() != 0 {
                lemma_encode_block_nonempty(
                    self.blocks@[0],
                    self.x_front,
                    self.y_front,
                    self.polar,
                );
            }
        }
        self.seq.len() == 0
    }

    /// Returns the index that will be returned by the next call of `push_back`.
    pub fn next_back_index(&self) -> (r: usize)
        ensures
            r == self.spec_back_index(),
    {
        self.back_index
    }

    /// Returns the number of bytes held by the queue.
    pub fn size_in_heap(&self) -> (r: u64)
        ensures
            r == self.spec_byte_len(),
    {
        self.seq.len() as u64
    }

    /// Appends a block to the back of the queue and returns the unique index
    /// where it is stored.
    pub fn push_back(&mut self, b: ImageBlock) -> (r: usize)
        requires
            old(self).wf(),
            old(self).spec_back_index() < usize::MAX,
        ensures
            final(self).wf(),
            final(self)@ == old(self)@.push(b),
            r == old(self).spec_back_index(),
            final(self).spec_back_index() == r + 1,
            final(self).spec_front_index() == old(self).spec_front_index(),
            final(self).spec_polar() == old(self).spec_polar(),
            final(self).spec_byte_len() <= old(self).spec_byte_len() + 31,
    {
        let ghost old_bytes = self.seq@;
        push_small_u32(&mut self.seq, b.x ^ self.x_back);
        push_small_u32(&mut self.seq, b.y ^ self.y_back);
        self.seq.push_back(b.kx as u8);
        self.seq.push_back(b.ky as u8);
        if self.polar {
            push_bound(&mut self.seq, b.n_theta.lo);
            push_bound(&mut self.seq, b.n_theta.hi);
            match b.next_dir {
                SubdivisionDir::XY => self.seq.push_back(0u8),
                SubdivisionDir::NTheta => self.seq.push_back(1u8),
            }
        }
        proof {
            assert(self.seq@ =~= old_bytes + spec_encode_block(
                b,
                self.x_back,
                self.y_back,
                self.polar,
            ));
        }
        self.x_back = b.x;
        self.y_back = b.y;
        let back_index = self.back_index;
        self.back_index = self.back_index + 1;
        proof {
            self.blocks@ = self.blocks@.push(b);
            lemma_encode_blocks_push(
                old(self).blocks@,
                b,
                self.x_front,
                self.y_front,
                old(self).x_back,
                old(self).y_back,
                self.polar,
            );
        }
        back_index
    }

    /// Removes the first block and returns it with its original index if the
    /// queue is nonempty; otherwise `None`.
    #[verifier::rlimit(100)]
    pub fn pop_front(&mut self) -> (r: Option<(usize, ImageBlock)>)
        requires
            old(self).wf(),
            old(self).spec_front_index() < usize::MAX,
        ensures
            final(self).wf(),
            old(self)@.len() == 0 ==> r is None && *final(self) == *old(self),
            old(self)@.len() > 0 ==> {
                &&& final(self)@ == old(self)@.skip(1)
                &&& r == Some(
                    (
                        old(self).spec_front_index(),
                        spec_popped_block(old(self)@[0], old(self).spec_polar()),
                    ),
                )
                &&& final(self).spec_front_index() == old(self).spec_front_index() + 1
            },
            final(self).spec_back_index() == old(self).spec_back_index(),
            final(self).spec_polar() == old(self).spec_polar(),
    {
        proof {
            if self.blocks@.len() != 0 {
                lemma_encode_block_nonempty(
                    self.blocks@[0],
                    self.x_front,
                    self.y_front,
                    self.polar,
                );
            }
        }
        if self.seq.len() == 0 {
            return None;
        }
        let ghost b0 = self.blocks@[0];
        let ghost rest = spec_encode_blocks(self.blocks@.skip(1), b0.x, b0.y, self.polar);
        let ghost e1 = spec_encode_u32(b0.x ^ self.x_front);
        let ghost e2 = spec_encode_u32(b0.y ^ self.y_front);
        let ghost kxy = seq![b0.kx as u8, b0.ky as u8];
        let ghost e4: Seq<u8> = if self.polar {
            spec_encode_branch(b0.n_theta) + seq![spec_encode_dir(b0.next_dir)]
        } else {
            Seq::empty()
        };
        proof {
            assert(self.seq@ =~= e1 + (e2 + (kxy + (e4 + rest))));
            lemma_prefix_concat(e1, e2 + (kxy + (e4 + rest)));
        }
        let dx = pop_small_u32(&mut self.seq, Ghost((b0.x ^ self.x_front) as u32));
        proof {
            lemma_prefix_concat(e1, e2 + (kxy + (e4 + rest)));
            assert(self.seq@ =~= e2 + (kxy + (e4 + rest)));
            lemma_prefix_concat(e2, kxy + (e4 + rest));
        }
        let dy = pop_small_u32(&mut self.seq, Ghost((b0.y ^ self.y_front) as u32));
        proof {
            lemma_prefix_concat(e2, kxy + (e4 + rest));
            assert(self.seq@ =~= kxy + (e4 + rest));
        }
        let x = self.x_front ^ dx;
        let y = self.y_front ^ dy;
        proof {
            let xf = self.x_front;
            let yf = self.y_front;
            let bx = b0.x;
            let by = b0.y;
            assert(xf ^ (bx ^ xf) == bx) by (bit_vector);
            assert(yf ^ (by ^ yf) == by) by (bit_vector);
        }
        let kxb = self.seq.pop_front().unwrap();
        proof {
            assert(kxb == b0.kx as u8);
            assert(self.seq@ =~= seq![b0.ky as u8] + (e4 + rest));
        }
        let kyb = self.seq.pop_front().unwrap();
        proof {
            assert(kyb == b0.ky as u8);
            assert(self.seq@ =~= e4 + rest);
        }
        let kx = kxb as i8;
        let ky = kyb as i8;
        proof {
            let k0 = b0.kx;
            let k1 = b0.ky;
            assert((k0 as u8) as i8 == k0) by (bit_vector);
            assert((k1 as u8) as i8 == k1) by (bit_vector);
        }
        let (n_theta, next_dir) = if self.polar {
            let ghost eblo = spec_encode_bound(b0.n_theta.lo);
            let ghost ebhi = spec_encode_bound(b0.n_theta.hi);
            proof {
                assert(self.seq@ =~= eblo + (ebhi + (seq![spec_encode_dir(b0.next_dir)] + rest)));
                lemma_prefix_concat(eblo, ebhi + (seq![spec_encode_dir(b0.next_dir)] + rest));
            }
            let lo = pop_bound(&mut self.seq, Ghost(b0.n_theta.lo));
            proof {
                lemma_prefix_concat(eblo, ebhi + (seq![spec_encode_dir(b0.next_dir)] + rest));
                assert(self.seq@ =~= ebhi + (seq![spec_encode_dir(b0.next_dir)] + rest));
                lemma_prefix_concat(ebhi, seq![spec_encode_dir(b0.next_dir)] + rest);
            }
            let hi = pop_bound(&mut self.seq, Ghost(b0.n_theta.hi));
            proof {
                lemma_prefix_concat(ebhi, seq![spec_encode_dir(b0.next_dir)] + rest);
                assert(self.seq@ =~= seq![spec_encode_dir(b0.next_dir)] + rest);
            }
            let dir_byte = self.seq.pop_front().unwrap();
            proof {
                assert(dir_byte == spec_encode_dir(b0.next_dir));
                assert(self.seq@ =~= rest);
            }
            let dir = if dir_byte == 1 {
                SubdivisionDir::NTheta
            } else {
                SubdivisionDir::XY
            };
            (BranchInterval { lo, hi }, dir)
        } else {
            proof {
                assert(self.seq@ =~= rest);
            }
            (BranchInterval::entire(), SubdivisionDir::XY)
        };
        self.x_front = x;
        self.y_front = y;
        let front_index = self.front_index;
        self.front_index = self.front_index + 1;
        proof {
            self.blocks@ = self.blocks@.skip(1);
            if self.blocks@.len() > 0 {
                assert(old(self).blocks@.last() == self.blocks@.last());
            } else {
                assert(old(self).blocks@.last() == b0);
            }
        }
        Some((front_index, ImageBlock { x, y, kx, ky, n_theta, next_dir }))
    }
}

/// What `pop_front` reconstructs from a stored block: in a non-polar queue the
/// branch interval and direction are not stored, and come back as the
/// sentinels.
pub open spec fn spec_popped_block(b: ImageBlock, polar: bool) -> ImageBlock {
    if polar {
        b
    } else {
        ImageBlock {
            n_theta: BranchInterval::spec_entire(),
            next_dir: SubdivisionDir::XY,
            ..b
        }
    }
}

/// The encoding of one block is never empty.
proof fn lemma_encode_block_nonempty(b: ImageBlock, x_last: u32, y_last: u32, polar: bool)
    ensures
        spec_encode_block(b, x_last, y_last, polar).len() > 0,
{
}

/// Appending a block extends the encoding of a block sequence at the end.
proof fn lemma_encode_blocks_push(
    bs: Seq<ImageBlock>,
    b: ImageBlock,
    x_front: u32,
    y_front: u32,
    x_back: u32,
    y_back: u32,
    polar: bool,
)
    requires
        if bs.len() == 0 {
            x_back == x_front && y_back == y_front
        } else {
            x_back == bs.last().x && y_back == bs.last().y
        },
    ensures
        spec_encode_blocks(bs.push(b), x_front, y_front, polar) == spec_encode_blocks(
            bs,
            x_front,
            y_front,
            polar,
        ) + spec_encode_block(b, x_back, y_back, polar),
    decreases bs.len(),
{
    let ps = bs.push(b);
    if bs.len() == 0 {
        assert(ps.len() == 1);
        assert(ps[0] == b);
        assert(ps.skip(1) =~= Seq::<ImageBlock>::empty());
        assert(spec_encode_blocks(Seq::<ImageBlock>::empty(), b.x, b.y, polar)
            =~= Seq::<u8>::empty());
        assert(spec_encode_blocks(ps, x_front, y_front, polar) =~= spec_encode_block(
            b,
            x_front,
            y_front,
            polar,
        ) + spec_encode_blocks(ps.skip(1), b.x, b.y, polar));
        assert(spec_encode_blocks(bs, x_front, y_front, polar) =~= Seq::<u8>::empty());
        assert(spec_encode_blocks(ps, x_front, y_front, polar) =~= spec_encode_blocks(
            bs,
            x_front,
            y_front,
            polar,
        ) + spec_encode_block(b, x_back, y_back, polar));
    } else {
        assert(ps[0] == bs[0]);
        assert(ps.skip(1) =~= bs.skip(1).push(b));
        if bs.skip(1).len() == 0 {
            assert(bs.last() == bs[0]);
        } else {
            assert(bs.skip(1).last() == bs.last());
        }
        lemma_encode_blocks_push(bs.skip(1), b, bs[0].x, bs[0].y, x_back, y_back, polar);
        assert(spec_encode_blocks(ps, x_front, y_front, polar) =~= spec_encode_block(
            bs[0],
            x_front,
            y_front,
            polar,
        ) + spec_encode_blocks(ps.skip(1), bs[0].x, bs[0].y, polar));
        assert(spec_encode_blocks(bs, x_front, y_front, polar) =~= spec_encode_block(
            bs[0],
            x_front,
            y_front,
            polar,
        ) + spec_encode_blocks(bs.skip(1), bs[0].x, bs[0].y, polar));
        assert(spec_encode_blocks(ps, x_front, y_front, polar) =~= spec_encode_blocks(
            bs,
            x_front,
            y_front,
            polar,
        ) + spec_encode_block(b, x_back, y_back, polar));
    }
}

/// Appends the varint encoding of `x` to the byte deque.
fn push_small_u32(seq: &mut VecDeque<u8>, x: u32)
    ensures
        final(seq)@ == old(seq)@ + spec_encode_u32(x),
        final(seq)@.len() <= old(seq)@.len() + 5,
{
    let ghost old_bytes = seq@;
    if x < 0x80 {
        seq.push_back((((x << 1u32) | 1) << 0u32) as u8);
        proof {
            assert(seq@ =~= old_bytes + spec_encode_u32(x));
        }
    } else if x < 0x4000 {
        seq.push_back((((x << 1u32) | 1) << 1u32) as u8);
        seq.push_back((x >> 6u32) as u8);
        proof {
            assert(seq@ =~= old_bytes + spec_encode_u32(x));
        }
    } else if x < 0x200000 {
        seq.push_back((((x << 1u32) | 1) << 2u32) as u8);
        seq.push_back((x >> 5u32) as u8);
        seq.push_back((x >> 13u32) as u8);
        proof {
            assert(seq@ =~= old_bytes + spec_encode_u32(x));
        }
    } else if x < 0x10000000 {
        seq.push_back((((x << 1u32) | 1) << 3u32) as u8);
        seq.push_back((x >> 4u32) as u8);
        seq.push_back((x >> 12u32) as u8);
        seq.push_back((x >> 20u32) as u8);
        proof {
            assert(seq@ =~= old_bytes + spec_encode_u32(x));
        }
    } else {
        seq.push_back((((x << 1u32) | 1) << 4u32) as u8);
        seq.push_back((x >> 3u32) as u8);
        seq.push_back((x >> 11u32) as u8);
        seq.push_back((x >> 19u32) as u8);
        seq.push_back((x >> 27u32) as u8);
        proof {
            assert(seq@ =~= old_bytes + spec_encode_u32(x));
        }
    }
}

/// Removes and decodes one varint from the front of the byte deque. The value
/// it will decode to is passed as a ghost argument and proven to be returned.
fn pop_small_u32(seq: &mut VecDeque<u8>, Ghost(v): Ghost<u32>) -> (r: u32)
    requires
        spec_encode_u32(v).is_prefix_of(old(seq)@),
    ensures
        r == v,
        final(seq)@ == old(seq)@.skip(spec_encode_u32(v).len() as int),
{
    let ghost enc = spec_encode_u32(v);
    proof {
        assert forall|i: int| 0 <= i < enc.len() implies #[trigger] old(seq)@[i] == enc[i] by {
            assert(enc[i] == old(seq)@.subrange(0, enc.len() as int)[i]);
        }
        assert(v < 0x80 ==> ((((v << 1) | 1) << 0) as u8) & 1 == 1) by (bit_vector);
        assert(v >= 0x80 && v < 0x4000 ==> ((((v << 1) | 1) << 1) as u8) & 1 == 0 && ((((v << 1)
            | 1) << 1) as u8) & 2 == 2) by (bit_vector);
        assert(v >= 0x4000 && v < 0x200000 ==> ((((v << 1) | 1) << 2) as u8) & 1 == 0 && ((((
        v << 1) | 1) << 2) as u8) & 2 == 0 && ((((v << 1) | 1) << 2) as u8) & 4 == 4)
            by (bit_vector);
        assert(v >= 0x200000 && v < 0x10000000 ==> ((((v << 1) | 1) << 3) as u8) & 1 == 0 && ((((
        v << 1) | 1) << 3) as u8) & 2 == 0 && ((((v << 1) | 1) << 3) as u8) & 4 == 0 && ((((
        v << 1) | 1) << 3) as u8) & 8 == 8) by (bit_vector);
        assert(v >= 0x10000000 ==> ((((v << 1) | 1) << 4) as u8) & 1 == 0 && ((((v << 1) | 1)
            << 4) as u8) & 2 == 0 && ((((v << 1) | 1) << 4) as u8) & 4 == 0 && ((((v << 1) | 1)
            << 4) as u8) & 8 == 0) by (bit_vector);
    }
    let head = seq.pop_front().unwrap();
    proof {
        assert(head == spec_varint_head(v));
        assert(seq@ =~= old(seq)@.skip(1));
    }
    if head & 1 == 1 {
        proof {
            assert(spec_varint_zeros(v) == 0);
            assert(v < 0x80 ==> ((((v << 1) | 1) << 0) as u8 >> 1) as u32 == v) by (bit_vector);
        }
        (head >> 1u32) as u32
    } else if head & 2 == 2 {
        let b0 = seq.pop_front().unwrap();
        proof {
            assert(spec_varint_zeros(v) == 1);
            assert(b0 == spec_varint_tail(v, 0));
            assert(v >= 0x80 && v < 0x4000 ==> (((((v << 1) | 1) << 1) as u8 >> 2) as u32 | (((
            v >> 6) as u8) as u32) << 6) == v) by (bit_vector);
            assert(seq@ =~= old(seq)@.skip(2));
        }
        ((head >> 2u32) as u32) | ((b0 as u32) << 6u32)
    } else if head & 4 == 4 {
        let b0 = seq.pop_front().unwrap();
        let b1 = seq.pop_front().unwrap();
        proof {
            assert(spec_varint_zeros(v) == 2);
            assert(b0 == spec_varint_tail(v, 0));
            assert(b1 == spec_varint_tail(v, 1));
            assert(v >= 0x4000 && v < 0x200000 ==> (((((v << 1) | 1) << 2) as u8 >> 3) as u32 | ((
            ((v >> 5) as u8) as u32) << 5) | ((((v >> 13) as u8) as u32) << 13)) == v)
                by (bit_vector);
            assert(seq@ =~= old(seq)@.skip(3));
        }
        ((head >> 3u32) as u32) | ((b0 as u32) << 5u32) | ((b1 as u32) << 13u32)
    } else if head & 8 == 8 {
        let b0 = seq.pop_front().unwrap();
        let b1 = seq.pop_front().unwrap();
        let b2 = seq.pop_front().unwrap();
        proof {
            assert(spec_varint_zeros(v) == 3);
            assert(b0 == spec_varint_tail(v, 0));
            assert(b1 == spec_varint_tail(v, 1));
            assert(b2 == spec_varint_tail(v, 2));
            assert(v >= 0x200000 && v < 0x10000000 ==> (((((v << 1) | 1) << 3) as u8 >> 4) as u32
                | ((((v >> 4) as u8) as u32) << 4) | ((((v >> 12) as u8) as u32) << 12) | ((((
            v >> 20) as u8) as u32) << 20)) == v) by (bit_vector);
            assert(seq@ =~= old(seq)@.skip(4));
        }
        ((head >> 4u32) as u32) | ((b0 as u32) << 4u32) | ((b1 as u32) << 12u32) | ((b2
            as u32) << 20u32)
    } else {
        let b0 = seq.pop_front().unwrap();
        let b1 = seq.pop_front().unwrap();
        let b2 = seq.pop_front().unwrap();
        let b3 = seq.pop_front().unwrap();
        proof {
            assert(spec_varint_zeros(v) == 4);
            assert(b0 == spec_varint_tail(v, 0));
            assert(b1 == spec_varint_tail(v, 1));
            assert(b2 == spec_varint_tail(v, 2));
            assert(b3 == spec_varint_tail(v, 3));
            assert(v >= 0x10000000 ==> (((((v << 1) | 1) << 4) as u8 >> 5) as u32 | ((((
            v >> 3) as u8) as u32) << 3) | ((((v >> 11) as u8) as u32) << 11) | ((((
            v >> 19) as u8) as u32) << 19) | ((((v >> 27) as u8) as u32) << 27)) == v)
                by (bit_vector);
            assert(seq@ =~= old(seq)@.skip(5));
        }
        ((head >> 5u32) as u32) | ((b0 as u32) << 3u32) | ((b1 as u32) << 11u32) | ((b2
            as u32) << 19u32) | ((b3 as u32) << 27u32)
    }
}

/// Appends the encoding of a branch-interval endpoint to the byte deque.
fn push_bound(seq: &mut VecDeque<u8>, b: BranchBound)
    ensures
        final(seq)@ == old(seq)@ + spec_encode_bound(b),
        final(seq)@.len() <= old(seq)@.len() + 9,
{
    let ghost old_bytes = seq@;
    match b {
        BranchBound::NegInf => {
            seq.push_back(0u8);
            proof {
                assert(seq@ =~= old_bytes + spec_encode_bound(b));
            }
        },
        BranchBound::PosInf => {
            seq.push_back(2u8);
            proof {
                assert(seq@ =~= old_bytes + spec_encode_bound(b));
            }
        },
        BranchBound::Fin(v) => {
            let u = v as u64;
            seq.push_back(1u8);
            seq.push_back((u >> 0u64) as u8);
            seq.push_back((u >> 8u64) as u8);
            seq.push_back((u >> 16u64) as u8);
            seq.push_back((u >> 24u64) as u8);
            seq.push_back((u >> 32u64) as u8);
            seq.push_back((u >> 40u64) as u8);
            seq.push_back((u >> 48u64) as u8);
            seq.push_back((u >> 56u64) as u8);
            proof {
                assert forall|j: int| 0 <= j < 8 implies #[trigger] spec_encode_bound(b)[j + 1]
                    == spec_u64_byte(u, j as u64) by {
                }
                assert(seq@ =~= old_bytes + spec_encode_bound(b));
            }
        },
    }
}

/// Removes and decodes one branch-interval endpoint from the front of the
/// byte deque.
fn pop_bound(seq: &mut VecDeque<u8>, Ghost(b): Ghost<BranchBound>) -> (r: BranchBound)
    requires
        spec_encode_bound(b).is_prefix_of(old(seq)@),
    ensures
        r == b,
        final(seq)@ == old(seq)@.skip(spec_encode_bound(b).len() as int),
{
    let ghost enc = spec_encode_bound(b);
    proof {
        assert forall|i: int| 0 <= i < enc.len() implies #[trigger] old(seq)@[i] == enc[i] by {
            assert(enc[i] == old(seq)@.subrange(0, enc.len() as int)[i]);
        }
    }
    let tag = seq.pop_front().unwrap();
    proof {
        assert(tag == enc[0]);
    }
    if tag == 0 {
        proof {
            assert(b is NegInf);
            assert(seq@ =~= old(seq)@.skip(1));
        }
        BranchBound::NegInf
    } else if tag == 2 {
        proof {
            assert(b is PosInf);
            assert(seq@ =~= old(seq)@.skip(1));
        }
        BranchBound::PosInf
    } else {
        proof {
            assert(b is Fin);
            assert(enc.len() == 9);
        }
        let b0 = seq.pop_front().unwrap();
        let b1 = seq.pop_front().unwrap();
        let b2 = seq.pop_front().unwrap();
        let b3 = seq.pop_front().unwrap();
        let b4 = seq.pop_front().unwrap();
        let b5 = seq.pop_front().unwrap();
        let b6 = seq.pop_front().unwrap();
        let b7 = seq.pop_front().unwrap();
        let u: u64 = (b0 as u64) | ((b1 as u64) << 8u64) | ((b2 as u64) << 16u64) | ((b3
            as u64) << 24u64) | ((b4 as u64) << 32u64) | ((b5 as u64) << 40u64) | ((b6
            as u64) << 48u64) | ((b7 as u64) << 56u64);
        let r = u as i64;
        proof {
            let ghost v = b->Fin_0;
            let w = v as u64;
            assert(b0 == spec_u64_byte(w, 0));
            assert(b1 == spec_u64_byte(w, 1));
            assert(b2 == spec_u64_byte(w, 2));
            assert(b3 == spec_u64_byte(w, 3));
            assert(b4 == spec_u64_byte(w, 4));
            assert(b5 == spec_u64_byte(w, 5));
            assert(b6 == spec_u64_byte(w, 6));
            assert(b7 == spec_u64_byte(w, 7));
            assert(((((w >> 0) as u8) as u64) | ((((w >> 8) as u8) as u64) << 8) | ((((w >> 16) as u8)
                as u64) << 16) | ((((w >> 24) as u8) as u64) << 24) | ((((w >> 32) as u8) as u64)
                << 32) | ((((w >> 40) as u8) as u64) << 40) | ((((w >> 48) as u8) as u64) << 48)
                | ((((w >> 56) as u8) as u64) << 56)) == w) by (bit_vector);
            assert((v as u64) as i64 == v) by (bit_vector);
            assert(seq@ =~= old(seq)@.skip(9));
        }
        BranchBound::Fin(r)
    }
}

/// Concatenation facts: the left part is a prefix of the whole, and skipping
/// it leaves the right part.
proof fn lemma_prefix_concat(a: Seq<u8>, b: Seq<u8>)
    ensures
        a.is_prefix_of(a + b),
        (a + b).skip(a.len() as int) =~= b,
{
    assert(a =~= (a + b).subrange(0, a.len() as int));
}

} // verus!
