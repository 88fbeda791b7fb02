//! The rendered image: a grid of pixel states together with the index of the
//! last queued block that covered each pixel.

use vstd::prelude::*;

verus! {

/// The limit of the width/height of an [`Image`] in pixels.
pub const MAX_IMAGE_WIDTH: u32 = 32768;

/// The graphing status of a pixel.
#[derive(Clone, Copy, Debug, Eq, PartialEq, Structural)]
pub enum PixelState {
    /// There may be or may not be a solution in the pixel.
    Uncertain,
    /// There are no solutions in the pixel.
    False,
    /// There is at least one solution in the pixel.
    True,
}

/// The index of a block in an [`crate::queue::ImageBlockQueue`].
pub type QueuedBlockIndex = u32;

/// The index of a pixel of an [`Image`].
#[derive(Clone, Copy, Debug, Eq, PartialEq, Structural)]
pub struct PixelIndex {
    /// The horizontal index of the pixel.
    pub x: u32,
    /// The vertical index of the pixel.
    pub y: u32,
}

impl PixelIndex {
    /// Creates a new [`PixelIndex`] with the coordinates.
    pub fn new(x: u32, y: u32) -> (r: Self)
        ensures
            r == (PixelIndex { x, y }),
    {
        Self { x, y }
    }
}

/// A rendering of a graph. Each pixel stores the existence or absence of a solution,
/// and the index of the last queued block that covered the pixel.
#[derive(Debug)]
pub struct Image {
    width: u32,
    height: u32,
    last_queued_blocks: Vec<QueuedBlockIndex>,
    states: Vec<PixelState>,
}

impl Image {
    /// The width of the image in pixels, for use in specifications.
    pub closed spec fn spec_width(&self) -> u32 {
        self.width
    }

    /// The height of the image in pixels, for use in specifications.
    pub closed spec fn spec_height(&self) -> u32 {
        self.height
    }

    /// The pixel states in row-major order, for use in specifications.
    pub closed spec fn spec_states(&self) -> Seq<PixelState> {
        self.states@
    }

    /// The last-queued block indices in row-major order, for use in specifications.
    pub closed spec fn spec_blocks(&self) -> Seq<QueuedBlockIndex> {
        self.last_queued_blocks@
    }

    /// The image is a well-formed grid: positive bounded dimensions and
    /// one state and one block index per pixel.
    pub open spec fn wf(&self) -> bool {
        &&& 0 < self.spec_width() <= MAX_IMAGE_WIDTH
        &&& 0 < self.spec_height() <= MAX_IMAGE_WIDTH
        &&& self.spec_states().len() == self.spec_width() * self.spec_height()
        &&& self.spec_blocks().len() == self.spec_width() * self.spec_height()
    }

    /// The pixel index lies within the image bounds.
    pub open spec fn contains(&self, p: PixelIndex) -> bool {
        p.x < self.spec_width() && p.y < self.spec_height()
    }

    /// The row-major position of the pixel, for use in specifications.
    pub open spec fn spec_index(&self, p: PixelIndex) -> int {
        p.y * self.spec_width() + p.x
    }

    /// Creates a new [`Image`] with all pixels set to [`PixelState::Uncertain`].
    pub fn new(width: u32, height: u32) -> (r: Self)
        requires
            0 < width <= MAX_IMAGE_WIDTH,
            0 < height <= MAX_IMAGE_WIDTH,
        ensures
            r.wf(),
            r.spec_width() == width,
            r.spec_height() == height,
            forall|i: int| 0 <= i < r.spec_states().len() ==> r.spec_states()[i] == PixelState::Uncertain,
            forall|i: int| 0 <= i < r.spec_blocks().len() ==> r.spec_blocks()[i] == 0u32,
    {
        proof {
            lemma_row_major_index_bound(0, 0, width as int, height as int);
        }
        let n: usize = height as usize * width as usize;
        let mut states: Vec<PixelState> = Vec::new();
        let mut blocks: Vec<QueuedBlockIndex> = Vec::new();
        let mut i: usize = 0;
        while i < n
            invariant
                i <= n,
                states@.len() == i,
                blocks@.len() == i,
                forall|j: int| 0 <= j < i ==> states@[j] == PixelState::Uncertain,
                forall|j: int| 0 <= j < i ==> blocks@[j] == 0u32,
            decreases n - i,
        {
            states.push(PixelState::Uncertain);
            blocks.push(0);
            i = i + 1;
        }
        Self { width, height, last_queued_blocks: blocks, states }
    }

    /// Returns the height of the image in pixels.
    pub fn height(&self) -> (r: u32)
        ensures
            r == self.spec_height(),
    {
        self.height
    }

    /// Returns the width of the image in pixels.
    pub fn width(&self) -> (r: u32)
        ensures
            r == self.spec_width(),
    {
        self.width
    }

    /// Returns the flattened index of the pixel.
    fn index(&self, p: PixelIndex) -> (r: usize)
        requires
            self.wf(),
            self.contains(p),
        ensures
            r == self.spec_index(p),
            r < self.spec_states().len(),
    {
        proof {
            lemma_row_major_index_bound(
                p.x as int,
                p.y as int,
                self.spec_width() as int,
                self.spec_height() as int,
            );
        }
        p.y as usize * self.width as usize + p.x as usize
    }

    /// Returns the index of the last-queued block of the pixel.
    pub fn last_queued_block(&self, p: PixelIndex) -> (r: QueuedBlockIndex)
        requires
            self.wf(),
            self.contains(p),
        ensures
            r == self.spec_blocks()[self.spec_index(p)],
    {
        let i: usize = self.index(p);
        self.last_queued_blocks[i]
    }

    /// Returns a mutable reference to the index of the last-queued block of the pixel.
    pub fn last_queued_block_mut(&mut self, p: PixelIndex) -> (r: &mut QueuedBlockIndex)
        requires
            old(self).wf(),
            old(self).contains(p),
        ensures
            *r == old(self).spec_blocks()[old(self).spec_index(p)],
            final(self).spec_blocks() == old(self).spec_blocks().update(
                old(self).spec_index(p),
                *final(r),
            ),
            final(self).spec_states() == old(self).spec_states(),
            final(self).spec_width() == old(self).spec_width(),
            final(self).spec_height() == old(self).spec_height(),
            final(self).wf(),
    {
        let i: usize = self.index(p);
        &mut self.last_queued_blocks[i]
    }

    /// Returns the size allocated by the [`Image`] in bytes: one byte per pixel
    /// state and four bytes per block index.
    pub fn size_in_heap(&self) -> (r: u64)
        requires
            self.wf(),
        ensures
            r == 5 * self.spec_width() * self.spec_height(),
    {
        proof {
            lemma_row_major_index_bound(
                0,
                0,
                self.spec_width() as int,
                self.spec_height() as int,
            );
        }
        self.states.len() as u64 + self.last_queued_blocks.len() as u64 * 4
    }

    /// Returns the graphing status of the pixel.
    pub fn state(&self, p: PixelIndex) -> (r: PixelState)
        requires
            self.wf(),
            self.contains(p),
        ensures
            r == self.spec_states()[self.spec_index(p)],
    {
        let i: usize = self.index(p);
        self.states[i]
    }

    /// Returns a copy of the graphing status of all pixels
    /// in the lexicographical order of (y, x).
    pub fn state_iter(&self) -> (r: Vec<PixelState>)
        ensures
            r@ == self.spec_states(),
    {
        let mut out: Vec<PixelState> = Vec::new();
        let mut i: usize = 0;
        while i < self.states.len()
            invariant
                i <= self.states.len(),
                out@ == self.states@.subrange(0, i as int),
            decreases self.states.len() - i,
        {
            out.push(self.states[i]);
            proof {
                assert(out@ == self.states@.subrange(0, i as int + 1));
            }
            i = i + 1;
        }
        proof {
            assert(self.states@.subrange(0, self.states@.len() as int) == self.states@);
        }
        out
    }

    /// Returns a mutable reference to the graphing status of the pixel.
    pub fn state_mut(&mut self, p: PixelIndex) -> (r: &mut PixelState)
        requires
            old(self).wf(),
            old(self).contains(p),
        ensures
            *r == old(self).spec_states()[old(self).spec_index(p)],
            final(self).spec_states() == old(self).spec_states().update(
                old(self).spec_index(p),
                *final(r),
            ),
            final(self).spec_blocks() == old(self).spec_blocks(),
            final(self).spec_width() == old(self).spec_width(),
            final(self).spec_height() == old(self).spec_height(),
            final(self).wf(),
    {
        let i: usize = self.index(p);
        &mut self.states[i]
    }
}

/// Row-major indexing stays within a `w`-by-`h` grid.
proof fn lemma_row_major_index_bound(x: int, y: int, w: int, h: int)
    by (nonlinear_arith)
    requires
        0 < w <= MAX_IMAGE_WIDTH,
        0 < h <= MAX_IMAGE_WIDTH,
        0 <= x < w,
        0 <= y < h,
    ensures
        0 <= y * w + x < w * h,
        w * h <= MAX_IMAGE_WIDTH * MAX_IMAGE_WIDTH,
        w * h == h * w,
        5 * (w * h) == 5 * w * h,
{
}

} // verus!
