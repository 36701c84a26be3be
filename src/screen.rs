use vstd::prelude::*;

use crate::framebuffer::{Framebuffer, Pixel};

verus! {

/// A request to the output sink: show `pixel` at column `x`, row `y`.
#[derive(PartialEq, Eq, Structural, Clone, Copy, Debug)]
pub struct CellWrite {
    pub x: usize,
    pub y: usize,
    pub pixel: Pixel,
}

/// The write for the cell at row-major index `i` of `front`.
pub open spec fn write_at(front: Framebuffer, i: int) -> CellWrite {
    CellWrite {
        x: (i % front.width as int) as usize,
        y: (i / front.width as int) as usize,
        pixel: front.pixels@[i],
    }
}

/// The writes, in row-major order, for the cells among the first `n` whose pixel in
/// `front` differs from the one in `previous`.
pub open spec fn changes_upto(front: Framebuffer, previous: Framebuffer, n: nat) -> Seq<CellWrite>
    decreases n,
{
    if n == 0 {
        Seq::empty()
    } else {
        let rest = changes_upto(front, previous, (n - 1) as nat);
        if front.pixels@[n - 1] != previous.pixels@[n - 1] {
            rest.push(write_at(front, n - 1))
        } else {
            rest
        }
    }
}

/// The writes that bring a display showing `previous` to show `front`.
pub open spec fn changes(front: Framebuffer, previous: Framebuffer) -> Seq<CellWrite> {
    changes_upto(front, previous, front.pixels@.len())
}

/// Two framebuffers of the same size.
pub open spec fn same_shape(a: Framebuffer, b: Framebuffer) -> bool {
    &&& a.wf()
    &&& b.wf()
    &&& a.width == b.width
    &&& a.height == b.height
}

/// Compares `front` with `previous` cell by cell and lists a write for each cell that differs.
pub fn diff(front: &Framebuffer, previous: &Framebuffer) -> (r: Vec<CellWrite>)
    requires
        same_shape(*front, *previous),
    ensures
        r@ == changes(*front, *previous),
{
    let n: usize = front.pixels.len();
    let mut out: Vec<CellWrite> = Vec::new();
    let mut i: usize = 0;
    while i < n
        invariant
            same_shape(*front, *previous),
            n == front.pixels@.len(),
            i <= n,
            out@ == changes_upto(*front, *previous, i as nat),
        decreases n - i,
    {
        let p = front.pixels[i];
        if p != previous.pixels[i] {
            out.push(CellWrite { x: i % front.width, y: i / front.width, pixel: p });
        }
        i = i + 1;
    }
    out
}

/// Identical framebuffers need no write.
pub proof fn lemma_identical_frames_need_no_write(front: Framebuffer, previous: Framebuffer)
    requires
        same_shape(front, previous),
        front.pixels@ == previous.pixels@,
    ensures
        changes(front, previous) == Seq::<CellWrite>::empty(),
{
    lemma_identical_prefix(front, previous, front.pixels@.len());
}

proof fn lemma_identical_prefix(front: Framebuffer, previous: Framebuffer, n: nat)
    requires
        n <= front.pixels@.len(),
        front.pixels@ == previous.pixels@,
    ensures
        changes_upto(front, previous, n) == Seq::<CellWrite>::empty(),
    decreases n,
{
    if n > 0 {
        lemma_identical_prefix(front, previous, (n - 1) as nat);
    }
}

/// Framebuffers that differ in exactly the cell at column `x`, row `y` need exactly one
/// write: that cell's coordinates with its pixel in `front`.
pub proof fn lemma_one_changed_cell_one_write(
    front: Framebuffer,
    previous: Framebuffer,
    x: int,
    y: int,
)
    requires
        same_shape(front, previous),
        0 <= x < front.width,
        0 <= y < front.height,
        front.pixel(x, y) != previous.pixel(x, y),
        forall|i: int|
            0 <= i < front.pixels@.len() && i != y * front.width + x ==> front.pixels@[i]
                == previous.pixels@[i],
    ensures
        changes(front, previous) == seq![CellWrite { x: x as usize, y: y as usize, pixel: front.pixel(x, y) }],
{
    let w = front.width as int;
    let k = y * w + x;
    crate::framebuffer::lemma_index_in_grid(x, y, w, front.height as int);
    lemma_one_changed_prefix(front, previous, k, front.pixels@.len());
    assert(k % w == x && k / w == y) by (nonlinear_arith)
        requires k == y * w + x, 0 <= x < w, 0 <= y;
}

proof fn lemma_one_changed_prefix(front: Framebuffer, previous: Framebuffer, k: int, n: nat)
    requires
        0 <= k < front.pixels@.len(),
        n <= front.pixels@.len(),
        front.pixels@[k] != previous.pixels@[k],
        forall|i: int|
            0 <= i < front.pixels@.len() && i != k ==> front.pixels@[i] == previous.pixels@[i],
    ensures
        n <= k ==> changes_upto(front, previous, n) == Seq::<CellWrite>::empty(),
        n > k ==> changes_upto(front, previous, n) == seq![write_at(front, k)],
    decreases n,
{
    if n > 0 {
        lemma_one_changed_prefix(front, previous, k, (n - 1) as nat);
        if n - 1 == k {
            assert(Seq::<CellWrite>::empty().push(write_at(front, k)) == seq![write_at(front, k)]);
        }
    }
}

/// Two framebuffers of one size: `front` is drawn into, `previous` holds what was last shown.
pub struct Screen {
    pub front: Framebuffer,
    pub previous: Framebuffer,
    pub width: usize,
    pub height: usize,
}

impl Screen {
    pub open spec fn wf(&self) -> bool {
        &&& same_shape(self.front, self.previous)
        &&& self.front.width == self.width
        &&& self.front.height == self.height
    }

    pub fn new(width: usize, height: usize) -> (r: Screen)
        requires
            width * height <= usize::MAX,
        ensures
            r.wf(),
            r.width == width,
            r.height == height,
            forall|x: int, y: int|
                0 <= x < width && 0 <= y < height ==> #[trigger] r.front.pixel(x, y)
                    == crate::framebuffer::blank_pixel() && r.previous.pixel(x, y)
                    == crate::framebuffer::blank_pixel(),
    {
        Screen {
            front: Framebuffer::new(width, height),
            previous: Framebuffer::new(width, height),
            width,
            height,
        }
    }

    /// Exchanges the roles of the two buffers.
    pub fn swap_buf(&mut self)
        requires
            old(self).wf(),
        ensures
            final(self).wf(),
            final(self).front == old(self).previous,
            final(self).previous == old(self).front,
            final(self).width == old(self).width,
            final(self).height == old(self).height,
    {
        core::mem::swap(&mut self.front, &mut self.previous);
    }

    /// Lists the writes that show the front buffer over what was shown last, then swaps
    /// the buffers: what was just drawn becomes the one shown.
    pub fn draw(&mut self) -> (r: Vec<CellWrite>)
        requires
            old(self).wf(),
        ensures
            r@ == changes(old(self).front, old(self).previous),
            final(self).wf(),
            final(self).front == old(self).previous,
            final(self).previous == old(self).front,
            final(self).width == old(self).width,
            final(self).height == old(self).height,
    {
        let writes = diff(&self.front, &self.previous);
        self.swap_buf();
        writes
    }
}

} // verus!
