use vstd::prelude::*;

verus! {

/// One character cell: a glyph with palette indices for its foreground and background.
#[derive(PartialEq, Eq, Structural, Clone, Copy, Debug)]
pub struct Pixel {
    pub c: char,
    pub fg: u8,
    pub bg: u8,
}

/// The pixel every fresh framebuffer is filled with.
pub open spec fn blank_pixel() -> Pixel {
    Pixel { c: ' ', fg: 0, bg: 255 }
}

/// A `width` x `height` grid of pixels, stored row by row.
#[derive(Debug)]
pub struct Framebuffer {
    pub pixels: Vec<Pixel>,
    pub width: usize,
    pub height: usize,
}

impl Framebuffer {
    pub open spec fn wf(&self) -> bool {
        &&& self.pixels@.len() == self.width * self.height
        &&& self.width * self.height <= usize::MAX
    }

    /// The pixel at column `x`, row `y`.
    pub open spec fn pixel(&self, x: int, y: int) -> Pixel {
        self.pixels@[y * self.width + x]
    }

    pub fn new(width: usize, height: usize) -> (r: Framebuffer)
        requires
            width * height <= usize::MAX,
        ensures
            r.wf(),
            r.width == width,
            r.height == height,
            forall|x: int, y: int|
                0 <= x < width && 0 <= y < height ==> #[trigger] r.pixel(x, y) == blank_pixel(),
    {
        let n: usize = width * height;
        let pixels = vec![Pixel { c: ' ', fg: 0, bg: 255 }; n];
        let r = Framebuffer { pixels, width, height };
        assert forall|x: int, y: int| 0 <= x < width && 0 <= y < height implies #[trigger] r.pixel(x, y) == blank_pixel() by {
            lemma_index_in_grid(x, y, width as int, height as int);
        }
        r
    }

    pub fn set(&mut self, x: usize, y: usize, p: Pixel)
        requires
            old(self).wf(),
            x < old(self).width,
            y < old(self).height,
        ensures
            final(self).wf(),
            final(self).width == old(self).width,
            final(self).height == old(self).height,
            final(self).pixels@ == old(self).pixels@.update(y * old(self).width + x, p),
            final(self).pixel(x as int, y as int) == p,
            forall|i: int, j: int|
                0 <= i < old(self).width && 0 <= j < old(self).height && (i != x || j != y)
                    ==> #[trigger] final(self).pixel(i, j) == old(self).pixel(i, j),
    {
        proof {
            lemma_index_in_grid(x as int, y as int, self.width as int, self.height as int);
            assert forall|i: int, j: int|
                0 <= i < self.width && 0 <= j < self.height && (i != x || j != y)
                implies #[trigger] self.pixel(i, j) == self.pixel(i, j) && j * self.width + i != y * self.width + x
                    && 0 <= j * self.width + i < self.pixels@.len() by {
                lemma_index_in_grid(i, j, self.width as int, self.height as int);
                lemma_cells_apart(i, j, x as int, y as int, self.width as int);
            }
        }
        let i: usize = y * self.width + x;
        self.pixels.set(i, p);
    }

    pub fn get(&self, x: usize, y: usize) -> (r: Pixel)
        requires
            self.wf(),
            x < self.width,
            y < self.height,
        ensures
            r == self.pixel(x as int, y as int),
    {
        proof {
            lemma_index_in_grid(x as int, y as int, self.width as int, self.height as int);
        }
        self.pixels[y * self.width + x]
    }
}

/// Different cells of a grid `w` wide have different row-major indices.
pub proof fn lemma_cells_apart(x1: int, y1: int, x2: int, y2: int, w: int)
    requires
        0 <= x1 < w,
        0 <= x2 < w,
        0 <= y1,
        0 <= y2,
        x1 != x2 || y1 != y2,
    ensures
        y1 * w + x1 != y2 * w + x2,
{
    if y1 < y2 {
        assert(y1 * w + x1 < y2 * w + x2) by (nonlinear_arith)
            requires 0 <= x1 < w, 0 <= x2, y1 < y2;
    } else if y2 < y1 {
        assert(y2 * w + x2 < y1 * w + x1) by (nonlinear_arith)
            requires 0 <= x2 < w, 0 <= x1, y2 < y1;
    }
}

/// A cell inside a `w` x `h` grid has a row-major index below `w * h`.
pub proof fn lemma_index_in_grid(x: int, y: int, w: int, h: int)
    requires
        0 <= x < w,
        0 <= y < h,
    ensures
        0 <= y * w + x < w * h,
{
    assert(y * w + x < w * h) by (nonlinear_arith)
        requires 0 <= x < w, 0 <= y < h;
    assert(0 <= y * w) by (nonlinear_arith)
        requires 0 <= x < w, 0 <= y < h;
}

} // verus!
