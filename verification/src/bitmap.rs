use vstd::prelude::*;
use crate::arith::lemma_index_bound;
use crate::arith::lemma_index_inj;
use crate::color::Color;

verus! {

/// A rectangular grid of pixels, stored row-major.
///
/// A bitmap doubles as a canvas: it is created once, populated by a single
/// writer pass, and then only read.
pub struct Bitmap {
    width: usize,
    height: usize,
    pixels: Vec<Color>,
}

impl Bitmap {
    pub closed spec fn spec_width(&self) -> int {
        self.width as int
    }

    pub closed spec fn spec_height(&self) -> int {
        self.height as int
    }

    /// Well-formed: the pixel store holds exactly width * height cells.
    pub closed spec fn wf(self) -> bool {
        self.pixels.len() == self.width * self.height
    }

    /// The color of the pixel in column x, row y.
    pub closed spec fn pix(self, x: int, y: int) -> Color {
        self.pixels@[y * self.spec_width() + x]
    }

    pub fn width(&self) -> (w: usize)
        ensures
            w == self.spec_width(),
    {
        self.width
    }

    pub fn height(&self) -> (h: usize)
        ensures
            h == self.spec_height(),
    {
        self.height
    }

    /// The dimensions of a bitmap are machine-sized.
    pub proof fn lemma_dims(self)
        ensures
            0 <= self.spec_width() <= usize::MAX,
            0 <= self.spec_height() <= usize::MAX,
    {
    }

    /// The number of pixels; it fits in a machine word.
    pub fn pixel_count(&self) -> (n: usize)
        requires
            self.wf(),
        ensures
            n == self.spec_width() * self.spec_height(),
    {
        self.pixels.len()
    }

    /// A width * height bitmap with every pixel set to one color.
    pub fn filled(width: usize, height: usize, color: Color) -> (b: Bitmap)
        requires
            width * height <= usize::MAX,
        ensures
            b.wf(),
            b.spec_width() == width,
            b.spec_height() == height,
            forall|x: int, y: int|
                0 <= x < width && 0 <= y < height ==> b.pix(x, y) == color,
    {
        let count = width * height;
        let mut pixels: Vec<Color> = Vec::new();
        while pixels.len() < count
            invariant
                pixels.len() <= count,
                forall|i: int| 0 <= i < pixels.len() ==> pixels@[i] == color,
            decreases count - pixels.len(),
        {
            pixels.push(color);
        }
        let b = Bitmap { width, height, pixels };
        proof {
            assert forall|x: int, y: int|
                0 <= x < width && 0 <= y < height implies b.pix(x, y) == color by {
                lemma_index_bound(x, y, width as int, height as int);
            }
        }
        b
    }

    /// Read the pixel in column x, row y.
    pub fn get(&self, x: usize, y: usize) -> (c: Color)
        requires
            self.wf(),
            x < self.spec_width(),
            y < self.spec_height(),
        ensures
            c == self.pix(x as int, y as int),
    {
        proof {
            lemma_index_bound(x as int, y as int, self.spec_width(), self.spec_height());
        }
        self.pixels[y * self.width + x]
    }

    /// Write the pixel in column x, row y; every other pixel is unchanged.
    pub fn set(&mut self, x: usize, y: usize, color: Color)
        requires
            old(self).wf(),
            x < old(self).spec_width(),
            y < old(self).spec_height(),
        ensures
            final(self).wf(),
            final(self).spec_width() == old(self).spec_width(),
            final(self).spec_height() == old(self).spec_height(),
            forall|i: int, j: int|
                0 <= i < old(self).spec_width() && 0 <= j < old(self).spec_height() ==>
                    final(self).pix(i, j) == (if i == x && j == y {
                        color
                    } else {
                        old(self).pix(i, j)
                    }),
    {
        proof {
            lemma_index_bound(x as int, y as int, self.spec_width(), self.spec_height());
        }
        let idx = y * self.width + x;
        self.pixels[idx] = color;
        proof {
            let w = self.spec_width();
            let h = self.spec_height();
            assert forall|i: int, j: int|
                0 <= i < w && 0 <= j < h implies self.pix(i, j) == (if i == x && j == y {
                color
            } else {
                old(self).pix(i, j)
            }) by {
                lemma_index_bound(i, j, w, h);
                if j * w + i == y * w + x {
                    lemma_index_inj(i, j, x as int, y as int, w);
                }
            }
        }
    }
}

} // verus!
