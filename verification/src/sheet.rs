use vstd::prelude::*;
use crate::arith::lemma_le_mul;
use crate::arith::lemma_mul_dist;
use crate::arith::lemma_mul_le;
use crate::arith::lemma_mul_lt;
use crate::bitmap::Bitmap;
use crate::color::white;
use crate::color::Color;
use crate::grid::grid_pix;
use crate::grid::render;

verus! {

/// The color the sheet canvas holds at (cx, cy): over an all-white
/// background, three grids of magnification ps are rendered side by
/// side, `a` starting one block in, `b` two blocks right of `a`, and
/// `c` two blocks right of `b`, all one block down.
pub open spec fn sheet_pix(a: Bitmap, b: Bitmap, c: Bitmap, ps: int, cx: int, cy: int) -> Color {
    let w = a.spec_width();
    let p1 = grid_pix(white(), a, ps, ps, ps, cx, cy);
    let p2 = grid_pix(p1, b, (2 + w) * ps, ps, ps, cx, cy);
    grid_pix(p2, c, (3 + 2 * w) * ps, ps, ps, cx, cy)
}

/// Lay three equal-sized bitmaps out as magnified pixel grids on one
/// white sheet: `a`, `b` and `c` side by side with one-block margins
/// between them and around the edge. The sheet is
/// (3 * width + 4) * pixel_size wide and (height + 2) * pixel_size high.
pub fn compose_sheet(a: &Bitmap, b: &Bitmap, c: &Bitmap, pixel_size: usize) -> (r: Bitmap)
    requires
        a.wf(),
        b.wf(),
        c.wf(),
        1 <= pixel_size,
        b.spec_width() == a.spec_width(),
        b.spec_height() == a.spec_height(),
        c.spec_width() == a.spec_width(),
        c.spec_height() == a.spec_height(),
        (3 * a.spec_width() + 4) * pixel_size * ((a.spec_height() + 2) * pixel_size)
            <= usize::MAX,
    ensures
        r.wf(),
        r.spec_width() == (3 * a.spec_width() + 4) * pixel_size,
        r.spec_height() == (a.spec_height() + 2) * pixel_size,
        forall|cx: int, cy: int|
            0 <= cx < r.spec_width() && 0 <= cy < r.spec_height() ==> r.pix(cx, cy) == sheet_pix(
                *a,
                *b,
                *c,
                pixel_size as int,
                cx,
                cy,
            ),
{
    let w = a.width();
    let h = a.height();
    let ghost wi_ = w as int;
    let ghost hi_ = h as int;
    let ghost ps_ = pixel_size as int;
    proof {
        // Size bounds: both sheet dimensions and every grid offset stay
        // below the sheet edges and inside the addressable pixel count.
        lemma_mul_le(1, 3 * wi_ + 4, ps_);
        lemma_mul_le(1, hi_ + 2, ps_);
        lemma_le_mul(3 * wi_ + 4, ps_);
        lemma_le_mul(hi_ + 2, ps_);
        lemma_le_mul((3 * wi_ + 4) * ps_, (hi_ + 2) * ps_);
        crate::arith::lemma_mul_comm((hi_ + 2) * ps_, (3 * wi_ + 4) * ps_);
        lemma_le_mul((hi_ + 2) * ps_, (3 * wi_ + 4) * ps_);
        lemma_mul_dist(2 + wi_, wi_, ps_);
        lemma_mul_dist(3 + 2 * wi_, wi_, ps_);
        lemma_mul_dist(hi_, 2, ps_);
        lemma_mul_lt(2 + 2 * wi_, 3 * wi_ + 4, ps_);
        lemma_mul_lt(3 + 3 * wi_, 3 * wi_ + 4, ps_);
        lemma_mul_lt(1 + wi_, 3 * wi_ + 4, ps_);
        lemma_mul_lt(1 + hi_, hi_ + 2, ps_);
        lemma_mul_dist(1, wi_, ps_);
        lemma_mul_dist(1, hi_, ps_);
    }
    let sheet_w = (3 * w + 4) * pixel_size;
    let sheet_h = (h + 2) * pixel_size;
    let mut sheet = Bitmap::filled(sheet_w, sheet_h, white());
    let off_y = pixel_size;
    let off1 = pixel_size;
    let off2 = (2 + w) * pixel_size;
    let off3 = (3 + 2 * w) * pixel_size;
    render(&mut sheet, a, off1, off_y, pixel_size);
    let ghost s1 = sheet;
    render(&mut sheet, b, off2, off_y, pixel_size);
    let ghost s2 = sheet;
    render(&mut sheet, c, off3, off_y, pixel_size);
    proof {
        assert forall|cx: int, cy: int|
            0 <= cx < sheet.spec_width() && 0 <= cy < sheet.spec_height()
                implies sheet.pix(cx, cy) == sheet_pix(*a, *b, *c, ps_, cx, cy) by {
            assert(s1.pix(cx, cy) == grid_pix(white(), *a, ps_, ps_, ps_, cx, cy));
            assert(s2.pix(cx, cy) == grid_pix(s1.pix(cx, cy), *b, (2 + wi_) * ps_, ps_, ps_, cx, cy));
        }
    }
    sheet
}

} // verus!
