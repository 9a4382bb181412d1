use vstd::prelude::*;
use crate::arith::lemma_decompose;
use crate::arith::lemma_div_below;
use crate::arith::lemma_le_mul;
use crate::arith::lemma_mul_le;
use crate::arith::lemma_multiple_in_window;
use crate::arith::lemma_recompose;
use crate::arith::lemma_succ_mul;
use crate::bitmap::Bitmap;
use crate::color::black;
use crate::color::Color;

verus! {

/// The canvas pixel (cx, cy) lies on one of the vertical gridlines of a
/// grid rendered from `source` at offset (ox, oy) with magnification f.
pub open spec fn on_vline(source: Bitmap, ox: int, oy: int, f: int, cx: int, cy: int) -> bool {
    let dx = cx - ox;
    let dy = cy - oy;
    &&& 0 <= dx <= source.spec_width() * f
    &&& dx % f == 0
    &&& 0 <= dy < source.spec_height() * f
}

/// The canvas pixel (cx, cy) lies on one of the horizontal gridlines.
pub open spec fn on_hline(source: Bitmap, ox: int, oy: int, f: int, cx: int, cy: int) -> bool {
    let dx = cx - ox;
    let dy = cy - oy;
    &&& 0 <= dy <= source.spec_height() * f
    &&& dy % f == 0
    &&& 0 <= dx < source.spec_width() * f
}

/// The canvas pixel (cx, cy) lies inside the magnified area proper.
pub open spec fn in_blocks(source: Bitmap, ox: int, oy: int, f: int, cx: int, cy: int) -> bool {
    let dx = cx - ox;
    let dy = cy - oy;
    &&& 0 <= dx < source.spec_width() * f
    &&& 0 <= dy < source.spec_height() * f
}

/// The color the canvas pixel (cx, cy) holds after a grid of `source` is
/// rendered at offset (ox, oy) with magnification f over a canvas whose
/// prior color there was `base`: black on gridlines, the source pixel of
/// the surrounding block in block interiors, untouched elsewhere.
pub open spec fn grid_pix(
    base: Color,
    source: Bitmap,
    ox: int,
    oy: int,
    f: int,
    cx: int,
    cy: int,
) -> Color {
    if on_vline(source, ox, oy, f, cx, cy) || on_hline(source, ox, oy, f, cx, cy) {
        black()
    } else if in_blocks(source, ox, oy, f, cx, cy) {
        source.pix((cx - ox) / f, (cy - oy) / f)
    } else {
        base
    }
}

/// Law: in a rendered grid with magnification at least 2, every canvas
/// pixel whose offset is a multiple of the factor along either axis (and
/// in range along the other) is black, and every interior pixel of block
/// (kx, ky) shows the source pixel (kx, ky).
pub proof fn lemma_gridline_invariant(
    base: Color,
    source: Bitmap,
    ox: int,
    oy: int,
    f: int,
    kx: int,
    ky: int,
    jx: int,
    jy: int,
)
    requires
        2 <= f,
        0 <= kx <= source.spec_width(),
        0 <= ky <= source.spec_height(),
        1 <= jx < f,
        1 <= jy < f,
    ensures
        ky < source.spec_height() ==> grid_pix(base, source, ox, oy, f, ox + kx * f, oy + ky * f + jy)
            == black(),
        kx < source.spec_width() ==> grid_pix(base, source, ox, oy, f, ox + kx * f + jx, oy + ky * f)
            == black(),
        kx < source.spec_width() && ky < source.spec_height() ==> grid_pix(
            base, source, ox, oy, f, ox + kx * f + jx, oy + ky * f + jy,
        ) == source.pix(kx, ky),
{
    lemma_decompose(kx, 0, f);
    lemma_decompose(ky, 0, f);
    lemma_decompose(kx, jx, f);
    lemma_decompose(ky, jy, f);
    lemma_succ_mul(kx, f);
    lemma_succ_mul(ky, f);
    lemma_mul_le(0, kx, f);
    lemma_mul_le(0, ky, f);
    lemma_mul_le(kx, source.spec_width(), f);
    lemma_mul_le(ky, source.spec_height(), f);
    if kx < source.spec_width() {
        lemma_mul_le(kx + 1, source.spec_width(), f);
    }
    if ky < source.spec_height() {
        lemma_mul_le(ky + 1, source.spec_height(), f);
    }
}

/// Law: with magnification 1 the rendered region consists of gridlines
/// alone: every covered canvas pixel is black and no block has interior
/// pixels. The one canvas pixel of the region no line reaches is its
/// bottom-right corner, which stays untouched.
pub proof fn lemma_degenerate_factor(
    base: Color,
    source: Bitmap,
    ox: int,
    oy: int,
    cx: int,
    cy: int,
)
    requires
        0 <= cx - ox <= source.spec_width(),
        0 <= cy - oy <= source.spec_height(),
        cx - ox < source.spec_width() || cy - oy < source.spec_height(),
    ensures
        grid_pix(base, source, ox, oy, 1, cx, cy) == black(),
{
}

/// Fill the rectangle [x0, x1) x [y0, y1) of `target` with `color`,
/// leaving every pixel outside it unchanged.
#[verifier::loop_isolation(false)]
pub fn fill_rect(target: &mut Bitmap, x0: usize, x1: usize, y0: usize, y1: usize, color: Color)
    requires
        old(target).wf(),
        x1 <= old(target).spec_width(),
        y1 <= old(target).spec_height(),
    ensures
        final(target).wf(),
        final(target).spec_width() == old(target).spec_width(),
        final(target).spec_height() == old(target).spec_height(),
        forall|cx: int, cy: int|
            0 <= cx < old(target).spec_width() && 0 <= cy < old(target).spec_height()
                ==> final(target).pix(cx, cy) == (if x0 <= cx && cx < x1 && y0 <= cy && cy < y1 {
                color
            } else {
                old(target).pix(cx, cy)
            }),
{
    let ghost orig = *target;
    let mut x = x0;
    while x < x1
        invariant
            target.wf(),
            target.spec_width() == orig.spec_width(),
            target.spec_height() == orig.spec_height(),
            x0 <= x,
            x <= x1 || x == x0,
            forall|cx: int, cy: int|
                0 <= cx < orig.spec_width() && 0 <= cy < orig.spec_height()
                    ==> target.pix(cx, cy) == (if x0 <= cx && cx < x && y0 <= cy && cy < y1 {
                    color
                } else {
                    orig.pix(cx, cy)
                }),
        decreases x1 - x,
    {
        let mut y = y0;
        while y < y1
            invariant
                target.wf(),
                target.spec_width() == orig.spec_width(),
                target.spec_height() == orig.spec_height(),
                x0 <= x < x1,
                y0 <= y,
                y <= y1 || y == y0,
                forall|cx: int, cy: int|
                    0 <= cx < orig.spec_width() && 0 <= cy < orig.spec_height()
                        ==> target.pix(cx, cy) == (if (x0 <= cx && cx < x && y0 <= cy && cy < y1)
                            || (cx == x && y0 <= cy && cy < y) {
                        color
                    } else {
                        orig.pix(cx, cy)
                    }),
            decreases y1 - y,
        {
            target.set(x, y, color);
            y = y + 1;
        }
        x = x + 1;
    }
}

/// The pixel lies on a vertical gridline whose logical index is below k.
spec fn vlines_below(source: Bitmap, ox: int, oy: int, f: int, k: int, cx: int, cy: int) -> bool {
    let dx = cx - ox;
    let dy = cy - oy;
    &&& 0 <= dx < k * f
    &&& dx % f == 0
    &&& 0 <= dy < source.spec_height() * f
}

/// The pixel lies on a horizontal gridline whose logical index is below k.
spec fn hlines_below(source: Bitmap, ox: int, oy: int, f: int, k: int, cx: int, cy: int) -> bool {
    let dx = cx - ox;
    let dy = cy - oy;
    &&& 0 <= dy < k * f
    &&& dy % f == 0
    &&& 0 <= dx < source.spec_width() * f
}

/// The pixel is a block-interior pixel whose logical block comes before
/// (k, l) in column-major order.
spec fn filled_below(source: Bitmap, ox: int, oy: int, f: int, k: int, l: int, cx: int, cy: int) -> bool {
    let dx = cx - ox;
    let dy = cy - oy;
    &&& in_blocks(source, ox, oy, f, cx, cy)
    &&& dx % f != 0
    &&& dy % f != 0
    &&& (dx / f < k || (dx / f == k && dy / f < l))
}

/// The canvas color at (cx, cy) after the gridline passes and the block
/// fills before logical block (k, l).
spec fn render_step_pix(
    orig: Bitmap,
    source: Bitmap,
    ox: int,
    oy: int,
    f: int,
    k: int,
    l: int,
    cx: int,
    cy: int,
) -> Color {
    if on_vline(source, ox, oy, f, cx, cy) || on_hline(source, ox, oy, f, cx, cy) {
        black()
    } else if filled_below(source, ox, oy, f, k, l, cx, cy) {
        source.pix((cx - ox) / f, (cy - oy) / f)
    } else {
        orig.pix(cx, cy)
    }
}

/// Draw a gridlined, magnified copy of `source` into `target`.
///
/// Each logical source pixel becomes a factor x factor block at offset
/// (offset_x, offset_y): 1-pixel black gridlines on every block boundary,
/// drawn first as full lines, then the (factor-1) x (factor-1) interior of
/// each block filled with the source pixel's color. The outermost
/// gridlines sit one pixel beyond the magnified area, hence the strict
/// bounds. Every pixel outside the gridded region is left unchanged.
#[verifier::loop_isolation(false)]
pub fn render(
    target: &mut Bitmap,
    source: &Bitmap,
    offset_x: usize,
    offset_y: usize,
    factor: usize,
)
    requires
        old(target).wf(),
        source.wf(),
        1 <= factor,
        offset_x + source.spec_width() * factor < old(target).spec_width(),
        offset_y + source.spec_height() * factor < old(target).spec_height(),
    ensures
        final(target).wf(),
        final(target).spec_width() == old(target).spec_width(),
        final(target).spec_height() == old(target).spec_height(),
        forall|cx: int, cy: int|
            0 <= cx < old(target).spec_width() && 0 <= cy < old(target).spec_height()
                ==> final(target).pix(cx, cy) == grid_pix(
                old(target).pix(cx, cy),
                *source,
                offset_x as int,
                offset_y as int,
                factor as int,
                cx,
                cy,
            ),
{
    let ghost orig = *target;
    let ghost ox = offset_x as int;
    let ghost oy = offset_y as int;
    let ghost f = factor as int;
    let sw = source.width();
    let sh = source.height();
    proof {
        orig.lemma_dims();
        lemma_le_mul(sw as int, f);
        lemma_le_mul(sh as int, f);
    }
    let gw = sw * factor;
    let gh = sh * factor;

    // Pass 1: the source.width() + 1 vertical gridlines.
    let mut x: usize = 0;
    while x <= sw
        invariant
            target.wf(),
            target.spec_width() == orig.spec_width(),
            target.spec_height() == orig.spec_height(),
            x <= sw + 1,
            forall|cx: int, cy: int|
                0 <= cx < orig.spec_width() && 0 <= cy < orig.spec_height()
                    ==> target.pix(cx, cy) == (if vlines_below(*source, ox, oy, f, x as int, cx, cy) {
                    black()
                } else {
                    orig.pix(cx, cy)
                }),
        decreases sw + 1 - x,
    {
        proof {
            lemma_mul_le(x as int, sw as int, f);
        }
        let col = offset_x + x * factor;
        fill_rect(target, col, col + 1, offset_y, offset_y + gh, black());
        proof {
            let k = x as int;
            assert forall|cx: int, cy: int|
                0 <= cx < orig.spec_width() && 0 <= cy < orig.spec_height()
                    implies target.pix(cx, cy) == (if vlines_below(*source, ox, oy, f, k + 1, cx, cy) {
                black()
            } else {
                orig.pix(cx, cy)
            }) by {
                lemma_succ_mul(k, f);
                lemma_decompose(k, 0, f);
                if cx == col && oy <= cy < oy + sh as int * f {
                    assert(vlines_below(*source, ox, oy, f, k + 1, cx, cy));
                } else {
                    if vlines_below(*source, ox, oy, f, k + 1, cx, cy)
                        && !vlines_below(*source, ox, oy, f, k, cx, cy) {
                        lemma_multiple_in_window(cx - ox, k, f);
                    }
                }
            }
        }
        x = x + 1;
    }

    // The vertical lines with index below sw + 1 are exactly the vertical
    // gridlines.
    proof {
        assert forall|cx: int, cy: int|
            0 <= cx < orig.spec_width() && 0 <= cy < orig.spec_height()
                implies target.pix(cx, cy) == (if on_vline(*source, ox, oy, f, cx, cy) {
            black()
        } else {
            orig.pix(cx, cy)
        }) by {
            lemma_succ_mul(sw as int, f);
            if vlines_below(*source, ox, oy, f, sw as int + 1, cx, cy)
                && !(cx - ox <= sw as int * f) {
                lemma_multiple_in_window(cx - ox, sw as int, f);
            }
        }
    }

    // Pass 2: the source.height() + 1 horizontal gridlines.
    let mut y: usize = 0;
    while y <= sh
        invariant
            target.wf(),
            target.spec_width() == orig.spec_width(),
            target.spec_height() == orig.spec_height(),
            y <= sh + 1,
            forall|cx: int, cy: int|
                0 <= cx < orig.spec_width() && 0 <= cy < orig.spec_height()
                    ==> target.pix(cx, cy) == (if on_vline(*source, ox, oy, f, cx, cy) {
                    black()
                } else if hlines_below(*source, ox, oy, f, y as int, cx, cy) {
                    black()
                } else {
                    orig.pix(cx, cy)
                }),
        decreases sh + 1 - y,
    {
        proof {
            lemma_mul_le(y as int, sh as int, f);
        }
        let row = offset_y + y * factor;
        fill_rect(target, offset_x, offset_x + gw, row, row + 1, black());
        proof {
            let k = y as int;
            assert forall|cx: int, cy: int|
                0 <= cx < orig.spec_width() && 0 <= cy < orig.spec_height()
                    implies target.pix(cx, cy) == (if on_vline(*source, ox, oy, f, cx, cy) {
                black()
            } else if hlines_below(*source, ox, oy, f, k + 1, cx, cy) {
                black()
            } else {
                orig.pix(cx, cy)
            }) by {
                lemma_succ_mul(k, f);
                lemma_decompose(k, 0, f);
                if ox <= cx < ox + sw as int * f && cy == row {
                    assert(hlines_below(*source, ox, oy, f, k + 1, cx, cy));
                } else {
                    if hlines_below(*source, ox, oy, f, k + 1, cx, cy)
                        && !hlines_below(*source, ox, oy, f, k, cx, cy) {
                        lemma_multiple_in_window(cy - oy, k, f);
                    }
                }
            }
        }
        y = y + 1;
    }

    // At this point the invariant of pass 1 has run out to index sw + 1 and
    // the one of pass 2 to sh + 1, which together are exactly the gridlines.
    proof {
        assert forall|cx: int, cy: int|
            0 <= cx < orig.spec_width() && 0 <= cy < orig.spec_height()
                implies target.pix(cx, cy) == render_step_pix(
                orig, *source, ox, oy, f, 0, 0, cx, cy,
            ) by {
            lemma_succ_mul(sh as int, f);
            if hlines_below(*source, ox, oy, f, sh as int + 1, cx, cy)
                && !(cy - oy <= sh as int * f) {
                lemma_multiple_in_window(cy - oy, sh as int, f);
            }
            if filled_below(*source, ox, oy, f, 0, 0, cx, cy) {
                lemma_div_below(cx - ox, source.spec_width(), f);
                lemma_div_below(cy - oy, source.spec_height(), f);
            }
        }
    }

    // Pass 3: fill the interior of each block with its source pixel.
    let mut x: usize = 0;
    while x < sw
        invariant
            target.wf(),
            target.spec_width() == orig.spec_width(),
            target.spec_height() == orig.spec_height(),
            x <= sw,
            forall|cx: int, cy: int|
                0 <= cx < orig.spec_width() && 0 <= cy < orig.spec_height()
                    ==> target.pix(cx, cy) == render_step_pix(
                    orig, *source, ox, oy, f, x as int, 0, cx, cy,
                ),
        decreases sw - x,
    {
        let mut y: usize = 0;
        while y < sh
            invariant
                target.wf(),
                target.spec_width() == orig.spec_width(),
                target.spec_height() == orig.spec_height(),
                x < sw,
                y <= sh,
                forall|cx: int, cy: int|
                    0 <= cx < orig.spec_width() && 0 <= cy < orig.spec_height()
                        ==> target.pix(cx, cy) == render_step_pix(
                        orig, *source, ox, oy, f, x as int, y as int, cx, cy,
                    ),
            decreases sh - y,
        {
            proof {
                lemma_mul_le(x as int + 1, sw as int, f);
                lemma_mul_le(y as int + 1, sh as int, f);
                lemma_succ_mul(x as int, f);
                lemma_succ_mul(y as int, f);
            }
            let c = source.get(x, y);
            fill_rect(
                target,
                offset_x + x * factor + 1,
                offset_x + (x + 1) * factor,
                offset_y + y * factor + 1,
                offset_y + (y + 1) * factor,
                c,
            );
            proof {
                let k = x as int;
                let l = y as int;
                assert forall|cx: int, cy: int|
                    0 <= cx < orig.spec_width() && 0 <= cy < orig.spec_height()
                        implies target.pix(cx, cy) == render_step_pix(
                        orig, *source, ox, oy, f, k, l + 1, cx, cy,
                    ) by {
                    lemma_succ_mul(k, f);
                    lemma_succ_mul(l, f);
                    let dx = cx - ox;
                    let dy = cy - oy;
                    if k * f + 1 <= dx && dx < (k + 1) * f && l * f + 1 <= dy && dy < (l + 1) * f {
                        // A pixel the fill just wrote: it lies strictly
                        // inside block (k, l).
                        lemma_decompose(k, dx - k * f, f);
                        lemma_decompose(l, dy - l * f, f);
                        lemma_mul_le(k + 1, sw as int, f);
                        lemma_mul_le(l + 1, sh as int, f);
                        assert(filled_below(*source, ox, oy, f, k, l + 1, cx, cy));
                    } else {
                        if filled_below(*source, ox, oy, f, k, l + 1, cx, cy)
                            && !filled_below(*source, ox, oy, f, k, l, cx, cy) {
                            lemma_recompose(dx, f);
                            lemma_recompose(dy, f);
                        }
                    }
                }
            }
            y = y + 1;
        }
        proof {
            // Column k is now completely filled: blocks before (k, sh) are
            // the blocks before (k + 1, 0).
            assert forall|cx: int, cy: int|
                0 <= cx < orig.spec_width() && 0 <= cy < orig.spec_height()
                    implies target.pix(cx, cy) == render_step_pix(
                    orig, *source, ox, oy, f, x as int + 1, 0, cx, cy,
                ) by {
                if in_blocks(*source, ox, oy, f, cx, cy) {
                    lemma_div_below(cy - oy, source.spec_height(), f);
                }
            }
        }
        x = x + 1;
    }

    // Every interior pixel of the magnified area now belongs to a filled
    // block, so the staged description collapses to grid_pix.
    proof {
        assert forall|cx: int, cy: int|
            0 <= cx < orig.spec_width() && 0 <= cy < orig.spec_height()
                implies target.pix(cx, cy) == grid_pix(
                orig.pix(cx, cy), *source, ox, oy, f, cx, cy,
            ) by {
            if in_blocks(*source, ox, oy, f, cx, cy) {
                lemma_div_below(cx - ox, source.spec_width(), f);
                lemma_div_below(cy - oy, source.spec_height(), f);
            }
        }
    }
}

} // verus!
