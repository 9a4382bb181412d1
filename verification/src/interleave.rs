use vstd::prelude::*;
use crate::arith::lemma_le_mul;
use crate::arith::lemma_mul_le;
use crate::arith::lemma_succ_mul;
use crate::bitmap::Bitmap;
use crate::color::black;
use crate::color::Color;
use crate::grid::fill_rect;

verus! {

/// Why two bitmaps could not be interleaved.
#[derive(Clone, Copy, Debug, PartialEq, Eq, Structural)]
pub enum InterleaveError {
    /// The two inputs differ in width or height.
    DimensionMismatch,
    /// Zero segments were requested, leaving no segment width.
    ZeroSegments,
}

/// The source x-offset of segment i: segments are laid out greedily from
/// the left, each floor(w / n) columns wide.
pub open spec fn spec_segment_start(w: int, n: int, i: int) -> int {
    i * (w / n)
}

/// The width of segment i: floor(w / n) for all but the last segment,
/// which absorbs the remainder.
pub open spec fn spec_segment_width(w: int, n: int, i: int) -> int {
    if i < n - 1 {
        w / n
    } else {
        w - (n - 1) * (w / n)
    }
}

/// The canvas row cy belongs to a tick mark: the top 11 and bottom 11
/// rows of a height-h canvas.
pub open spec fn tick_row(h: int, cy: int) -> bool {
    cy <= 10 || cy >= h - 11
}

/// The color of the interleaved canvas at column 2 * segment_start + d of
/// segment i (0 <= d < 2 * segment_width), row cy: a black tick at the
/// segment's left edge and at the seam between its two halves, the first
/// image's columns in the left half, the second image's in the right.
pub open spec fn interleave_pix(
    img1: Bitmap,
    img2: Bitmap,
    n: int,
    i: int,
    d: int,
    cy: int,
) -> Color {
    let w = img1.spec_width();
    let sx = spec_segment_start(w, n, i);
    let sw = spec_segment_width(w, n, i);
    if (d == 0 || d == sw) && tick_row(img1.spec_height(), cy) {
        black()
    } else if d < sw {
        img1.pix(sx + d, cy)
    } else {
        img2.pix(sx + (d - sw), cy)
    }
}

/// Copy `cols` full-height columns of `src` starting at column `src_x`
/// into `target` starting at column `dst_x`; all other pixels keep their
/// value.
#[verifier::loop_isolation(false)]
pub fn copy_block(target: &mut Bitmap, src: &Bitmap, src_x: usize, cols: usize, dst_x: usize)
    requires
        old(target).wf(),
        src.wf(),
        src_x + cols <= src.spec_width(),
        dst_x + cols <= old(target).spec_width(),
        old(target).spec_height() == src.spec_height(),
    ensures
        final(target).wf(),
        final(target).spec_width() == old(target).spec_width(),
        final(target).spec_height() == old(target).spec_height(),
        forall|cx: int, cy: int|
            0 <= cx < old(target).spec_width() && 0 <= cy < old(target).spec_height()
                ==> final(target).pix(cx, cy) == (if dst_x <= cx && cx < dst_x + cols {
                src.pix(src_x + (cx - dst_x), cy)
            } else {
                old(target).pix(cx, cy)
            }),
{
    let ghost orig = *target;
    proof {
        src.lemma_dims();
        orig.lemma_dims();
    }
    let h = src.height();
    let mut d: usize = 0;
    while d < cols
        invariant
            target.wf(),
            target.spec_width() == orig.spec_width(),
            target.spec_height() == orig.spec_height(),
            d <= cols,
            forall|cx: int, cy: int|
                0 <= cx < orig.spec_width() && 0 <= cy < orig.spec_height()
                    ==> target.pix(cx, cy) == (if dst_x <= cx && cx < dst_x + d {
                    src.pix(src_x + (cx - dst_x), cy)
                } else {
                    orig.pix(cx, cy)
                }),
        decreases cols - d,
    {
        let mut cy: usize = 0;
        while cy < h
            invariant
                target.wf(),
                target.spec_width() == orig.spec_width(),
                target.spec_height() == orig.spec_height(),
                d < cols,
                cy <= h,
                forall|px: int, py: int|
                    0 <= px < orig.spec_width() && 0 <= py < orig.spec_height()
                        ==> target.pix(px, py) == (if dst_x <= px && px < dst_x + d {
                        src.pix(src_x + (px - dst_x), py)
                    } else if px == dst_x + d && py < cy {
                        src.pix(src_x + d, py)
                    } else {
                        orig.pix(px, py)
                    }),
            decreases h - cy,
        {
            let v = src.get(src_x + d, cy);
            target.set(dst_x + d, cy, v);
            cy = cy + 1;
        }
        d = d + 1;
    }
}

/// Interleave two equal-sized bitmaps into a double-width canvas of
/// alternating vertical strips with tick marks on every strip boundary.
///
/// The canvas is 2 * width x height. The source is cut into
/// `num_segments` strips: all but the last are floor(width / num_segments)
/// columns wide and the last absorbs the remainder. The strip of `image1`
/// at source offset sx lands at canvas column 2 * sx, the matching strip
/// of `image2` right of it, and black tick marks (the top 11 and bottom
/// 11 rows) are drawn on each boundary column. Inputs of unequal size or
/// a zero segment count are rejected before any pixel is written.
#[verifier::loop_isolation(false)]
pub fn interleave(image1: &Bitmap, image2: &Bitmap, num_segments: u32) -> (r: Result<
    Bitmap,
    InterleaveError,
>)
    requires
        image1.wf(),
        image2.wf(),
        1 <= image1.spec_width(),
        11 <= image1.spec_height(),
        2 * image1.spec_width() * image1.spec_height() <= usize::MAX,
    ensures
        r is Ok <==> (image1.spec_width() == image2.spec_width() && image1.spec_height()
            == image2.spec_height() && num_segments >= 1),
        (image1.spec_width() != image2.spec_width() || image1.spec_height()
            != image2.spec_height()) ==> r == Err::<Bitmap, InterleaveError>(
            InterleaveError::DimensionMismatch,
        ),
        (image1.spec_width() == image2.spec_width() && image1.spec_height()
            == image2.spec_height() && num_segments == 0) ==> r == Err::<Bitmap, InterleaveError>(
            InterleaveError::ZeroSegments,
        ),
        r matches Ok(c) ==> {
            &&& c.wf()
            &&& c.spec_width() == 2 * image1.spec_width()
            &&& c.spec_height() == image1.spec_height()
            &&& forall|i: int, d: int, cy: int|
                0 <= i < num_segments && 0 <= d < 2 * spec_segment_width(
                    image1.spec_width(),
                    num_segments as int,
                    i,
                ) && 0 <= cy < image1.spec_height() ==> c.pix(
                    2 * spec_segment_start(image1.spec_width(), num_segments as int, i) + d,
                    cy,
                ) == interleave_pix(*image1, *image2, num_segments as int, i, d, cy)
        },
{
    if image1.width() != image2.width() || image1.height() != image2.height() {
        return Err(InterleaveError::DimensionMismatch);
    }
    if num_segments == 0 {
        return Err(InterleaveError::ZeroSegments);
    }
    let w = image1.width();
    let h = image1.height();
    let n = num_segments as usize;
    let s = w / n;
    proof {
        lemma_le_mul(2 * w as int, h as int);
    }
    let mut canvas = Bitmap::filled(2 * w, h, black());
    let ghost wi_ = w as int;
    let ghost ni_ = n as int;
    let ghost si_ = s as int;
    let mut i: usize = 0;
    while i < n
        invariant
            canvas.wf(),
            canvas.spec_width() == 2 * wi_,
            canvas.spec_height() == h,
            i <= n,
            forall|j: int, d: int, cy: int|
                0 <= j < i && 0 <= d < 2 * spec_segment_width(wi_, ni_, j) && 0 <= cy < h
                    ==> canvas.pix(2 * spec_segment_start(wi_, ni_, j) + d, cy) == interleave_pix(
                    *image1,
                    *image2,
                    ni_,
                    j,
                    d,
                    cy,
                ),
        decreases n - i,
    {
        proof {
            crate::arith::lemma_segment_bounds(wi_, ni_, i as int);
            lemma_mul_le(i as int, ni_ - 1, si_);
            if i as int + 1 <= ni_ - 1 {
                lemma_mul_le(i as int + 1, ni_ - 1, si_);
            }
            lemma_succ_mul(i as int, si_);
        }
        let sx = i * s;
        let wi = if i + 1 < n {
            s
        } else {
            w - (n - 1) * s
        };
        let ghost before = canvas;
        copy_block(&mut canvas, image1, sx, wi, 2 * sx);
        fill_rect(&mut canvas, 2 * sx, 2 * sx + 1, 0, 11, black());
        fill_rect(&mut canvas, 2 * sx, 2 * sx + 1, h - 11, h, black());
        copy_block(&mut canvas, image2, sx, wi, 2 * sx + wi);
        fill_rect(&mut canvas, 2 * sx + wi, 2 * sx + wi + 1, 0, 11, black());
        fill_rect(&mut canvas, 2 * sx + wi, 2 * sx + wi + 1, h - 11, h, black());
        proof {
            let ii = i as int;
            assert forall|j: int, d: int, cy: int|
                0 <= j < ii + 1 && 0 <= d < 2 * spec_segment_width(wi_, ni_, j) && 0 <= cy < h
                    implies canvas.pix(2 * spec_segment_start(wi_, ni_, j) + d, cy)
                    == interleave_pix(*image1, *image2, ni_, j, d, cy) by {
                lemma_succ_mul(j, si_);
                if j < ii {
                    // An already finished segment: all of this iteration's
                    // writes lie at or beyond column 2 * sx.
                    lemma_mul_le(j + 1, ii, si_);
                } else {
                    // The segment just written.
                    assert(spec_segment_start(wi_, ni_, j) == sx as int);
                }
            }
        }
        i = i + 1;
    }
    Ok(canvas)
}

} // verus!
