use vstd::prelude::*;
use crate::arith::lemma_index_bound;
use crate::arith::lemma_mul_comm;
use crate::bitmap::Bitmap;
use crate::color::black;
use crate::color::white;
use crate::color::Color;

verus! {

/// The color a mask bit turns into: black for a set bit, white for a
/// cleared one.
pub open spec fn mask_color(bit: bool) -> Color {
    if bit {
        black()
    } else {
        white()
    }
}

/// Relies on rand::random::<bool>: one uniformly random boolean drawn
/// from the thread-local generator. Nothing can be promised of the value.
#[verifier::external_body]
fn random_bit() -> bool {
    rand::random::<bool>()
}

/// A vector of n independently drawn random bits.
pub fn random_bits(n: usize) -> (bits: Vec<bool>)
    ensures
        bits@.len() == n,
{
    let mut bits: Vec<bool> = Vec::new();
    while bits.len() < n
        invariant
            bits@.len() <= n,
        decreases n - bits@.len(),
    {
        bits.push(random_bit());
    }
    bits
}

/// Split `source` into a mask and its complementary unmask.
///
/// The bits are consumed one per pixel, columns outermost: pixel (x, y)
/// uses bit x * height + y. The mask shows bit r as black/white; the
/// unmask shows (source pixel is black) xor r. Overlaying both with
/// pixelwise xor-as-black therefore reconstructs exactly where `source`
/// is black, whatever the bits were.
#[verifier::loop_isolation(false)]
pub fn split(source: &Bitmap, bits: &Vec<bool>) -> (r: (Bitmap, Bitmap))
    requires
        source.wf(),
        bits@.len() == source.spec_width() * source.spec_height(),
    ensures
        r.0.wf(),
        r.1.wf(),
        r.0.spec_width() == source.spec_width(),
        r.0.spec_height() == source.spec_height(),
        r.1.spec_width() == source.spec_width(),
        r.1.spec_height() == source.spec_height(),
        forall|x: int, y: int|
            0 <= x < source.spec_width() && 0 <= y < source.spec_height()
                ==> r.0.pix(x, y) == mask_color(bits@[x * source.spec_height() + y]),
        forall|x: int, y: int|
            0 <= x < source.spec_width() && 0 <= y < source.spec_height()
                ==> r.1.pix(x, y) == mask_color(
                ((source.pix(x, y) == black()) != bits@[x * source.spec_height() + y]),
            ),
        forall|x: int, y: int|
            0 <= x < source.spec_width() && 0 <= y < source.spec_height()
                ==> ((r.0.pix(x, y) == black()) != (r.1.pix(x, y) == black())) == (source.pix(x, y)
                == black()),
{
    let w = source.width();
    let h = source.height();
    // One bit per pixel: the bit store's machine-sized length bounds the
    // pixel count, so the mask bitmaps fit.
    let n = bits.len();
    proof {
        assert(w * h <= usize::MAX);
    }
    let mut mask = Bitmap::filled(w, h, white());
    let mut unmask = Bitmap::filled(w, h, white());
    let mut x: usize = 0;
    while x < w
        invariant
            mask.wf(),
            unmask.wf(),
            mask.spec_width() == w,
            mask.spec_height() == h,
            unmask.spec_width() == w,
            unmask.spec_height() == h,
            x <= w,
            forall|i: int, j: int|
                0 <= i < x && 0 <= j < h ==> mask.pix(i, j) == mask_color(bits@[i * h + j]),
            forall|i: int, j: int|
                0 <= i < x && 0 <= j < h ==> unmask.pix(i, j) == mask_color(
                    ((source.pix(i, j) == black()) != bits@[i * h + j]),
                ),
        decreases w - x,
    {
        let mut y: usize = 0;
        while y < h
            invariant
                mask.wf(),
                unmask.wf(),
                mask.spec_width() == w,
                mask.spec_height() == h,
                unmask.spec_width() == w,
                unmask.spec_height() == h,
                x < w,
                y <= h,
                forall|i: int, j: int|
                    0 <= i < x && 0 <= j < h ==> mask.pix(i, j) == mask_color(bits@[i * h + j]),
                forall|i: int, j: int|
                    0 <= i < x && 0 <= j < h ==> unmask.pix(i, j) == mask_color(
                        ((source.pix(i, j) == black()) != bits@[i * h + j]),
                    ),
                forall|j: int|
                    0 <= j < y ==> mask.pix(x as int, j) == mask_color(bits@[x as int * h + j]),
                forall|j: int|
                    0 <= j < y ==> unmask.pix(x as int, j) == mask_color(
                        ((source.pix(x as int, j) == black()) != bits@[x as int * h + j]),
                    ),
            decreases h - y,
        {
            proof {
                lemma_index_bound(y as int, x as int, h as int, w as int);
                lemma_mul_comm(h as int, w as int);
            }
            let bit = bits[x * h + y];
            mask.set(x, y, if bit { black() } else { white() });
            let complement = (source.get(x, y) == black()) != bit;
            unmask.set(x, y, if complement { black() } else { white() });
            y = y + 1;
        }
        x = x + 1;
    }
    (mask, unmask)
}

/// Split `source` with freshly drawn random bits.
///
/// Whatever bits the generator returns, both outputs are black/white
/// bitmaps of the source's size and xor-as-black overlaying them
/// reconstructs where `source` is black.
pub fn split_random(source: &Bitmap) -> (r: (Bitmap, Bitmap))
    requires
        source.wf(),
    ensures
        r.0.wf(),
        r.1.wf(),
        r.0.spec_width() == source.spec_width(),
        r.0.spec_height() == source.spec_height(),
        r.1.spec_width() == source.spec_width(),
        r.1.spec_height() == source.spec_height(),
        forall|x: int, y: int|
            0 <= x < source.spec_width() && 0 <= y < source.spec_height()
                ==> r.0.pix(x, y) == black() || r.0.pix(x, y) == white(),
        forall|x: int, y: int|
            0 <= x < source.spec_width() && 0 <= y < source.spec_height()
                ==> r.1.pix(x, y) == black() || r.1.pix(x, y) == white(),
        forall|x: int, y: int|
            0 <= x < source.spec_width() && 0 <= y < source.spec_height()
                ==> ((r.0.pix(x, y) == black()) != (r.1.pix(x, y) == black())) == (source.pix(x, y)
                == black()),
{
    let bits = random_bits(source.pixel_count());
    let r = split(source, &bits);
    proof {
        assert forall|x: int, y: int|
            0 <= x < source.spec_width() && 0 <= y < source.spec_height()
                implies r.1.pix(x, y) == black() || r.1.pix(x, y) == white() by {
            assert(r.1.pix(x, y) == mask_color(
                ((source.pix(x, y) == black()) != bits@[x * source.spec_height() + y]),
            ));
        }
    }
    r
}

} // verus!
