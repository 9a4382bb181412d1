use pixelgrid::bitmap::Bitmap;
use pixelgrid::color::black;
use pixelgrid::color::white;
use pixelgrid::mask::random_bits;
use pixelgrid::mask::split;
use pixelgrid::mask::split_random;

#[test]
fn split_two_by_two_all_black_with_fixed_bits() {
    // A 2 x 2 all-black source split with the bit sequence
    // [true, false, true, false], one bit per pixel, columns outermost.
    let source = Bitmap::filled(2, 2, black());
    let bits = vec![true, false, true, false];
    let (mask, unmask) = split(&source, &bits);

    // mask = [[BLACK, WHITE], [BLACK, WHITE]] read column by column.
    assert_eq!(mask.get(0, 0), black());
    assert_eq!(mask.get(0, 1), white());
    assert_eq!(mask.get(1, 0), black());
    assert_eq!(mask.get(1, 1), white());
    // unmask = [[WHITE, BLACK], [WHITE, BLACK]]: the source is black
    // everywhere, so each unmask pixel is black exactly where its bit
    // is false.
    assert_eq!(unmask.get(0, 0), white());
    assert_eq!(unmask.get(0, 1), black());
    assert_eq!(unmask.get(1, 0), white());
    assert_eq!(unmask.get(1, 1), black());
}

#[test]
fn split_reconstructs_mixed_source() {
    // A 3 x 2 black/white source and an arbitrary bit sequence: the
    // xor-as-black overlay of mask and unmask equals the source.
    let mut source = Bitmap::filled(3, 2, white());
    source.set(0, 0, black());
    source.set(1, 1, black());
    source.set(2, 0, black());
    let bits = vec![true, true, false, true, false, false];
    let (mask, unmask) = split(&source, &bits);
    for x in 0..3 {
        for y in 0..2 {
            let m = mask.get(x, y) == black();
            let u = unmask.get(x, y) == black();
            let s = source.get(x, y) == black();
            assert_eq!(m ^ u, s);
        }
    }
}

#[test]
fn split_random_reconstructs_for_every_trial() {
    let mut source = Bitmap::filled(4, 3, white());
    source.set(0, 0, black());
    source.set(2, 1, black());
    source.set(3, 2, black());
    for _ in 0..20 {
        let (mask, unmask) = split_random(&source);
        assert_eq!(mask.width(), 4);
        assert_eq!(mask.height(), 3);
        assert_eq!(unmask.width(), 4);
        assert_eq!(unmask.height(), 3);
        for x in 0..4 {
            for y in 0..3 {
                let m = mask.get(x, y);
                let u = unmask.get(x, y);
                assert!(m == black() || m == white());
                assert!(u == black() || u == white());
                let overlay = (m == black()) ^ (u == black());
                assert_eq!(overlay, source.get(x, y) == black());
            }
        }
    }
}

#[test]
fn random_bits_returns_requested_count() {
    assert_eq!(random_bits(0).len(), 0);
    assert_eq!(random_bits(17).len(), 17);
}
