use pixelgrid::bitmap::Bitmap;
use pixelgrid::color::black;
use pixelgrid::color::white;
use pixelgrid::color::Color;
use pixelgrid::grid::fill_rect;
use pixelgrid::grid::render;

fn sample_source() -> Bitmap {
    // A 2 x 2 source with four distinct colors.
    let mut src = Bitmap::filled(2, 2, white());
    src.set(0, 0, Color { r: 10, g: 0, b: 0 });
    src.set(1, 0, Color { r: 0, g: 20, b: 0 });
    src.set(0, 1, Color { r: 0, g: 0, b: 30 });
    src.set(1, 1, Color { r: 40, g: 40, b: 40 });
    src
}

#[test]
fn fill_rect_fills_exactly_the_rectangle() {
    let mut b = Bitmap::filled(4, 4, white());
    fill_rect(&mut b, 1, 3, 1, 3, black());
    for x in 0..4 {
        for y in 0..4 {
            let expected = if (1..3).contains(&x) && (1..3).contains(&y) {
                black()
            } else {
                white()
            };
            assert_eq!(b.get(x, y), expected);
        }
    }
}

#[test]
fn render_draws_gridlines_and_block_interiors() {
    let src = sample_source();
    let mut target = Bitmap::filled(20, 20, white());
    // Factor 3 at offset (1, 1): the magnified area is 6 x 6, the
    // outermost gridlines sit at offsets 0, 3 and 6 from the corner.
    render(&mut target, &src, 1, 1, 3);

    // Vertical gridlines: x = 1 + 3k spanning the magnified height.
    for k in 0..3 {
        for dy in 0..6 {
            assert_eq!(target.get(1 + 3 * k, 1 + dy), black());
        }
    }
    // Horizontal gridlines: y = 1 + 3k spanning the magnified width.
    for k in 0..3 {
        for dx in 0..6 {
            assert_eq!(target.get(1 + dx, 1 + 3 * k), black());
        }
    }
    // Interiors: block (kx, ky) shows source pixel (kx, ky) in its
    // 2 x 2 interior.
    for kx in 0..2 {
        for ky in 0..2 {
            let expected = src.get(kx, ky);
            for jx in 1..3 {
                for jy in 1..3 {
                    assert_eq!(target.get(1 + 3 * kx + jx, 1 + 3 * ky + jy), expected);
                }
            }
        }
    }
    // The bottom-right corner of the gridline frame is not drawn, and
    // pixels outside the region keep their background color.
    assert_eq!(target.get(7, 7), white());
    assert_eq!(target.get(0, 0), white());
    assert_eq!(target.get(8, 3), white());
    assert_eq!(target.get(3, 8), white());
}

#[test]
fn render_factor_one_draws_only_gridlines() {
    let src = sample_source();
    let mut target = Bitmap::filled(10, 10, white());
    render(&mut target, &src, 2, 2, 1);
    // Every covered pixel except the untouched bottom-right corner is a
    // gridline pixel, so it is black; no interior color appears at all.
    for dx in 0..3 {
        for dy in 0..3 {
            if dx == 2 && dy == 2 {
                assert_eq!(target.get(2 + dx, 2 + dy), white());
            } else {
                assert_eq!(target.get(2 + dx, 2 + dy), black());
            }
        }
    }
    // Outside the region nothing changed.
    assert_eq!(target.get(0, 0), white());
    assert_eq!(target.get(6, 6), white());
}
