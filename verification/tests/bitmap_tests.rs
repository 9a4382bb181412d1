use pixelgrid::bitmap::Bitmap;
use pixelgrid::color::black;
use pixelgrid::color::white;
use pixelgrid::color::Color;

#[test]
fn filled_sets_every_pixel() {
    let b = Bitmap::filled(3, 2, white());
    assert_eq!(b.width(), 3);
    assert_eq!(b.height(), 2);
    assert_eq!(b.pixel_count(), 6);
    for x in 0..3 {
        for y in 0..2 {
            assert_eq!(b.get(x, y), white());
        }
    }
}

#[test]
fn set_changes_only_one_pixel() {
    let mut b = Bitmap::filled(4, 4, white());
    let red = Color { r: 200, g: 10, b: 30 };
    b.set(2, 1, red);
    for x in 0..4 {
        for y in 0..4 {
            if x == 2 && y == 1 {
                assert_eq!(b.get(x, y), red);
            } else {
                assert_eq!(b.get(x, y), white());
            }
        }
    }
}

#[test]
fn black_and_white_are_distinct_sentinels() {
    assert_eq!(black(), Color { r: 0, g: 0, b: 0 });
    assert_eq!(white(), Color { r: 255, g: 255, b: 255 });
    assert_ne!(black(), white());
}
