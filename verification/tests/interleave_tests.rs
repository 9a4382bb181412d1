use pixelgrid::bitmap::Bitmap;
use pixelgrid::color::black;
use pixelgrid::color::Color;
use pixelgrid::interleave::interleave;
use pixelgrid::interleave::InterleaveError;

/// A bitmap whose column x has a color encoding x, so samples identify
/// the source column they came from.
fn column_coded(width: usize, height: usize, channel_red: bool) -> Bitmap {
    let mut b = Bitmap::filled(width, height, Color { r: 1, g: 1, b: 1 });
    for x in 0..width {
        let v = 100 + x as u8;
        let c = if channel_red {
            Color { r: v, g: 1, b: 1 }
        } else {
            Color { r: 1, g: v, b: 1 }
        };
        for y in 0..height {
            b.set(x, y, c);
        }
    }
    b
}

#[test]
fn mismatched_width_fails_before_any_copy() {
    let a = column_coded(10, 30, true);
    let b = column_coded(11, 30, false);
    let r = interleave(&a, &b, 3);
    assert!(matches!(r, Err(InterleaveError::DimensionMismatch)));
}

#[test]
fn mismatched_height_fails_before_any_copy() {
    let a = column_coded(10, 30, true);
    let b = column_coded(10, 31, false);
    let r = interleave(&a, &b, 3);
    assert!(matches!(r, Err(InterleaveError::DimensionMismatch)));
}

#[test]
fn zero_segments_is_rejected() {
    let a = column_coded(10, 30, true);
    let b = column_coded(10, 30, false);
    let r = interleave(&a, &b, 0);
    assert!(matches!(r, Err(InterleaveError::ZeroSegments)));
}

#[test]
fn segment_remainder_goes_to_the_last_segment() {
    // Width 10 cut into 3 segments: logical widths 3, 3 and 4, the last
    // absorbing the remainder. Sampled at each segment's first and last
    // column, on a row away from the tick marks.
    let a = column_coded(10, 30, true);
    let b = column_coded(10, 30, false);
    let c = interleave(&a, &b, 3).unwrap();
    assert_eq!(c.width(), 20);
    assert_eq!(c.height(), 30);
    let row = 15;

    // Segment 0: source columns 0..3, canvas 0..3 from a, 3..6 from b.
    assert_eq!(c.get(1, row), a.get(1, row));
    assert_eq!(c.get(2, row), a.get(2, row));
    assert_eq!(c.get(4, row), b.get(1, row));
    assert_eq!(c.get(5, row), b.get(2, row));
    // Segment 1: source columns 3..6, canvas 6..9 from a, 9..12 from b.
    assert_eq!(c.get(7, row), a.get(4, row));
    assert_eq!(c.get(8, row), a.get(5, row));
    assert_eq!(c.get(10, row), b.get(4, row));
    assert_eq!(c.get(11, row), b.get(5, row));
    // Segment 2 takes the remainder: source columns 6..10, canvas
    // 12..16 from a and 16..20 from b.
    assert_eq!(c.get(13, row), a.get(7, row));
    assert_eq!(c.get(14, row), a.get(8, row));
    assert_eq!(c.get(15, row), a.get(9, row));
    assert_eq!(c.get(17, row), b.get(7, row));
    assert_eq!(c.get(18, row), b.get(8, row));
    assert_eq!(c.get(19, row), b.get(9, row));
    // The boundary columns carry the source pixel outside the ticks.
    assert_eq!(c.get(0, row), a.get(0, row));
    assert_eq!(c.get(3, row), b.get(0, row));
    assert_eq!(c.get(6, row), a.get(3, row));
    assert_eq!(c.get(9, row), b.get(3, row));
    assert_eq!(c.get(12, row), a.get(6, row));
    assert_eq!(c.get(16, row), b.get(6, row));
}

#[test]
fn tick_marks_on_segment_boundaries() {
    let a = column_coded(10, 30, true);
    let b = column_coded(10, 30, false);
    let c = interleave(&a, &b, 3).unwrap();
    // Ticks cover the top 11 and bottom 11 rows of every boundary
    // column: each segment's left edge and the seam in its middle.
    for &x in &[0usize, 3, 6, 9, 12, 16] {
        for y in 0..11 {
            assert_eq!(c.get(x, y), black());
        }
        for y in 19..30 {
            assert_eq!(c.get(x, y), black());
        }
        // In between the source pixel shows through.
        assert_ne!(c.get(x, 15), black());
    }
    // A non-boundary column has no tick.
    assert_ne!(c.get(1, 0), black());
    assert_ne!(c.get(1, 29), black());
}
