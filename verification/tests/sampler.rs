use laundry_machine_mqtt::config::{Coord, Point};
use laundry_machine_mqtt::sampler::{SampleError, Srgba};
use laundry_machine_mqtt::units::{FULL_SCALE, UNIT};

fn point(x: i64, y: i64) -> Point {
    Point { pos: Coord { x, y }, size: 10_000 }
}

fn grey(level: u8) -> Srgba {
    Srgba { r: level, g: level, b: level, a: 255 }
}

#[test]
fn white_is_full_scale_and_black_is_nothing() {
    assert_eq!(grey(255).luminance(), FULL_SCALE);
    assert_eq!(grey(0).luminance(), 0);
}

#[test]
fn channels_are_weighted() {
    assert_eq!(Srgba { r: 255, g: 0, b: 0, a: 255 }.luminance(), 555_141_120);
    assert_eq!(Srgba { r: 0, g: 255, b: 0, a: 255 }.luminance(), 1_867_530_240);
    assert_eq!(Srgba { r: 0, g: 0, b: 255, a: 255 }.luminance(), 188_528_640);
    assert_eq!(Srgba { r: 1, g: 0, b: 0, a: 0 }.luminance(), 2_126 * 1_024);
    assert_eq!(Srgba { r: 0, g: 1, b: 0, a: 0 }.luminance(), 7_152 * 1_024);
    assert_eq!(Srgba { r: 0, g: 0, b: 1, a: 0 }.luminance(), 722 * 1_024);
    assert_eq!(Srgba { r: 10, g: 20, b: 30, a: 7 }.luminance(), 190_423_040);
}

#[test]
fn alpha_does_not_count() {
    let opaque = Srgba { r: 9, g: 99, b: 199, a: 255 };
    let clear = Srgba { r: 9, g: 99, b: 199, a: 0 };
    assert_eq!(opaque.luminance(), clear.luminance());
}

#[test]
fn nearest_pixel_is_read() {
    // Four columns, three rows: the pixel at column x, row y holds 10 y + x.
    let pixels: Vec<u32> = (0..3).flat_map(|y| (0..4).map(move |x| 10 * y + x)).collect();
    assert_eq!(point(0, 0).sample(&pixels, 4, 3), Ok(0));
    assert_eq!(point(250_000, 0).sample(&pixels, 4, 3), Ok(1));
    assert_eq!(point(500_000, 333_334).sample(&pixels, 4, 3), Ok(12));
    assert_eq!(point(750_000, 666_667).sample(&pixels, 4, 3), Ok(23));
    assert_eq!(point(700_000, 600_000).sample(&pixels, 4, 3), Ok(23));
}

#[test]
fn halves_round_away_from_zero() {
    let pixels: Vec<u32> = (0..3).flat_map(|y| (0..4).map(move |x| 10 * y + x)).collect();
    // 0.125 of four columns is half a pixel.
    assert_eq!(point(124_999, 0).sample(&pixels, 4, 3), Ok(0));
    assert_eq!(point(125_000, 0).sample(&pixels, 4, 3), Ok(1));
    // Half of three rows is row 1.5.
    assert_eq!(point(0, 500_000).sample(&pixels, 4, 3), Ok(20));
    assert_eq!(point(0, 499_999).sample(&pixels, 4, 3), Ok(10));
    // Just left of the image still rounds to column 0; half a pixel to the
    // left rounds to column -1.
    assert_eq!(point(-124_999, 0).sample(&pixels, 4, 3), Ok(0));
    assert_eq!(point(-125_000, 0).sample(&pixels, 4, 3), Err(SampleError::OutOfBounds));
}

#[test]
fn points_off_the_image_are_out_of_bounds() {
    let pixels: Vec<u32> = (0..3).flat_map(|y| (0..4).map(move |x| 10 * y + x)).collect();
    let off = Err(SampleError::OutOfBounds);
    // The right and bottom edge round to the column and row after the last.
    assert_eq!(point(UNIT, 0).sample(&pixels, 4, 3), off);
    assert_eq!(point(0, UNIT).sample(&pixels, 4, 3), off);
    assert_eq!(point(875_000, 0).sample(&pixels, 4, 3), off);
    assert_eq!(point(874_999, 0).sample(&pixels, 4, 3), Ok(3));
    assert_eq!(point(0, 833_333).sample(&pixels, 4, 3), Ok(20));
    assert_eq!(point(0, 833_334).sample(&pixels, 4, 3), off);
    assert_eq!(point(-UNIT, 0).sample(&pixels, 4, 3), off);
    assert_eq!(point(0, -UNIT).sample(&pixels, 4, 3), off);
    assert_eq!(point(i64::MAX, i64::MAX).sample(&pixels, 4, 3), off);
    assert_eq!(point(i64::MIN, i64::MIN).sample(&pixels, 4, 3), off);
    assert_eq!(point(i64::MAX, 0).sample(&pixels, usize::MAX, usize::MAX), off);
    assert_eq!(point(0, i64::MIN).sample(&pixels, usize::MAX, usize::MAX), off);
}

#[test]
fn buffer_shorter_than_the_image_is_out_of_bounds() {
    let pixels: Vec<u32> = (0..10).collect();
    assert_eq!(point(250_000, 666_667).sample(&pixels, 4, 3), Ok(9));
    assert_eq!(point(500_000, 666_667).sample(&pixels, 4, 3), Err(SampleError::OutOfBounds));
    assert_eq!(
        point(0, 999_999).sample(&pixels, usize::MAX, usize::MAX),
        Err(SampleError::OutOfBounds)
    );
    let none: Vec<u32> = vec![];
    assert_eq!(point(0, 0).sample(&none, 0, 0), Err(SampleError::OutOfBounds));
    assert_eq!(point(0, 0).sample(&none, 4, 3), Err(SampleError::OutOfBounds));
    assert_eq!(point(0, 0).sample(&pixels, 0, 3), Err(SampleError::OutOfBounds));
}

#[test]
fn size_does_not_change_what_is_read() {
    let pixels: Vec<u32> = (0..12).collect();
    for size in [i64::MIN, -1, 0, 1, UNIT, i64::MAX] {
        let p = Point { pos: Coord { x: 500_000, y: 333_334 }, size };
        assert_eq!(p.sample(&pixels, 4, 3), Ok(6));
    }
}
