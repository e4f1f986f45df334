//! Sampling the luminance of an image at a point.

use crate::config::Point;
use crate::units::{FULL_SCALE, UNIT};
use vstd::prelude::*;

verus! {

/// Why a point could not be sampled.
#[derive(Clone, Copy, Debug, PartialEq, Eq, Structural)]
pub enum SampleError {
    /// The pixel nearest to the point does not lie in the image.
    OutOfBounds,
}

/// A pixel: gamma-encoded red, green and blue, and alpha, eight bits each.
#[derive(Clone, Copy, Debug, PartialEq, Eq, Structural)]
pub struct Srgba {
    pub r: u8,
    pub g: u8,
    pub b: u8,
    pub a: u8,
}

impl Srgba {
    /// The luminance of the pixel: 0.2126 of red, 0.7152 of green and 0.0722
    /// of blue, taken of the encoded channels as they are. A channel of 255
    /// counts as 1.0, and so does the result [`FULL_SCALE`].
    pub open spec fn relative_luminance(self) -> int {
        (2126 * self.r + 7152 * self.g + 722 * self.b) * 1024
    }

    /// Computes the luminance of the pixel.
    pub fn luminance(&self) -> (level: i64)
        ensures
            level == self.relative_luminance(),
            0 <= level <= FULL_SCALE,
    {
        (2126 * (self.r as i64) + 7152 * (self.g as i64) + 722 * (self.b as i64)) * 1024
    }
}

/// The index of the pixel nearest to a coordinate, along an axis of
/// `dimension` pixels: the coordinate times the dimension, rounded to the
/// nearest whole number, a half away from zero.
pub open spec fn nearest_pixel(coordinate: int, dimension: int) -> int {
    let scaled = coordinate * dimension;
    if scaled >= 0 {
        (scaled + UNIT / 2) / (UNIT as int)
    } else {
        -((UNIT / 2 - scaled) / (UNIT as int))
    }
}

/// The pixel index along one axis, where it lies on the axis.
fn pixel_on_axis(coordinate: i64, dimension: usize) -> (pixel: Option<usize>)
    ensures
        match pixel {
            Some(p) => p == nearest_pixel(coordinate as int, dimension as int) && p < dimension,
            None => !(0 <= nearest_pixel(coordinate as int, dimension as int) < dimension),
        },
{
    assert(-0x8000_0000_0000_0000 * 0xffff_ffff_ffff_ffff <= coordinate * dimension
        <= 0x8000_0000_0000_0000 * 0xffff_ffff_ffff_ffff) by (nonlinear_arith)
        requires
            -0x8000_0000_0000_0000 <= coordinate <= 0x8000_0000_0000_0000,
            0 <= dimension <= 0xffff_ffff_ffff_ffff,
    ;
    let scaled: i128 = coordinate as i128 * dimension as i128;
    let size: i128 = if scaled >= 0 {
        scaled
    } else {
        -scaled
    };
    let rounded: i128 = (size + (UNIT / 2) as i128) / (UNIT as i128);
    if scaled < 0 && rounded != 0 {
        return None;
    }
    if rounded < dimension as i128 {
        Some(rounded as usize)
    } else {
        None
    }
}

impl Point {
    /// The pixel nearest to the point in an image of the given size: its
    /// column and its row.
    pub open spec fn pixel(self, width: int, height: int) -> (int, int) {
        (nearest_pixel(self.pos.x as int, width), nearest_pixel(self.pos.y as int, height))
    }

    /// Where the pixel nearest to the point stands in a buffer that holds
    /// the image row by row.
    pub open spec fn pixel_index(self, width: int, height: int) -> int {
        self.pixel(width, height).1 * width + self.pixel(width, height).0
    }

    /// The pixel nearest to the point lies in the image, and the buffer
    /// holds it.
    pub open spec fn in_bounds(self, len: int, width: int, height: int) -> bool {
        &&& 0 <= self.pixel(width, height).0 < width
        &&& 0 <= self.pixel(width, height).1 < height
        &&& self.pixel_index(width, height) < len
    }

    /// Reads the pixel nearest to the point from a buffer that holds an
    /// image of `width` by `height` pixels row by row. No other pixel is
    /// looked at, whatever the point's size.
    pub fn sample<T: Copy>(
        &self,
        pixels: &[T],
        width: usize,
        height: usize,
    ) -> (pixel: Result<T, SampleError>)
        ensures
            match pixel {
                Ok(p) => self.in_bounds(pixels@.len() as int, width as int, height as int) && p
                    == pixels@[self.pixel_index(width as int, height as int)],
                Err(e) => !self.in_bounds(pixels@.len() as int, width as int, height as int) && e
                    == SampleError::OutOfBounds,
            },
    {
        let x: usize = match pixel_on_axis(self.pos.x, width) {
            Some(x) => x,
            None => {
                return Err(SampleError::OutOfBounds);
            },
        };
        let y: usize = match pixel_on_axis(self.pos.y, height) {
            Some(y) => y,
            None => {
                return Err(SampleError::OutOfBounds);
            },
        };
        assert(0 <= y * width <= 0xffff_ffff_ffff_fffe * 0xffff_ffff_ffff_ffff)
            by (nonlinear_arith)
            requires
                0 <= width <= 0xffff_ffff_ffff_ffff,
                0 <= y <= 0xffff_ffff_ffff_fffe,
        ;
        let index: u128 = y as u128 * width as u128 + x as u128;
        if index < pixels.len() as u128 {
            Ok(pixels[index as usize])
        } else {
            Err(SampleError::OutOfBounds)
        }
    }
}

} // verus!
