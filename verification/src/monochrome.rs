//! The 1-bit monochrome encoding: eight pixels to a byte, the leftmost pixel
//! in the most significant bit.

use crate::pixel::{
    all_accepted, first_rejected, is_first_rejected, lemma_first_rejected_exists,
    lemma_first_rejected_is, pack_rgba, packed_rgba, PixelFault, Rejection,
};
use crate::raster::{Grid, Raster};
use vstd::prelude::*;

verus! {

/// Opaque black.
pub open spec fn is_black(pixel: [u8; 4]) -> bool {
    pixel[0] == 0x00 && pixel[1] == 0x00 && pixel[2] == 0x00 && pixel[3] == 0xff
}

/// Opaque white.
pub open spec fn is_white(pixel: [u8; 4]) -> bool {
    pixel[0] == 0xff && pixel[1] == 0xff && pixel[2] == 0xff && pixel[3] == 0xff
}

/// The bit that a pixel stands for, if it is one of the two colours: black
/// is a cleared bit, white a set one.
pub open spec fn monochrome_bit(pixel: [u8; 4]) -> Option<bool> {
    if is_black(pixel) {
        Some(false)
    } else if is_white(pixel) {
        Some(true)
    } else {
        None
    }
}

/// The test that every pixel of a monochrome image has to pass.
pub open spec fn is_two_colour() -> spec_fn([u8; 4]) -> bool {
    |pixel: [u8; 4]| monochrome_bit(pixel) is Some
}

/// What the pixel at place `offset` of a run of eight adds to the run's
/// byte: a white pixel sets the bit `offset` places below the top one.
pub open spec fn pixel_bit(pixel: [u8; 4], offset: u8) -> u8 {
    if is_white(pixel) {
        0b1000_0000u8 >> offset
    } else {
        0u8
    }
}

/// Byte `index` of the encoding: the eight pixels from position `8 * index`
/// on, the first of them in the most significant bit.
pub open spec fn packed_byte(pixels: Seq<[u8; 4]>, index: int) -> u8 {
    pixel_bit(pixels[8 * index], 0) | pixel_bit(pixels[8 * index + 1], 1) | pixel_bit(
        pixels[8 * index + 2],
        2,
    ) | pixel_bit(pixels[8 * index + 3], 3) | pixel_bit(pixels[8 * index + 4], 4) | pixel_bit(
        pixels[8 * index + 5],
        5,
    ) | pixel_bit(pixels[8 * index + 6], 6) | pixel_bit(pixels[8 * index + 7], 7)
}

/// Why a raster has no monochrome encoding.
#[derive(Clone, Copy, Debug, PartialEq, Eq, Structural)]
pub enum MonochromeError {
    /// The rows do not split into runs of eight pixels. Nothing was looked
    /// at yet: the image can be left out and the next one taken.
    WidthNotDivisibleByEight { width: u32 },
    /// A pixel is neither opaque black nor opaque white.
    Rejected(PixelFault),
}

/// The monochrome encoding of a raster: `(width / 8) * height` bytes in
/// raster order, or the reason why there is none. The width is tested before
/// any pixel, and of the pixels the first offending one in raster order is
/// reported.
pub open spec fn monochrome_encoding(grid: Grid) -> Result<Seq<u8>, MonochromeError> {
    if grid.width % 8 != 0 {
        Err(MonochromeError::WidthNotDivisibleByEight { width: grid.width as u32 })
    } else if all_accepted(grid.pixels, is_two_colour()) {
        Ok(Seq::new((grid.width / 8) * grid.height, |index: int| packed_byte(grid.pixels, index)))
    } else {
        Err(
            MonochromeError::Rejected(
                PixelFault {
                    reason: Rejection::InvalidMonochromePixel,
                    color: packed_rgba(grid.pixels[first_rejected(grid.pixels, is_two_colour())]),
                },
            ),
        )
    }
}

/// Byte `index` when only the first `count` pixels of its run have been
/// handled.
spec fn partial_byte(pixels: Seq<[u8; 4]>, index: int, count: int) -> u8
    decreases count,
{
    if count <= 0 {
        0u8
    } else {
        partial_byte(pixels, index, count - 1) | pixel_bit(
            pixels[8 * index + count - 1],
            (count - 1) as u8,
        )
    }
}

/// How many pixels of run `index` lie among the first `done` pixels.
spec fn handled_of_run(done: int, index: int) -> int {
    if done <= 8 * index {
        0
    } else if done >= 8 * index + 8 {
        8
    } else {
        done - 8 * index
    }
}

proof fn lemma_partial_byte_complete(pixels: Seq<[u8; 4]>, index: int)
    ensures
        partial_byte(pixels, index, 8) == packed_byte(pixels, index),
{
    reveal_with_fuel(partial_byte, 9);
    let first = pixel_bit(pixels[8 * index], 0);
    assert(0u8 | first == first) by (bit_vector);
}

/// The number of bytes of the encoding of a raster of the given dimensions,
/// if eight divides the width: `(width / 8) * height`.
pub fn encoded_len(width: u32, height: u32) -> (len: Option<u64>)
    ensures
        len is Some <==> width % 8 == 0,
        len matches Some(bytes) ==> bytes == (width / 8) * height,
{
    if width % 8 != 0 {
        return None;
    }
    let row_bytes: u64 = (width / 8) as u64;
    assert(row_bytes * height <= u64::MAX) by (nonlinear_arith)
        requires
            row_bytes <= u32::MAX,
            height <= u32::MAX,
    ;
    Some(row_bytes * (height as u64))
}

/// Tells the two colours apart: `Some(false)` for opaque black, `Some(true)`
/// for opaque white, `None` for any other pixel.
pub fn classify(pixel: &[u8; 4]) -> (bit: Option<bool>)
    ensures
        bit == monochrome_bit(*pixel),
{
    if pixel[0] == 0x00 && pixel[1] == 0x00 && pixel[2] == 0x00 && pixel[3] == 0xff {
        Some(false)
    } else if pixel[0] == 0xff && pixel[1] == 0xff && pixel[2] == 0xff && pixel[3] == 0xff {
        Some(true)
    } else {
        None
    }
}

/// Encodes a raster as a 1-bit bitmap.
pub fn encode_monochrome(raster: &Raster) -> (result: Result<Vec<u8>, MonochromeError>)
    ensures
        match result {
            Ok(bytes) => monochrome_encoding(raster@) == Ok::<Seq<u8>, MonochromeError>(bytes@),
            Err(error) => monochrome_encoding(raster@) == Err::<Seq<u8>, MonochromeError>(error),
        },
{
    let w: usize = raster.width() as usize;
    let h: usize = raster.height() as usize;
    if w % 8 != 0 {
        return Err(MonochromeError::WidthNotDivisibleByEight { width: raster.width() });
    }
    let source = raster.pixels();
    let ghost pixels = source@;
    let count = source.len();
    let row_bytes = w / 8;
    assert(row_bytes * h * 8 == w * h) by (nonlinear_arith)
        requires
            w == 8 * row_bytes,
    ;
    let mut output_buffer = vec![0b000_000_00u8; row_bytes * h];
    let mut y: usize = 0;
    while y < h
        invariant
            w == raster@.width,
            h == raster@.height,
            w == 8 * row_bytes,
            pixels == source@,
            pixels == raster@.pixels,
            pixels.len() == w * h,
            pixels.len() == count,
            output_buffer@.len() == row_bytes * h,
            output_buffer@.len() * 8 == pixels.len(),
            y <= h,
            y * w <= pixels.len(),
            forall|i: int| 0 <= i < y * w ==> monochrome_bit(#[trigger] pixels[i]) is Some,
            forall|k: int|
                0 <= k < output_buffer@.len() ==> #[trigger] output_buffer@[k] == partial_byte(
                    pixels,
                    k,
                    handled_of_run(y * w, k),
                ),
        decreases h - y,
    {
        assert((y + 1) * w == y * w + w && (y + 1) * w <= w * h && y * row_bytes * 8 == y * w)
            by (nonlinear_arith)
            requires
                y < h,
                w == 8 * row_bytes,
        ;
        let mut x: usize = 0;
        while x < w
            invariant
                w == raster@.width,
                h == raster@.height,
                w == 8 * row_bytes,
                pixels == source@,
                pixels == raster@.pixels,
                pixels.len() == w * h,
                pixels.len() == count,
                output_buffer@.len() == row_bytes * h,
                output_buffer@.len() * 8 == pixels.len(),
                y < h,
                x <= w,
                y * w + w <= pixels.len(),
                y * row_bytes * 8 == y * w,
                forall|i: int| 0 <= i < y * w + x ==> monochrome_bit(#[trigger] pixels[i]) is Some,
                forall|k: int|
                    0 <= k < output_buffer@.len() ==> #[trigger] output_buffer@[k]
                        == partial_byte(pixels, k, handled_of_run(y * w + x, k)),
            decreases w - x,
        {
            let pixel = source[y * w + x];
            let offset_in_byte = x % 8;
            let byte_index = (y * (w / 8)) + (x / 8);
            let ghost done = y * w + x;
            assert(byte_index == done / 8 && offset_in_byte == done % 8);
            match classify(&pixel) {
                Some(false) => {
                    proof {
                        let before = output_buffer@[byte_index as int];
                        assert(before | 0u8 == before) by (bit_vector);
                    }
                },
                Some(true) => {
                    let bit_set = 0b1000_0000u8 >> offset_in_byte;
                    let byte = output_buffer[byte_index];
                    output_buffer[byte_index] = byte | bit_set;
                },
                None => {
                    proof {
                        assert(is_first_rejected(pixels, is_two_colour(), done));
                        lemma_first_rejected_is(pixels, is_two_colour(), done);
                    }
                    return Err(
                        MonochromeError::Rejected(
                            PixelFault {
                                reason: Rejection::InvalidMonochromePixel,
                                color: pack_rgba(&pixel),
                            },
                        ),
                    );
                },
            }
            x += 1;
        }
        y += 1;
    }
    proof {
        assert(h * w == w * h) by (nonlinear_arith);
        assert(all_accepted(pixels, is_two_colour()));
        assert forall|k: int| 0 <= k < output_buffer@.len() implies output_buffer@[k]
            == packed_byte(pixels, k) by {
            lemma_partial_byte_complete(pixels, k);
        }
        assert(row_bytes == raster@.width / 8);
        assert(output_buffer@ =~= Seq::new(
            (raster@.width / 8) * raster@.height,
            |index: int| packed_byte(pixels, index),
        ));
    }
    Ok(output_buffer)
}

/// A width that eight does not divide rules the encoding out before any
/// pixel is looked at: whatever the pixels hold, the outcome is the one that
/// lets the image be left out.
pub proof fn lemma_width_is_judged_first(grid: Grid)
    requires
        grid.width % 8 != 0,
    ensures
        monochrome_encoding(grid) == Err::<Seq<u8>, MonochromeError>(
            MonochromeError::WidthNotDivisibleByEight { width: grid.width as u32 },
        ),
{
}

/// Where eight divides the width, an encoding is owed exactly if every pixel
/// is opaque black or opaque white. Where it is not owed, the fault is that
/// of the first pixel in raster order that is neither.
pub proof fn lemma_monochrome_encoding(grid: Grid)
    requires
        grid.width % 8 == 0,
    ensures
        monochrome_encoding(grid) is Ok <==> forall|i: int|
            0 <= i < grid.pixels.len() ==> monochrome_bit(#[trigger] grid.pixels[i]) is Some,
        monochrome_encoding(grid) matches Ok(bytes) ==> bytes.len() == (grid.width / 8)
            * grid.height,
        monochrome_encoding(grid) matches Err(error) ==> exists|i: int|
            {
                &&& #[trigger] is_first_rejected(grid.pixels, is_two_colour(), i)
                &&& error == MonochromeError::Rejected(
                    PixelFault {
                        reason: Rejection::InvalidMonochromePixel,
                        color: packed_rgba(grid.pixels[i]),
                    },
                )
            },
{
    let pixels = grid.pixels;
    if !all_accepted(pixels, is_two_colour()) {
        let i = choose|i: int| 0 <= i < pixels.len() && !is_two_colour()(#[trigger] pixels[i]);
        lemma_first_rejected_exists(pixels, is_two_colour(), i);
        let first = first_rejected(pixels, is_two_colour());
        assert(is_first_rejected(pixels, is_two_colour(), first));
        assert(!is_two_colour()(pixels[first]));
    } else {
        assert forall|i: int| 0 <= i < pixels.len() implies monochrome_bit(
            #[trigger] pixels[i],
        ) is Some by {
            assert(is_two_colour()(pixels[i]));
        }
    }
}

/// Where eight divides the width, one pixel that is not opaque black or
/// opaque white rules the encoding out with a pixel fault: a pixel of
/// another colour, and any pixel that is not fully opaque.
pub proof fn lemma_other_pixel_in_image(grid: Grid, index: int)
    requires
        grid.width % 8 == 0,
        0 <= index < grid.pixels.len(),
        !is_black(grid.pixels[index]),
        !is_white(grid.pixels[index]),
    ensures
        monochrome_encoding(grid) matches Err(MonochromeError::Rejected(fault)) && fault.reason
            == Rejection::InvalidMonochromePixel,
        grid.pixels[index][3] != 0xff ==> monochrome_bit(grid.pixels[index]) is None,
{
    lemma_monochrome_encoding(grid);
}

proof fn lemma_bit_of_run(
    b0: u8,
    b1: u8,
    b2: u8,
    b3: u8,
    b4: u8,
    b5: u8,
    b6: u8,
    b7: u8,
    offset: u8,
)
    by (bit_vector)
    requires
        b0 == 0 || b0 == 0b1000_0000u8 >> 0u8,
        b1 == 0 || b1 == 0b1000_0000u8 >> 1u8,
        b2 == 0 || b2 == 0b1000_0000u8 >> 2u8,
        b3 == 0 || b3 == 0b1000_0000u8 >> 3u8,
        b4 == 0 || b4 == 0b1000_0000u8 >> 4u8,
        b5 == 0 || b5 == 0b1000_0000u8 >> 5u8,
        b6 == 0 || b6 == 0b1000_0000u8 >> 6u8,
        b7 == 0 || b7 == 0b1000_0000u8 >> 7u8,
        offset < 8,
    ensures
        ((b0 | b1 | b2 | b3 | b4 | b5 | b6 | b7) & (0b1000_0000u8 >> offset) != 0) == (if offset
            == 0 {
            b0 != 0
        } else if offset == 1 {
            b1 != 0
        } else if offset == 2 {
            b2 != 0
        } else if offset == 3 {
            b3 != 0
        } else if offset == 4 {
            b4 != 0
        } else if offset == 5 {
            b5 != 0
        } else if offset == 6 {
            b6 != 0
        } else {
            b7 != 0
        }),
{
}

/// In an encoding, the pixel in column `x` of row `y` has its bit in the
/// byte at `y * (width / 8) + x / 8`, at `x % 8` places below the most
/// significant bit, and the bit is set exactly if the pixel is white.
pub proof fn lemma_bit_of_pixel(grid: Grid, x: int, y: int)
    requires
        grid.wf(),
        grid.width % 8 == 0,
        0 <= x < grid.width,
        0 <= y < grid.height,
        monochrome_encoding(grid) is Ok,
    ensures
        0 <= y * (grid.width / 8) + x / 8 < (monochrome_encoding(grid)->Ok_0).len(),
        ((monochrome_encoding(grid)->Ok_0)[y * (grid.width / 8) + x / 8] & (0b1000_0000u8 >> ((x
            % 8) as u8)) != 0) == is_white(grid.at(x, y)),
{
    let pixels = grid.pixels;
    let row_bytes = grid.width as int / 8;
    let index = y * row_bytes + x / 8;
    let offset = x % 8;
    assert(8 * (y * row_bytes) == y * grid.width && 0 <= y * row_bytes && (y + 1) * row_bytes
        <= row_bytes * grid.height && (y + 1) * row_bytes == y * row_bytes + row_bytes
        && row_bytes * grid.height * 8 == grid.width * grid.height) by (nonlinear_arith)
        requires
            grid.width == 8 * row_bytes,
            0 <= y < grid.height,
            0 <= row_bytes,
    ;
    assert(y * grid.width + x == 8 * index + offset);
    assert(forall|place: u8| place < 8 ==> #[trigger] (0b1000_0000u8 >> place) != 0)
        by (bit_vector);
    lemma_bit_of_run(
        pixel_bit(pixels[8 * index], 0),
        pixel_bit(pixels[8 * index + 1], 1),
        pixel_bit(pixels[8 * index + 2], 2),
        pixel_bit(pixels[8 * index + 3], 3),
        pixel_bit(pixels[8 * index + 4], 4),
        pixel_bit(pixels[8 * index + 5], 5),
        pixel_bit(pixels[8 * index + 6], 6),
        pixel_bit(pixels[8 * index + 7], 7),
        offset as u8,
    );
}

/// Where the first eight pixels of the top row alternate, starting with
/// white, the first byte of the encoding is `0b10101010`.
pub proof fn lemma_alternating_run(grid: Grid)
    requires
        grid.wf(),
        grid.width % 8 == 0,
        grid.width > 0,
        grid.height > 0,
        monochrome_encoding(grid) is Ok,
        forall|x: int| 0 <= x < 8 && x % 2 == 0 ==> is_white(#[trigger] grid.at(x, 0)),
        forall|x: int| 0 <= x < 8 && x % 2 == 1 ==> is_black(#[trigger] grid.at(x, 0)),
    ensures
        (monochrome_encoding(grid)->Ok_0).len() > 0,
        (monochrome_encoding(grid)->Ok_0)[0] == 0b1010_1010u8,
{
    let row_bytes = grid.width as int / 8;
    assert(row_bytes * grid.height >= 1) by (nonlinear_arith)
        requires
            row_bytes >= 1,
            grid.height >= 1,
    ;
    assert(is_white(grid.at(0, 0)) && is_black(grid.at(1, 0)));
    assert(is_white(grid.at(2, 0)) && is_black(grid.at(3, 0)));
    assert(is_white(grid.at(4, 0)) && is_black(grid.at(5, 0)));
    assert(is_white(grid.at(6, 0)) && is_black(grid.at(7, 0)));
    assert((0b1000_0000u8 >> 0u8) | 0u8 | (0b1000_0000u8 >> 2u8) | 0u8 | (0b1000_0000u8 >> 4u8)
        | 0u8 | (0b1000_0000u8 >> 6u8) | 0u8 == 0b1010_1010u8) by (bit_vector);
}

} // verus!
