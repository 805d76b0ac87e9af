//! The packed 8-bit RGB332 encoding: one byte per pixel, red in the top
//! three bits, green in the next three, blue in the last two.

use crate::lookup::{lookup, LookupTable};
use crate::pixel::{
    all_accepted, first_rejected, is_first_rejected, lemma_first_rejected_exists,
    lemma_first_rejected_is, pack_rgba, packed_rgba, PixelFault, Rejection,
};
use crate::raster::Raster;
use vstd::prelude::*;

verus! {

/// The byte that one pixel is encoded as, or the reason why it has none. A
/// fully transparent pixel becomes the mask byte if there is one; a partly
/// transparent pixel is turned down whatever the mask.
pub open spec fn rgb332_byte(pixel: [u8; 4], mask: Option<u8>) -> Result<u8, Rejection> {
    match lookup(pixel) {
        Ok(Some(byte)) => Ok(byte),
        Ok(None) => match mask {
            Some(mask_byte) => Ok(mask_byte),
            None => Err(Rejection::TransparentWithoutMask),
        },
        Err(_) => if pixel[3] == 0xff {
            Err(Rejection::UnsupportedChannel)
        } else {
            Err(Rejection::PartialTransparency)
        },
    }
}

/// The test that every pixel of an RGB332 image has to pass under `mask`.
pub open spec fn is_encodable(mask: Option<u8>) -> spec_fn([u8; 4]) -> bool {
    |pixel: [u8; 4]| rgb332_byte(pixel, mask) is Ok
}

/// The RGB332 encoding of pixels in raster order: one byte for each pixel,
/// in the same order, or the first pixel in raster order that has no byte.
pub open spec fn rgb332_encoding(pixels: Seq<[u8; 4]>, mask: Option<u8>) -> Result<
    Seq<u8>,
    PixelFault,
> {
    if all_accepted(pixels, is_encodable(mask)) {
        Ok(Seq::new(pixels.len(), |i: int| rgb332_byte(pixels[i], mask)->Ok_0))
    } else {
        let index = first_rejected(pixels, is_encodable(mask));
        Err(
            PixelFault {
                reason: rgb332_byte(pixels[index], mask)->Err_0,
                color: packed_rgba(pixels[index]),
            },
        )
    }
}

/// Encodes one pixel.
pub fn encode_pixel(table: &LookupTable, pixel: &[u8; 4], mask: Option<u8>) -> (result: Result<
    u8,
    Rejection,
>)
    ensures
        result == rgb332_byte(*pixel, mask),
{
    match table.get(pixel) {
        Ok(Some(byte)) => Ok(byte),
        Ok(None) => match mask {
            Some(mask_byte) => Ok(mask_byte),
            None => Err(Rejection::TransparentWithoutMask),
        },
        Err(_) => if pixel[3] == 0xff {
            Err(Rejection::UnsupportedChannel)
        } else {
            Err(Rejection::PartialTransparency)
        },
    }
}

/// Encodes a raster as RGB332 bytes.
pub fn encode_rgb332(table: &LookupTable, raster: &Raster, mask: Option<u8>) -> (result: Result<
    Vec<u8>,
    PixelFault,
>)
    ensures
        match result {
            Ok(bytes) => rgb332_encoding(raster@.pixels, mask) == Ok::<Seq<u8>, PixelFault>(
                bytes@,
            ),
            Err(fault) => rgb332_encoding(raster@.pixels, mask) == Err::<Seq<u8>, PixelFault>(
                fault,
            ),
        },
{
    let w: usize = raster.width() as usize;
    let h: usize = raster.height() as usize;
    let source = raster.pixels();
    let ghost pixels = source@;
    let count = source.len();
    let mut output_buffer = vec![0b000_000_00u8; count];
    let mut y: usize = 0;
    while y < h
        invariant
            pixels == source@,
            pixels == raster@.pixels,
            pixels.len() == w * h,
            pixels.len() == count,
            output_buffer@.len() == count,
            y <= h,
            y * w <= count,
            forall|i: int|
                0 <= i < y * w ==> rgb332_byte(#[trigger] pixels[i], mask) == Ok::<u8, Rejection>(
                    output_buffer@[i],
                ),
        decreases h - y,
    {
        assert((y + 1) * w == y * w + w && (y + 1) * w <= w * h) by (nonlinear_arith)
            requires
                y < h,
        ;
        let mut x: usize = 0;
        while x < w
            invariant
                pixels == source@,
                pixels == raster@.pixels,
                pixels.len() == count,
                output_buffer@.len() == count,
                x <= w,
                y * w + w <= count,
                forall|i: int|
                    0 <= i < y * w + x ==> rgb332_byte(#[trigger] pixels[i], mask) == Ok::<
                        u8,
                        Rejection,
                    >(output_buffer@[i]),
            decreases w - x,
        {
            let pixel_bytes = source[y * w + x];
            match encode_pixel(table, &pixel_bytes, mask) {
                Ok(byte) => {
                    output_buffer[y * w + x] = byte;
                },
                Err(reason) => {
                    proof {
                        assert(is_first_rejected(pixels, is_encodable(mask), y * w + x));
                        lemma_first_rejected_is(pixels, is_encodable(mask), y * w + x);
                    }
                    return Err(PixelFault { reason, color: pack_rgba(&pixel_bytes) });
                },
            }
            x += 1;
        }
        y += 1;
    }
    proof {
        assert(h * w == w * h) by (nonlinear_arith);
        assert(all_accepted(pixels, is_encodable(mask)));
        assert(output_buffer@ =~= Seq::new(
            pixels.len(),
            |i: int| rgb332_byte(pixels[i], mask)->Ok_0,
        ));
    }
    Ok(output_buffer)
}

/// A fully transparent pixel becomes the mask byte where there is a mask,
/// and is turned down where there is none, whatever its colour channels hold.
pub proof fn lemma_transparent_pixel(pixel: [u8; 4], mask: Option<u8>)
    requires
        pixel[3] == 0x00,
    ensures
        lookup(pixel) == Ok::<Option<u8>, ()>(None),
        mask matches Some(mask_byte) ==> rgb332_byte(pixel, mask) == Ok::<u8, Rejection>(
            mask_byte,
        ),
        mask is None ==> rgb332_byte(pixel, mask) == Err::<u8, Rejection>(
            Rejection::TransparentWithoutMask,
        ),
{
}

/// A partly transparent pixel is turned down with or without a mask.
pub proof fn lemma_partly_transparent_pixel(pixel: [u8; 4], mask: Option<u8>)
    requires
        0x00 < pixel[3] < 0xff,
    ensures
        lookup(pixel) == Err::<Option<u8>, ()>(()),
        rgb332_byte(pixel, mask) == Err::<u8, Rejection>(Rejection::PartialTransparency),
{
}

/// An encoding is owed exactly if every pixel has a byte. It then holds each
/// pixel's byte at the pixel's own position: no byte depends on another
/// pixel. Where it is not owed, the fault is that of the first pixel in
/// raster order without a byte.
pub proof fn lemma_rgb332_encoding(pixels: Seq<[u8; 4]>, mask: Option<u8>)
    ensures
        rgb332_encoding(pixels, mask) is Ok <==> forall|i: int|
            0 <= i < pixels.len() ==> rgb332_byte(#[trigger] pixels[i], mask) is Ok,
        rgb332_encoding(pixels, mask) matches Ok(bytes) ==> {
            &&& bytes.len() == pixels.len()
            &&& forall|i: int|
                0 <= i < pixels.len() ==> rgb332_byte(#[trigger] pixels[i], mask) == Ok::<
                    u8,
                    Rejection,
                >(bytes[i])
        },
        rgb332_encoding(pixels, mask) matches Err(fault) ==> exists|i: int|
            {
                &&& #[trigger] is_first_rejected(pixels, is_encodable(mask), i)
                &&& rgb332_byte(pixels[i], mask) == Err::<u8, Rejection>(fault.reason)
                &&& fault.color == packed_rgba(pixels[i])
            },
{
    if !all_accepted(pixels, is_encodable(mask)) {
        let i = choose|i: int| 0 <= i < pixels.len() && !is_encodable(mask)(#[trigger] pixels[i]);
        lemma_first_rejected_exists(pixels, is_encodable(mask), i);
        let first = first_rejected(pixels, is_encodable(mask));
        assert(is_first_rejected(pixels, is_encodable(mask), first));
        assert(!is_encodable(mask)(pixels[first]));
    } else {
        assert forall|i: int| 0 <= i < pixels.len() implies rgb332_byte(
            #[trigger] pixels[i],
            mask,
        ) is Ok by {
            assert(is_encodable(mask)(pixels[i]));
        }
    }
}

/// An image with a fully transparent pixel has no encoding without a mask;
/// with a mask, the pixel's byte in any encoding is the mask byte.
pub proof fn lemma_transparent_pixel_in_image(pixels: Seq<[u8; 4]>, mask: Option<u8>, index: int)
    requires
        0 <= index < pixels.len(),
        pixels[index][3] == 0x00,
    ensures
        mask is None ==> rgb332_encoding(pixels, mask) is Err,
        mask matches Some(mask_byte) ==> (rgb332_encoding(pixels, mask) matches Ok(bytes)
            ==> bytes[index] == mask_byte),
{
    lemma_transparent_pixel(pixels[index], mask);
    lemma_rgb332_encoding(pixels, mask);
}

/// An image with a partly transparent pixel has no encoding, with or without
/// a mask.
pub proof fn lemma_partly_transparent_pixel_in_image(
    pixels: Seq<[u8; 4]>,
    mask: Option<u8>,
    index: int,
)
    requires
        0 <= index < pixels.len(),
        0x00 < pixels[index][3] < 0xff,
    ensures
        rgb332_encoding(pixels, mask) is Err,
{
    lemma_partly_transparent_pixel(pixels[index], mask);
    lemma_rgb332_encoding(pixels, mask);
}

} // verus!
