//! What the encoders share: why a pixel is turned down, how its colour is
//! reported, and which pixel of a raster is reported.

use vstd::prelude::*;

verus! {

/// Why a pixel cannot be encoded.
#[derive(Clone, Copy, Debug, PartialEq, Eq, Structural)]
pub enum Rejection {
    /// The pixel is fully transparent and no mask byte stands in for it.
    TransparentWithoutMask,
    /// The pixel's alpha is neither 0 nor 255.
    PartialTransparency,
    /// The pixel is opaque, and one of its channels has no RGB332 field.
    UnsupportedChannel,
    /// The pixel is neither opaque black nor opaque white.
    InvalidMonochromePixel,
}

/// A pixel that ended an encoding: the reason and the pixel's packed colour.
#[derive(Clone, Copy, Debug, PartialEq, Eq, Structural)]
pub struct PixelFault {
    pub reason: Rejection,
    pub color: u32,
}

/// The four channels of a pixel in one number, red in the top byte, then
/// green, blue and alpha.
pub open spec fn packed_rgba(pixel: [u8; 4]) -> u32 {
    (pixel[0] as u32) << 24 | (pixel[1] as u32) << 16 | (pixel[2] as u32) << 8 | (pixel[3] as u32)
}

/// Packs the four channels of a pixel into one number.
pub fn pack_rgba(pixel: &[u8; 4]) -> (color: u32)
    ensures
        color == packed_rgba(*pixel),
{
    let r_ch: u32 = pixel[0] as u32;
    let g_ch: u32 = pixel[1] as u32;
    let b_ch: u32 = pixel[2] as u32;
    let a_ch: u32 = pixel[3] as u32;
    r_ch << 24 | g_ch << 16 | b_ch << 8 | a_ch
}

/// The packed colour reads as the four channel bytes, most significant first.
pub proof fn lemma_packed_rgba_value(pixel: [u8; 4])
    ensures
        packed_rgba(pixel) == pixel[0] * 0x100_0000 + pixel[1] * 0x1_0000 + pixel[2] * 0x100
            + pixel[3],
{
    let r = pixel[0];
    let g = pixel[1];
    let b = pixel[2];
    let a = pixel[3];
    assert((r as u32) << 24 | (g as u32) << 16 | (b as u32) << 8 | (a as u32) == r * 0x100_0000
        + g * 0x1_0000 + b * 0x100 + a) by (bit_vector);
}

/// Every pixel of `pixels` passes `accepts`.
pub open spec fn all_accepted(pixels: Seq<[u8; 4]>, accepts: spec_fn([u8; 4]) -> bool) -> bool {
    forall|i: int| 0 <= i < pixels.len() ==> accepts(#[trigger] pixels[i])
}

/// `index` is the first position in raster order whose pixel fails `accepts`.
pub open spec fn is_first_rejected(
    pixels: Seq<[u8; 4]>,
    accepts: spec_fn([u8; 4]) -> bool,
    index: int,
) -> bool {
    &&& 0 <= index < pixels.len()
    &&& !accepts(pixels[index])
    &&& forall|j: int| 0 <= j < index ==> accepts(#[trigger] pixels[j])
}

/// The first position in raster order whose pixel fails `accepts`, where
/// there is one.
pub open spec fn first_rejected(pixels: Seq<[u8; 4]>, accepts: spec_fn([u8; 4]) -> bool) -> int {
    choose|index: int| is_first_rejected(pixels, accepts, index)
}

/// There is at most one first rejected position, and where there is one, not
/// every pixel is accepted.
pub proof fn lemma_first_rejected_is(
    pixels: Seq<[u8; 4]>,
    accepts: spec_fn([u8; 4]) -> bool,
    index: int,
)
    requires
        is_first_rejected(pixels, accepts, index),
    ensures
        first_rejected(pixels, accepts) == index,
        !all_accepted(pixels, accepts),
{
    let chosen = first_rejected(pixels, accepts);
    assert(is_first_rejected(pixels, accepts, chosen));
    if chosen < index {
        assert(accepts(pixels[chosen]));
    } else if index < chosen {
        assert(accepts(pixels[index]));
    }
    assert(!accepts(pixels[index]));
}

/// Where a pixel is rejected, some pixel is the first to be.
pub proof fn lemma_first_rejected_exists(
    pixels: Seq<[u8; 4]>,
    accepts: spec_fn([u8; 4]) -> bool,
    index: int,
)
    requires
        0 <= index < pixels.len(),
        !accepts(pixels[index]),
    ensures
        is_first_rejected(pixels, accepts, first_rejected(pixels, accepts)),
        first_rejected(pixels, accepts) <= index,
        !all_accepted(pixels, accepts),
    decreases index,
{
    if forall|j: int| 0 <= j < index ==> accepts(#[trigger] pixels[j]) {
        assert(is_first_rejected(pixels, accepts, index));
        lemma_first_rejected_is(pixels, accepts, index);
    } else {
        let earlier = choose|j: int| 0 <= j < index && !accepts(#[trigger] pixels[j]);
        lemma_first_rejected_exists(pixels, accepts, earlier);
    }
}

} // verus!
