//! One image of a batch: from the decoded image and its file name to the
//! bytes and the name of the output file, or to the reason why there is none.

use crate::lookup::LookupTable;
use crate::monochrome::{encode_monochrome, monochrome_encoding, MonochromeError};
use crate::pixel::PixelFault;
use crate::raster::{
    grid_of, image_has_float_samples, image_height, image_pixel, image_width,
    lemma_equal_pixels_equal_grids, Raster,
};
use crate::rgb332::{encode_rgb332, rgb332_encoding};
use image::DynamicImage;
use vstd::prelude::*;
use vstd::string::{StrSliceExecFns, StringExecFns};

verus! {

/// The end of every output file's name: `.data`.
pub open spec fn output_suffix() -> Seq<char> {
    seq!['.', 'd', 'a', 't', 'a']
}

/// `index` is the place of the last `.` in `name`.
pub open spec fn is_last_dot(name: Seq<char>, index: int) -> bool {
    &&& 0 <= index < name.len()
    &&& name[index] == '.'
    &&& forall|j: int| index < j < name.len() ==> name[j] != '.'
}

/// A file name without its extension: what stands before the last `.`, or
/// the whole name if it has none.
pub open spec fn file_stem(name: Seq<char>) -> Seq<char> {
    if exists|index: int| is_last_dot(name, index) {
        name.take(choose|index: int| is_last_dot(name, index))
    } else {
        name
    }
}

/// The name of the output file for an input file's name.
pub open spec fn output_name(name: Seq<char>) -> Seq<char> {
    file_stem(name) + output_suffix()
}

/// A name made of a stem, a `.` and an extension without a `.` has that
/// stem, whatever the stem holds; a name without a `.` is its own stem.
pub proof fn lemma_file_stem(stem: Seq<char>, extension: Seq<char>)
    requires
        forall|i: int| 0 <= i < extension.len() ==> extension[i] != '.',
    ensures
        file_stem(stem + seq!['.'] + extension) == stem,
        file_stem(extension) == extension,
{
    let name = stem + seq!['.'] + extension;
    let dot = stem.len() as int;
    assert(is_last_dot(name, dot));
    let last = choose|index: int| is_last_dot(name, index);
    assert(is_last_dot(name, last));
    if last < dot {
        assert(name[dot] == '.');
    } else if dot < last {
        assert(name[last] == extension[last - dot - 1]);
    }
    assert(name.take(dot) =~= stem);
    assert forall|index: int| !is_last_dot(extension, index) by {
        if 0 <= index < extension.len() {
            assert(extension[index] != '.');
        }
    }
}

/// The name of the output file for an input file's name: the extension goes
/// and `.data` comes in its place.
pub fn output_file_name(file_name: &str) -> (name: String)
    ensures
        name@ == output_name(file_name@),
{
    let length = file_name.unicode_len();
    let mut end: usize = length;
    let mut i: usize = length;
    while i > 0 && end == length
        invariant
            i <= length,
            end <= length,
            length == file_name@.len(),
            end == length ==> forall|j: int| i <= j < length ==> file_name@[j] != '.',
            end < length ==> is_last_dot(file_name@, end as int),
        decreases i,
    {
        i -= 1;
        if file_name.get_char(i) == '.' {
            end = i;
        }
    }
    proof {
        if end < length {
            let last = choose|index: int| is_last_dot(file_name@, index);
            assert(is_last_dot(file_name@, last));
            assert(last == end);
        } else {
            assert forall|index: int| !is_last_dot(file_name@, index) by {
                if 0 <= index < length {
                    assert(file_name@[index] != '.');
                }
            }
            assert(file_name@.subrange(0, end as int) =~= file_name@);
        }
        reveal_strlit(".data");
        assert(".data"@ =~= output_suffix());
    }
    let stem = file_name.substring_char(0, end);
    String::from_str(stem).concat(".data")
}

/// The output for one image: the file's name and its bytes.
#[derive(Debug)]
pub struct Converted {
    pub file_name: String,
    pub data: Vec<u8>,
}

/// Why there is no output for an image.
#[derive(Debug)]
pub enum Failure {
    /// The image holds floating-point samples, which have no RGBA bytes of
    /// their own. The image is left out and the batch goes on.
    FloatSamples,
    /// The image's width rules a monochrome encoding out. The image is left
    /// out and the batch goes on.
    Skipped { width: u32 },
    /// A pixel cannot be encoded. The whole batch ends here.
    Fatal { file_name: String, fault: PixelFault },
}

impl Failure {
    /// Whether the batch ends with this failure.
    pub fn is_fatal(&self) -> (fatal: bool)
        ensures
            fatal == (self is Fatal),
    {
        match self {
            Failure::FloatSamples => false,
            Failure::Skipped { .. } => false,
            Failure::Fatal { .. } => true,
        }
    }
}

/// Converts one decoded image to RGB332. A fully transparent pixel becomes
/// `mask_u8_opt` if there is one. An image with floating-point samples is
/// left out before any pixel is read.
pub fn convert_png_to_rgb332(
    lookup_table: &LookupTable,
    file_name: &str,
    image: &DynamicImage,
    mask_u8_opt: Option<u8>,
) -> (result: Result<Converted, Failure>)
    ensures
        match result {
            Ok(converted) => {
                &&& !image_has_float_samples(*image)
                &&& converted.file_name@ == output_name(file_name@)
                &&& rgb332_encoding(grid_of(*image).pixels, mask_u8_opt) == Ok::<
                    Seq<u8>,
                    PixelFault,
                >(converted.data@)
            },
            Err(Failure::FloatSamples) => image_has_float_samples(*image),
            Err(Failure::Fatal { file_name: name, fault }) => {
                &&& !image_has_float_samples(*image)
                &&& name@ == file_name@
                &&& rgb332_encoding(grid_of(*image).pixels, mask_u8_opt) == Err::<
                    Seq<u8>,
                    PixelFault,
                >(fault)
            },
            Err(Failure::Skipped { .. }) => false,
        },
{
    let raster = match Raster::from_image(image) {
        Some(raster) => raster,
        None => return Err(Failure::FloatSamples),
    };
    match encode_rgb332(lookup_table, &raster, mask_u8_opt) {
        Ok(data) => Ok(Converted { file_name: output_file_name(file_name), data }),
        Err(fault) => Err(Failure::Fatal { file_name: String::from_str(file_name), fault }),
    }
}

/// Converts one decoded image to a 1-bit monochrome bitmap. An image with
/// floating-point samples is left out before anything else is looked at.
pub fn convert_png_to_bw(file_name: &str, image: &DynamicImage) -> (result: Result<
    Converted,
    Failure,
>)
    ensures
        match result {
            Ok(converted) => {
                &&& !image_has_float_samples(*image)
                &&& converted.file_name@ == output_name(file_name@)
                &&& monochrome_encoding(grid_of(*image)) == Ok::<Seq<u8>, MonochromeError>(
                    converted.data@,
                )
            },
            Err(Failure::FloatSamples) => image_has_float_samples(*image),
            Err(Failure::Skipped { width }) => {
                &&& !image_has_float_samples(*image)
                &&& monochrome_encoding(grid_of(*image)) == Err::<Seq<u8>, MonochromeError>(
                    MonochromeError::WidthNotDivisibleByEight { width },
                )
            },
            Err(Failure::Fatal { file_name: name, fault }) => {
                &&& !image_has_float_samples(*image)
                &&& name@ == file_name@
                &&& monochrome_encoding(grid_of(*image)) == Err::<Seq<u8>, MonochromeError>(
                    MonochromeError::Rejected(fault),
                )
            },
        },
{
    let raster = match Raster::from_image(image) {
        Some(raster) => raster,
        None => return Err(Failure::FloatSamples),
    };
    match encode_monochrome(&raster) {
        Ok(data) => Ok(Converted { file_name: output_file_name(file_name), data }),
        Err(MonochromeError::WidthNotDivisibleByEight { width }) => Err(
            Failure::Skipped { width },
        ),
        Err(MonochromeError::Rejected(fault)) => Err(
            Failure::Fatal { file_name: String::from_str(file_name), fault },
        ),
    }
}

/// Converting twice gives the same output. For an image without
/// floating-point samples, what a conversion returns is fixed by the file's
/// name, the mask, the image's dimensions and its pixel at each position:
/// two images that agree in these have the same encodings, so they are
/// converted to the same bytes under the same name, or fail with the same
/// fault.
pub proof fn lemma_conversion_is_repeatable(
    first: DynamicImage,
    second: DynamicImage,
    mask: Option<u8>,
)
    requires
        image_width(first) == image_width(second),
        image_height(first) == image_height(second),
        forall|x: int, y: int|
            0 <= x < image_width(first) && 0 <= y < image_height(first) ==> image_pixel(
                first,
                x,
                y,
            ) == image_pixel(second, x, y),
    ensures
        rgb332_encoding(grid_of(first).pixels, mask) == rgb332_encoding(
            grid_of(second).pixels,
            mask,
        ),
        monochrome_encoding(grid_of(first)) == monochrome_encoding(grid_of(second)),
{
    lemma_equal_pixels_equal_grids(first, second);
}

} // verus!
