//! Rasters of RGBA pixels, and the bridge from decoded images to them.

use image::DynamicImage;
use image::GenericImageView;
use vstd::arithmetic::div_mod::lemma_fundamental_div_mod_converse;
use vstd::prelude::*;

verus! {

/// A decoded image of the `image` crate. Nothing inside it is visible here:
/// it is read through `has_float_samples`, `width_of`, `height_of` and
/// `pixel_of` alone.
#[verifier::external_type_specification]
#[verifier::external_body]
pub struct ExDynamicImage(image::DynamicImage);

/// The number of pixel columns that `DynamicImage::width` reports for `image`.
pub uninterp spec fn image_width(image: DynamicImage) -> u32;

/// The number of pixel rows that `DynamicImage::height` reports for `image`.
pub uninterp spec fn image_height(image: DynamicImage) -> u32;

/// The red, green, blue and alpha bytes that `GenericImageView::get_pixel`
/// reports for column `x` of row `y` of `image`.
pub uninterp spec fn image_pixel(image: DynamicImage, x: int, y: int) -> [u8; 4];

/// Whether `DynamicImage::color` reports one of the two colour types with
/// 32-bit floating-point samples for `image`.
pub uninterp spec fn image_has_float_samples(image: DynamicImage) -> bool;

/// Calls `image::DynamicImage::color`, which names the variant that the image
/// is stored as, and tells whether it is `Rgb32F` or `Rgba32F`. The contract
/// only gives that answer its name.
#[verifier::external_body]
pub(crate) fn has_float_samples(image: &DynamicImage) -> (float: bool)
    ensures
        float == image_has_float_samples(*image),
{
    matches!(image.color(), image::ColorType::Rgb32F | image::ColorType::Rgba32F)
}

/// Calls `image::DynamicImage::width`, which hands back the width stored in
/// the underlying buffer. The contract only gives that number its name.
#[verifier::external_body]
pub(crate) fn width_of(image: &DynamicImage) -> (width: u32)
    ensures
        width == image_width(*image),
{
    image.width()
}

/// Calls `image::DynamicImage::height`, which hands back the height stored in
/// the underlying buffer. The contract only gives that number its name.
#[verifier::external_body]
pub(crate) fn height_of(image: &DynamicImage) -> (height: u32)
    ensures
        height == image_height(*image),
{
    image.height()
}

/// Calls `GenericImageView::get_pixel` on a `DynamicImage` and takes the four
/// bytes out of the `Rgba<u8>` it returns. The call panics outside the
/// image's bounds, so both coordinates must lie within them. It also panics
/// where it has to turn a floating-point sample that is not a number into a
/// byte, so images with floating-point samples are left out altogether; the
/// 8-bit and 16-bit samples of all other images always have a byte. The
/// contract only gives the four bytes their name.
#[verifier::external_body]
pub(crate) fn pixel_of(image: &DynamicImage, x: u32, y: u32) -> (pixel: [u8; 4])
    requires
        !image_has_float_samples(*image),
        x < image_width(*image),
        y < image_height(*image),
    ensures
        pixel == image_pixel(*image, x as int, y as int),
{
    image.get_pixel(x, y).0
}

/// The mathematical model of a raster: its dimensions and its pixels in
/// raster order (row by row from the top, each row from the left).
pub struct Grid {
    pub width: nat,
    pub height: nat,
    pub pixels: Seq<[u8; 4]>,
}

impl Grid {
    /// There is exactly one pixel for each position.
    pub open spec fn wf(self) -> bool {
        self.pixels.len() == self.width * self.height
    }

    /// The pixel in column `x` of row `y`.
    pub open spec fn at(self, x: int, y: int) -> [u8; 4] {
        self.pixels[y * self.width + x]
    }
}

/// The raster that a decoded image stands for.
pub open spec fn grid_of(image: DynamicImage) -> Grid {
    Grid {
        width: image_width(image) as nat,
        height: image_height(image) as nat,
        pixels: Seq::new(
            (image_width(image) * image_height(image)) as nat,
            |i: int|
                image_pixel(
                    image,
                    i % (image_width(image) as int),
                    i / (image_width(image) as int),
                ),
        ),
    }
}

/// The raster of a decoded image has one pixel for each position, and holds
/// at column `x` of row `y` the pixel that the image reports there.
pub proof fn lemma_grid_of_image(image: DynamicImage, x: int, y: int)
    requires
        0 <= x < image_width(image),
        0 <= y < image_height(image),
    ensures
        grid_of(image).wf(),
        0 <= y * image_width(image) + x < grid_of(image).pixels.len(),
        grid_of(image).at(x, y) == image_pixel(image, x, y),
{
    let width = image_width(image) as int;
    let height = image_height(image) as int;
    lemma_fundamental_div_mod_converse(y * width + x, width, y, x);
    assert(0 <= y * width && y * width + x < width * height) by (nonlinear_arith)
        requires
            0 <= x < width,
            0 <= y < height,
    ;
}

/// Two decoded images of the same dimensions whose pixels agree at every
/// position stand for the same raster: nothing else of an image is read.
pub proof fn lemma_equal_pixels_equal_grids(first: DynamicImage, second: DynamicImage)
    requires
        image_width(first) == image_width(second),
        image_height(first) == image_height(second),
        forall|x: int, y: int|
            0 <= x < image_width(first) && 0 <= y < image_height(first) ==> image_pixel(
                first,
                x,
                y,
            ) == image_pixel(second, x, y),
    ensures
        grid_of(first) == grid_of(second),
{
    let width = image_width(first) as int;
    let height = image_height(first) as int;
    assert forall|i: int| 0 <= i < width * height implies grid_of(first).pixels[i] == grid_of(
        second,
    ).pixels[i] by {
        assert(0 <= i % width < width && 0 <= i / width < height) by (nonlinear_arith)
            requires
                0 <= i < width * height,
                0 <= width,
        ;
    }
    assert(grid_of(first).pixels =~= grid_of(second).pixels);
}

/// A raster of RGBA pixels held in memory.
pub struct Raster {
    width: u32,
    height: u32,
    pixels: Vec<[u8; 4]>,
}

impl View for Raster {
    type V = Grid;

    closed spec fn view(&self) -> Grid {
        Grid { width: self.width as nat, height: self.height as nat, pixels: self.pixels@ }
    }
}

impl Raster {
    #[verifier::type_invariant]
    spec fn one_pixel_per_position(self) -> bool {
        self.pixels@.len() == self.width * self.height
    }

    /// Makes a raster of the given dimensions from pixels in raster order,
    /// if there is exactly one pixel for each position.
    pub fn new(width: u32, height: u32, pixels: Vec<[u8; 4]>) -> (raster: Option<Self>)
        ensures
            raster is Some <==> pixels@.len() == width * height,
            raster matches Some(r) ==> r@ == (Grid {
                width: width as nat,
                height: height as nat,
                pixels: pixels@,
            }),
    {
        assert(width * height <= u64::MAX) by (nonlinear_arith)
            requires
                width <= u32::MAX,
                height <= u32::MAX,
        ;
        let positions: u64 = (width as u64) * (height as u64);
        if pixels.len() as u64 == positions {
            Some(Self { width, height, pixels })
        } else {
            None
        }
    }

    /// Copies the pixels of a decoded image into a raster, unless the image
    /// holds floating-point samples: such a sample need not have a byte.
    pub fn from_image(image: &DynamicImage) -> (raster: Option<Self>)
        ensures
            raster is Some <==> !image_has_float_samples(*image),
            raster matches Some(copied) ==> copied@ == grid_of(*image),
    {
        if has_float_samples(image) {
            return None;
        }
        let width = width_of(image);
        let height = height_of(image);
        let mut pixels: Vec<[u8; 4]> = Vec::new();
        let mut y: u32 = 0;
        while y < height
            invariant
                !image_has_float_samples(*image),
                width == image_width(*image),
                height == image_height(*image),
                y <= height,
                pixels@.len() == y * width,
                forall|i: int|
                    0 <= i < pixels@.len() ==> #[trigger] pixels@[i] == image_pixel(
                        *image,
                        i % (width as int),
                        i / (width as int),
                    ),
            decreases height - y,
        {
            let mut x: u32 = 0;
            while x < width
                invariant
                    !image_has_float_samples(*image),
                    width == image_width(*image),
                    height == image_height(*image),
                    y < height,
                    x <= width,
                    pixels@.len() == y * width + x,
                    forall|i: int|
                        0 <= i < pixels@.len() ==> #[trigger] pixels@[i] == image_pixel(
                            *image,
                            i % (width as int),
                            i / (width as int),
                        ),
                decreases width - x,
            {
                let pixel = pixel_of(image, x, y);
                proof {
                    lemma_fundamental_div_mod_converse(
                        y * width + x,
                        width as int,
                        y as int,
                        x as int,
                    );
                }
                pixels.push(pixel);
                x += 1;
            }
            assert((y + 1) * width == y * width + width) by (nonlinear_arith);
            y += 1;
        }
        assert(height * width == width * height) by (nonlinear_arith);
        assert(pixels@ =~= grid_of(*image).pixels);
        Some(Self { width, height, pixels })
    }

    /// The number of pixel columns.
    pub fn width(&self) -> (width: u32)
        ensures
            width == self@.width,
    {
        self.width
    }

    /// The number of pixel rows.
    pub fn height(&self) -> (height: u32)
        ensures
            height == self@.height,
    {
        self.height
    }

    /// The pixels in raster order, one for each position.
    pub fn pixels(&self) -> (pixels: &Vec<[u8; 4]>)
        ensures
            pixels@ == self@.pixels,
            self@.wf(),
    {
        proof {
            use_type_invariant(self);
        }
        &self.pixels
    }

    /// The pixel in column `x` of row `y`, if the raster has that position.
    pub fn get_pixel(&self, x: u32, y: u32) -> (pixel: Option<[u8; 4]>)
        ensures
            self@.wf(),
            pixel == if x < self@.width && y < self@.height {
                Some(self@.at(x as int, y as int))
            } else {
                None
            },
    {
        proof {
            use_type_invariant(self);
        }
        if x < self.width && y < self.height {
            assert(0 <= y * self.width && y * self.width + x < self.width * self.height)
                by (nonlinear_arith)
                requires
                    x < self.width,
                    y < self.height,
            ;
            let count = self.pixels.len();
            assert(y * self.width + x < count);
            let index = (y as usize) * (self.width as usize) + (x as usize);
            Some(self.pixels[index])
        } else {
            None
        }
    }
}

} // verus!
