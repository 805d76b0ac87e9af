use image::{DynamicImage, Rgba, Rgba32FImage, RgbaImage};
use rgba8888_to_rgb332::converter::{
    convert_png_to_bw, convert_png_to_rgb332, output_file_name, Failure,
};
use rgba8888_to_rgb332::lookup::LookupTable;
use rgba8888_to_rgb332::pixel::{PixelFault, Rejection};

const BLACK: [u8; 4] = [0x00, 0x00, 0x00, 0xff];
const WHITE: [u8; 4] = [0xff, 0xff, 0xff, 0xff];

fn image_of(width: u32, height: u32, pixels: &[[u8; 4]]) -> DynamicImage {
    let mut buffer = RgbaImage::new(width, height);
    for y in 0..height {
        for x in 0..width {
            buffer.put_pixel(x, y, Rgba(pixels[(y * width + x) as usize]));
        }
    }
    DynamicImage::ImageRgba8(buffer)
}

#[test]
fn extension_gives_way_to_the_suffix() {
    assert_eq!(output_file_name("sprite.png"), "sprite.data");
    assert_eq!(output_file_name("photo.jpg"), "photo.data");
    assert_eq!(output_file_name("archive.tar.png"), "archive.tar.data");
    assert_eq!(output_file_name("noext"), "noext.data");
    assert_eq!(output_file_name(""), ".data");
    assert_eq!(output_file_name(".png"), ".data");
    assert_eq!(output_file_name("trailing."), "trailing.data");
    assert_eq!(output_file_name("h\u{e9}ros.png"), "h\u{e9}ros.data");
}

#[test]
fn rgb332_scenario_single_pixel() {
    let table = LookupTable::new();
    let image = image_of(1, 1, &[[0x24, 0x00, 0x55, 0xff]]);
    let converted = convert_png_to_rgb332(&table, "dot.png", &image, None).unwrap();
    assert_eq!(converted.data, vec![0b001_000_01]);
    assert_eq!(converted.file_name, "dot.data");
}

#[test]
fn rgb332_scenario_transparent_pixel_with_mask() {
    let table = LookupTable::new();
    let image = image_of(1, 1, &[[0x00, 0x00, 0x00, 0x00]]);
    let converted = convert_png_to_rgb332(&table, "hole.png", &image, Some(0b11100011)).unwrap();
    assert_eq!(converted.data, vec![0xe3]);
}

#[test]
fn rgb332_fault_names_the_file_and_the_colour() {
    let table = LookupTable::new();
    let image = image_of(2, 1, &[[0xff, 0xff, 0xff, 0xff], [0x10, 0x20, 0x30, 0x00]]);
    match convert_png_to_rgb332(&table, "hole.png", &image, None) {
        Err(Failure::Fatal { file_name, fault }) => {
            assert_eq!(file_name, "hole.png");
            assert_eq!(
                fault,
                PixelFault { reason: Rejection::TransparentWithoutMask, color: 0x1020_3000 }
            );
        }
        other => panic!("{:?}", other),
    }
}

#[test]
fn rgb332_is_row_by_row() {
    let table = LookupTable::new();
    let image = image_of(2, 2, &[
        [0xff, 0x00, 0x00, 0xff], [0x00, 0xff, 0x00, 0xff],
        [0x00, 0x00, 0xff, 0xff], [0xff, 0xff, 0xff, 0xff],
    ]);
    let converted = convert_png_to_rgb332(&table, "quad.png", &image, None).unwrap();
    assert_eq!(converted.data, vec![0b111_000_00, 0b000_111_00, 0b000_000_11, 0xff]);
}

#[test]
fn monochrome_scenario_two_by_two_is_skipped() {
    let image = image_of(2, 2, &[BLACK, WHITE, BLACK, WHITE]);
    match convert_png_to_bw("small.png", &image) {
        Err(failure) => {
            assert!(!failure.is_fatal());
            assert!(matches!(failure, Failure::Skipped { width: 2 }));
        }
        Ok(converted) => panic!("{:?}", converted),
    }
}

#[test]
fn monochrome_scenario_four_black_four_white() {
    let image = image_of(8, 1, &[BLACK, BLACK, BLACK, BLACK, WHITE, WHITE, WHITE, WHITE]);
    let converted = convert_png_to_bw("bar.png", &image).unwrap();
    assert_eq!(converted.data, vec![0b0000_1111]);
    assert_eq!(converted.file_name, "bar.data");
}

#[test]
fn monochrome_other_pixel_is_fatal() {
    let mut pixels = vec![WHITE; 8];
    pixels[5] = [0x80, 0x80, 0x80, 0xff];
    let image = image_of(8, 1, &pixels);
    match convert_png_to_bw("grey.png", &image) {
        Err(failure) => {
            assert!(failure.is_fatal());
            match failure {
                Failure::Fatal { file_name, fault } => {
                    assert_eq!(file_name, "grey.png");
                    assert_eq!(fault.reason, Rejection::InvalidMonochromePixel);
                    assert_eq!(fault.color, 0x8080_80ff);
                }
                other => panic!("{:?}", other),
            }
        }
        Ok(converted) => panic!("{:?}", converted),
    }
}

#[test]
fn converting_twice_gives_the_same_output() {
    let table = LookupTable::new();
    let pixels = [BLACK, WHITE, BLACK, WHITE, WHITE, WHITE, BLACK, BLACK];
    let first = convert_png_to_bw("a.png", &image_of(8, 1, &pixels)).unwrap();
    let second = convert_png_to_bw("a.png", &image_of(8, 1, &pixels)).unwrap();
    assert_eq!(first.data, second.data);
    assert_eq!(first.file_name, second.file_name);
    let first = convert_png_to_rgb332(&table, "a.png", &image_of(8, 1, &pixels), None).unwrap();
    let second = convert_png_to_rgb332(&table, "a.png", &image_of(8, 1, &pixels), None).unwrap();
    assert_eq!(first.data, second.data);
    assert_eq!(first.file_name, second.file_name);
}

#[test]
fn float_samples_are_left_out_not_fatal() {
    let table = LookupTable::new();
    let mut buffer = Rgba32FImage::new(8, 1);
    buffer.put_pixel(3, 0, Rgba([f32::NAN, f32::NAN, f32::NAN, f32::NAN]));
    let image = DynamicImage::ImageRgba32F(buffer);
    match convert_png_to_rgb332(&table, "hdr.exr", &image, Some(0xe3)) {
        Err(failure) => {
            assert!(!failure.is_fatal());
            assert!(matches!(failure, Failure::FloatSamples));
        }
        Ok(converted) => panic!("{:?}", converted),
    }
    match convert_png_to_bw("hdr.exr", &image) {
        Err(failure) => {
            assert!(!failure.is_fatal());
            assert!(matches!(failure, Failure::FloatSamples));
        }
        Ok(converted) => panic!("{:?}", converted),
    }
}
