use rgba8888_to_rgb332::monochrome::{
    classify, encode_monochrome, encoded_len, MonochromeError,
};
use rgba8888_to_rgb332::pixel::{PixelFault, Rejection};
use rgba8888_to_rgb332::raster::Raster;

const BLACK: [u8; 4] = [0x00, 0x00, 0x00, 0xff];
const WHITE: [u8; 4] = [0xff, 0xff, 0xff, 0xff];

fn invalid(color: u32) -> MonochromeError {
    MonochromeError::Rejected(PixelFault { reason: Rejection::InvalidMonochromePixel, color })
}

#[test]
fn two_by_two_is_left_out() {
    let raster = Raster::new(2, 2, vec![BLACK, WHITE, BLACK, WHITE]).unwrap();
    assert_eq!(
        encode_monochrome(&raster),
        Err(MonochromeError::WidthNotDivisibleByEight { width: 2 })
    );
}

#[test]
fn four_black_then_four_white() {
    let pixels = vec![BLACK, BLACK, BLACK, BLACK, WHITE, WHITE, WHITE, WHITE];
    let raster = Raster::new(8, 1, pixels).unwrap();
    assert_eq!(encode_monochrome(&raster), Ok(vec![0b0000_1111]));
}

#[test]
fn alternating_columns_starting_with_white() {
    let mut pixels = Vec::new();
    for _y in 0..3 {
        for x in 0..16 {
            pixels.push(if x % 2 == 0 { WHITE } else { BLACK });
        }
    }
    let raster = Raster::new(16, 3, pixels).unwrap();
    let bytes = encode_monochrome(&raster).unwrap();
    assert_eq!(bytes[0], 0b1010_1010);
    assert_eq!(bytes, vec![0b1010_1010; 6]);
}

#[test]
fn each_pixel_has_its_own_bit() {
    for y in 0..2u32 {
        for x in 0..16u32 {
            let mut pixels = vec![BLACK; 32];
            pixels[(y * 16 + x) as usize] = WHITE;
            let raster = Raster::new(16, 2, pixels).unwrap();
            let mut expected = vec![0u8; 4];
            expected[(y * 2 + x / 8) as usize] = 0b1000_0000 >> (x % 8);
            assert_eq!(encode_monochrome(&raster), Ok(expected));
        }
    }
}

#[test]
fn length_is_an_eighth_of_the_pixels() {
    let raster = Raster::new(24, 5, vec![WHITE; 120]).unwrap();
    assert_eq!(encode_monochrome(&raster), Ok(vec![0xff; 15]));
    let raster = Raster::new(8, 0, Vec::new()).unwrap();
    assert_eq!(encode_monochrome(&raster), Ok(Vec::new()));
    let raster = Raster::new(0, 4, Vec::new()).unwrap();
    assert_eq!(encode_monochrome(&raster), Ok(Vec::new()));
}

#[test]
fn other_colour_is_a_fault() {
    let mut pixels = vec![BLACK; 8];
    pixels[3] = [0xff, 0x00, 0x00, 0xff];
    let raster = Raster::new(8, 1, pixels).unwrap();
    assert_eq!(encode_monochrome(&raster), Err(invalid(0xff00_00ff)));
}

#[test]
fn any_transparency_is_a_fault() {
    let mut pixels = vec![WHITE; 8];
    pixels[7] = [0xff, 0xff, 0xff, 0x00];
    let raster = Raster::new(8, 1, pixels).unwrap();
    assert_eq!(encode_monochrome(&raster), Err(invalid(0xffff_ff00)));
    let mut pixels = vec![WHITE; 8];
    pixels[0] = [0x00, 0x00, 0x00, 0xfe];
    let raster = Raster::new(8, 1, pixels).unwrap();
    assert_eq!(encode_monochrome(&raster), Err(invalid(0x0000_00fe)));
}

#[test]
fn monochrome_first_fault_in_raster_order_is_reported() {
    let mut pixels = vec![BLACK; 16];
    pixels[9] = [0x01, 0x02, 0x03, 0xff];
    pixels[12] = [0x04, 0x05, 0x06, 0xff];
    let raster = Raster::new(8, 2, pixels).unwrap();
    assert_eq!(encode_monochrome(&raster), Err(invalid(0x0102_03ff)));
}

#[test]
fn width_is_judged_before_any_pixel() {
    let raster = Raster::new(3, 1, vec![[1, 2, 3, 4]; 3]).unwrap();
    assert_eq!(
        encode_monochrome(&raster),
        Err(MonochromeError::WidthNotDivisibleByEight { width: 3 })
    );
    let raster = Raster::new(9, 0, Vec::new()).unwrap();
    assert_eq!(
        encode_monochrome(&raster),
        Err(MonochromeError::WidthNotDivisibleByEight { width: 9 })
    );
}

#[test]
fn classify_tells_the_two_colours() {
    assert_eq!(classify(&BLACK), Some(false));
    assert_eq!(classify(&WHITE), Some(true));
    assert_eq!(classify(&[0x00, 0x00, 0x00, 0x00]), None);
    assert_eq!(classify(&[0xff, 0xff, 0xff, 0xfe]), None);
    assert_eq!(classify(&[0xff, 0xff, 0x00, 0xff]), None);
    assert_eq!(classify(&[0x00, 0x01, 0x00, 0xff]), None);
}

#[test]
fn encoded_len_is_rows_of_eighths() {
    assert_eq!(encoded_len(8, 1), Some(1));
    assert_eq!(encoded_len(24, 5), Some(15));
    assert_eq!(encoded_len(0, 9), Some(0));
    assert_eq!(encoded_len(16, 0), Some(0));
    assert_eq!(encoded_len(2, 2), None);
    assert_eq!(encoded_len(9, 0), None);
    assert_eq!(encoded_len(0xffff_fff8, u32::MAX), Some(0x1fff_ffff * 0xffff_ffff));
}
