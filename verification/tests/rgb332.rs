use rgba8888_to_rgb332::lookup::LookupTable;
use rgba8888_to_rgb332::pixel::{pack_rgba, PixelFault, Rejection};
use rgba8888_to_rgb332::raster::Raster;
use rgba8888_to_rgb332::rgb332::{encode_pixel, encode_rgb332};

#[test]
fn packed_colour_has_red_on_top() {
    assert_eq!(pack_rgba(&[0x12, 0x34, 0x56, 0x78]), 0x1234_5678);
    assert_eq!(pack_rgba(&[0xff, 0x00, 0x00, 0x00]), 0xff00_0000);
    assert_eq!(pack_rgba(&[0x00, 0x00, 0x00, 0xff]), 0x0000_00ff);
    assert_eq!(pack_rgba(&[0x24, 0x00, 0x55, 0xff]), 0x2400_55ff);
}

#[test]
fn single_supported_pixel_without_mask() {
    let table = LookupTable::new();
    let raster = Raster::new(1, 1, vec![[0x24, 0x00, 0x55, 0xff]]).unwrap();
    assert_eq!(encode_rgb332(&table, &raster, None), Ok(vec![0b001_000_01]));
}

#[test]
fn single_transparent_pixel_takes_the_mask() {
    let table = LookupTable::new();
    let raster = Raster::new(1, 1, vec![[0x00, 0x00, 0x00, 0x00]]).unwrap();
    assert_eq!(encode_rgb332(&table, &raster, Some(0b11100011)), Ok(vec![0xe3]));
}

#[test]
fn transparent_pixel_without_mask_is_a_fault() {
    let table = LookupTable::new();
    let raster = Raster::new(1, 1, vec![[0x12, 0x34, 0x56, 0x00]]).unwrap();
    assert_eq!(
        encode_rgb332(&table, &raster, None),
        Err(PixelFault { reason: Rejection::TransparentWithoutMask, color: 0x1234_5600 })
    );
}

#[test]
fn partial_transparency_is_a_fault_with_or_without_mask() {
    let table = LookupTable::new();
    let raster = Raster::new(1, 1, vec![[0x24, 0x00, 0x55, 0x80]]).unwrap();
    let fault = PixelFault { reason: Rejection::PartialTransparency, color: 0x2400_5580 };
    assert_eq!(encode_rgb332(&table, &raster, None), Err(fault));
    assert_eq!(encode_rgb332(&table, &raster, Some(0xe3)), Err(fault));
}

#[test]
fn unsupported_channel_is_a_fault_with_or_without_mask() {
    let table = LookupTable::new();
    let raster = Raster::new(1, 1, vec![[0x25, 0x00, 0x55, 0xff]]).unwrap();
    let fault = PixelFault { reason: Rejection::UnsupportedChannel, color: 0x2500_55ff };
    assert_eq!(encode_rgb332(&table, &raster, None), Err(fault));
    assert_eq!(encode_rgb332(&table, &raster, Some(0xe3)), Err(fault));
}

#[test]
fn bytes_come_in_raster_order() {
    let table = LookupTable::new();
    let pixels = vec![
        [0xff, 0x00, 0x00, 0xff], [0x00, 0xff, 0x00, 0xff], [0x00, 0x00, 0xff, 0xff],
        [0x00, 0x00, 0x00, 0x00], [0x24, 0x24, 0x55, 0xff], [0xff, 0xff, 0xff, 0xff],
    ];
    let raster = Raster::new(3, 2, pixels.clone()).unwrap();
    let expected = vec![0b111_000_00, 0b000_111_00, 0b000_000_11, 0x5a, 0b001_001_01, 0xff];
    assert_eq!(encode_rgb332(&table, &raster, Some(0x5a)), Ok(expected.clone()));
    let tall = Raster::new(2, 3, pixels).unwrap();
    assert_eq!(encode_rgb332(&table, &tall, Some(0x5a)), Ok(expected));
}

#[test]
fn rgb332_first_fault_in_raster_order_is_reported() {
    let table = LookupTable::new();
    let pixels = vec![
        [0xff, 0x00, 0x00, 0xff], [0x01, 0x00, 0x00, 0xff],
        [0x00, 0x00, 0x00, 0x00], [0x00, 0x00, 0x00, 0x7f],
    ];
    let raster = Raster::new(2, 2, pixels).unwrap();
    assert_eq!(
        encode_rgb332(&table, &raster, None),
        Err(PixelFault { reason: Rejection::UnsupportedChannel, color: 0x0100_00ff })
    );
}

#[test]
fn empty_raster_has_an_empty_encoding() {
    let table = LookupTable::new();
    let raster = Raster::new(0, 0, Vec::new()).unwrap();
    assert_eq!(encode_rgb332(&table, &raster, None), Ok(Vec::new()));
}

#[test]
fn one_pixel_at_a_time() {
    let table = LookupTable::new();
    assert_eq!(encode_pixel(&table, &[0xdb, 0xb6, 0xaa, 0xff], None), Ok(0b110_101_10));
    assert_eq!(encode_pixel(&table, &[0xdb, 0xb6, 0xaa, 0x00], Some(7)), Ok(7));
    assert_eq!(
        encode_pixel(&table, &[0xdb, 0xb6, 0xaa, 0x00], None),
        Err(Rejection::TransparentWithoutMask)
    );
    assert_eq!(
        encode_pixel(&table, &[0xdb, 0xb6, 0xaa, 0x01], Some(7)),
        Err(Rejection::PartialTransparency)
    );
    assert_eq!(
        encode_pixel(&table, &[0xdb, 0xb6, 0xab, 0xff], Some(7)),
        Err(Rejection::UnsupportedChannel)
    );
}

#[test]
fn encoding_twice_gives_the_same_bytes() {
    let table = LookupTable::new();
    let pixels = vec![[0x49, 0x92, 0x55, 0xff], [0x00, 0x00, 0x00, 0x00]];
    let first = encode_rgb332(&table, &Raster::new(2, 1, pixels.clone()).unwrap(), Some(0xe3));
    let second = encode_rgb332(&LookupTable::new(), &Raster::new(2, 1, pixels).unwrap(), Some(0xe3));
    assert_eq!(first, second);
    assert_eq!(first, Ok(vec![0b010_100_01, 0xe3]));
}
