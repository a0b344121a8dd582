use ootw_image::assemble::{assemble, crop_logical};
use ootw_image::color::{pack_rgb, to_rgb};
use ootw_image::decoder::decode_image;
use ootw_image::raster::Raster;
use ootw_image::{DecodeError, TiledImage};

// The place in the stream of colours of each pixel of a decoded image that
// is 16 pixels wide and 8 high, row by row.
const WIDE: [[u32; 16]; 8] = [
    [85, 84, 81, 80, 69, 68, 65, 64, 21, 20, 17, 16, 5, 4, 1, 0],
    [87, 86, 83, 82, 71, 70, 67, 66, 23, 22, 19, 18, 7, 6, 3, 2],
    [93, 92, 89, 88, 77, 76, 73, 72, 29, 28, 25, 24, 13, 12, 9, 8],
    [95, 94, 91, 90, 79, 78, 75, 74, 31, 30, 27, 26, 15, 14, 11, 10],
    [117, 116, 113, 112, 101, 100, 97, 96, 53, 52, 49, 48, 37, 36, 33, 32],
    [119, 118, 115, 114, 103, 102, 99, 98, 55, 54, 51, 50, 39, 38, 35, 34],
    [125, 124, 121, 120, 109, 108, 105, 104, 61, 60, 57, 56, 45, 44, 41, 40],
    [127, 126, 123, 122, 111, 110, 107, 106, 63, 62, 59, 58, 47, 46, 43, 42],
];

// The same for an image that is 8 pixels wide and 16 high.
const HIGH: [[u32; 8]; 16] = [
    [21, 20, 17, 16, 5, 4, 1, 0],
    [23, 22, 19, 18, 7, 6, 3, 2],
    [29, 28, 25, 24, 13, 12, 9, 8],
    [31, 30, 27, 26, 15, 14, 11, 10],
    [53, 52, 49, 48, 37, 36, 33, 32],
    [55, 54, 51, 50, 39, 38, 35, 34],
    [61, 60, 57, 56, 45, 44, 41, 40],
    [63, 62, 59, 58, 47, 46, 43, 42],
    [85, 84, 81, 80, 69, 68, 65, 64],
    [87, 86, 83, 82, 71, 70, 67, 66],
    [93, 92, 89, 88, 77, 76, 73, 72],
    [95, 94, 91, 90, 79, 78, 75, 74],
    [117, 116, 113, 112, 101, 100, 97, 96],
    [119, 118, 115, 114, 103, 102, 99, 98],
    [125, 124, 121, 120, 109, 108, 105, 104],
    [127, 126, 123, 122, 111, 110, 107, 106],
];

fn colour(k: u32) -> (u8, u8, u8) {
    ((k + 1) as u8, (255 - k) as u8, ((k * 7) % 256) as u8)
}

fn stream(count: u32) -> Vec<u32> {
    (0..count)
        .map(|k| {
            let (r, g, b) = colour(k);
            pack_rgb(r, g, b)
        })
        .collect()
}

fn footer(width: u16, height: u16, logical_width: u16, logical_height: u16) -> Vec<u8> {
    let mut bytes = vec![0x4Fu8, 0x4F, 0x54, 0x57];
    for field in [width, height, logical_width, logical_height] {
        bytes.push((field & 0xFF) as u8);
        bytes.push((field >> 8) as u8);
    }
    bytes
}

fn capture(colours: &[u32], dims: (u16, u16), logical: (u16, u16)) -> Vec<u8> {
    let mut bytes = Vec::new();
    for &c in colours.iter().rev() {
        let (r, g, b) = to_rgb(c);
        bytes.extend_from_slice(&[b, g, r]);
    }
    bytes.extend_from_slice(&footer(dims.0, dims.1, logical.0, logical.1));
    bytes
}

fn error_of(data: &[u8]) -> Option<DecodeError> {
    decode_image(data).err()
}

fn pixels_of(raster: &Raster) -> Vec<(u8, u8, u8)> {
    let mut out = Vec::new();
    for y in 0..raster.height() {
        for x in 0..raster.width() {
            out.push(raster.pixel(x, y).unwrap());
        }
    }
    out
}

#[test]
fn solid_tile_end_to_end() {
    let data = capture(&vec![0x0033_6699u32; 64], (8, 8), (8, 8));
    assert_eq!(data.len(), 192 + 12);
    let image = decode_image(&data).unwrap();
    assert_eq!((image.full.width(), image.full.height()), (8, 8));
    assert_eq!((image.logical.width(), image.logical.height()), (8, 8));
    assert_eq!(pixels_of(&image.full), vec![(0x33, 0x66, 0x99); 64]);
    assert_eq!(pixels_of(&image.logical), pixels_of(&image.full));
}

#[test]
fn two_tiles_side_by_side() {
    let data = capture(&stream(128), (16, 8), (12, 4));
    let image = decode_image(&data).unwrap();
    assert_eq!((image.full.width(), image.full.height()), (16, 8));
    for y in 0..8u32 {
        for x in 0..16u32 {
            let expected = colour(WIDE[y as usize][x as usize]);
            assert_eq!(image.full.pixel(x, y), Some(expected), "at ({}, {})", x, y);
        }
    }
    // The first colour of the stream ends up in the upper-right corner.
    assert_eq!(image.full.pixel(15, 0), Some(colour(0)));
    assert_eq!(image.full.pixel(0, 0), Some(colour(85)));
}

#[test]
fn logical_image_is_the_upper_left_corner() {
    let data = capture(&stream(128), (16, 8), (12, 4));
    let image = decode_image(&data).unwrap();
    assert_eq!((image.logical.width(), image.logical.height()), (12, 4));
    for y in 0..4u32 {
        for x in 0..12u32 {
            let expected = colour(WIDE[y as usize][x as usize]);
            assert_eq!(image.logical.pixel(x, y), Some(expected));
            assert_eq!(image.logical.pixel(x, y), image.full.pixel(x, y));
        }
    }
    assert_eq!(image.logical.pixel(12, 0), None);
    assert_eq!(image.logical.pixel(0, 4), None);
}

#[test]
fn two_tiles_on_top_of_each_other() {
    let data = capture(&stream(128), (8, 16), (8, 16));
    let image = decode_image(&data).unwrap();
    assert_eq!((image.full.width(), image.full.height()), (8, 16));
    for y in 0..16u32 {
        for x in 0..8u32 {
            let expected = colour(HIGH[y as usize][x as usize]);
            assert_eq!(image.full.pixel(x, y), Some(expected), "at ({}, {})", x, y);
        }
    }
    assert_eq!(pixels_of(&image.logical), pixels_of(&image.full));
}

#[test]
fn reserved_footer_bytes_do_not_matter() {
    let mut a = capture(&stream(64), (8, 8), (8, 8));
    let b = a.clone();
    let n = a.len();
    a[n - 12] = 0;
    a[n - 11] = 0xFF;
    a[n - 10] = 1;
    a[n - 9] = 2;
    let first = decode_image(&a).unwrap();
    let second = decode_image(&b).unwrap();
    assert_eq!(pixels_of(&first.full), pixels_of(&second.full));
}

#[test]
fn empty_logical_image() {
    let data = capture(&stream(64), (8, 8), (0, 0));
    let image = decode_image(&data).unwrap();
    assert_eq!((image.logical.width(), image.logical.height()), (0, 0));
    assert_eq!(image.logical.pixel(0, 0), None);
    assert_eq!((image.full.width(), image.full.height()), (8, 8));
}

#[test]
fn short_buffers_are_malformed() {
    assert_eq!(error_of(&[]), Some(DecodeError::MalformedInput));
    assert_eq!(error_of(&[0u8; 11]), Some(DecodeError::MalformedInput));
}

#[test]
fn footer_without_body_is_malformed() {
    assert_eq!(error_of(&footer(8, 8, 8, 8)), Some(DecodeError::MalformedInput));
    assert_eq!(error_of(&footer(0, 0, 0, 0)), Some(DecodeError::MalformedInput));
}

#[test]
fn ragged_body_is_malformed() {
    let mut data = vec![0u8; 193];
    data.extend_from_slice(&footer(8, 8, 8, 8));
    assert_eq!(error_of(&data), Some(DecodeError::MalformedInput));
    let mut data = vec![0u8; 2];
    data.extend_from_slice(&footer(8, 8, 8, 8));
    assert_eq!(error_of(&data), Some(DecodeError::MalformedInput));
}

#[test]
fn malformed_body_is_reported_before_bad_dimensions() {
    let mut data = vec![0u8; 241];
    data.extend_from_slice(&footer(10, 8, 10, 8));
    assert_eq!(error_of(&data), Some(DecodeError::MalformedInput));
}

#[test]
fn width_ten_is_refused() {
    let data = capture(&stream(80), (10, 8), (10, 8));
    assert_eq!(error_of(&data), Some(DecodeError::InvalidDimensions));
    assert_eq!(TiledImage::new(stream(80), 10, 8).err(), Some(DecodeError::InvalidDimensions));
}

#[test]
fn zero_dimensions_are_refused() {
    let data = capture(&stream(1), (0, 0), (0, 0));
    assert_eq!(error_of(&data), Some(DecodeError::InvalidDimensions));
}

#[test]
fn footer_must_agree_with_the_body() {
    let data = capture(&stream(64), (16, 8), (8, 8));
    assert_eq!(error_of(&data), Some(DecodeError::InvalidDimensions));
    let data = capture(&stream(128), (8, 8), (8, 8));
    assert_eq!(error_of(&data), Some(DecodeError::InvalidDimensions));
}

#[test]
fn logical_size_may_not_exceed_the_full_size() {
    let data = capture(&stream(64), (8, 8), (9, 8));
    assert_eq!(error_of(&data), Some(DecodeError::InvalidDimensions));
    let data = capture(&stream(64), (8, 8), (8, 9));
    assert_eq!(error_of(&data), Some(DecodeError::InvalidDimensions));
    let data = capture(&stream(64), (8, 8), (0xFFFF, 0xFFFF));
    assert_eq!(error_of(&data), Some(DecodeError::InvalidDimensions));
}

#[test]
fn assemble_places_and_mirrors_tiles() {
    let tiled = TiledImage::new(stream(128), 16, 8).unwrap();
    let raster = assemble(&tiled, 16, 8).unwrap();
    assert_eq!((raster.width(), raster.height()), (16, 8));
    for tile in &tiled.tiles {
        for col in 0..8 {
            for row in 0..8 {
                let x = 15 - (tile.offx + col) as u32;
                let y = (tile.offy + row) as u32;
                assert_eq!(raster.pixel(x, y), Some(to_rgb(tile.pixels[col][row])));
            }
        }
    }
}

#[test]
fn assemble_drops_the_unused_top_byte() {
    let colours: Vec<u32> = (0..64).map(|k| 0xFF00_0000 | (k * 0x0001_0203)).collect();
    let tiled = TiledImage::new(colours, 8, 8).unwrap();
    let raster = assemble(&tiled, 8, 8).unwrap();
    // Colour 0 of the stream stays in the tile's corner (0, 0), which the
    // mirror moves to the right edge.
    assert_eq!(raster.pixel(7, 0), Some((0, 0, 0)));
    assert_eq!(raster.pixel(6, 0), Some((1, 2, 3)));
}

#[test]
fn crop_copies_a_corner() {
    let tiled = TiledImage::new(stream(128), 16, 8).unwrap();
    let mut full = assemble(&tiled, 16, 8).unwrap();
    let before = pixels_of(&full);
    let corner = crop_logical(&mut full, 3, 5).unwrap();
    assert_eq!((corner.width(), corner.height()), (3, 5));
    for y in 0..5 {
        for x in 0..3 {
            assert_eq!(corner.pixel(x, y), full.pixel(x, y));
        }
    }
    assert_eq!(pixels_of(&full), before);
    assert_eq!((full.width(), full.height()), (16, 8));
}

#[test]
fn crop_of_the_whole_raster() {
    let tiled = TiledImage::new(stream(64), 8, 8).unwrap();
    let mut full = assemble(&tiled, 8, 8).unwrap();
    let whole = crop_logical(&mut full, 8, 8).unwrap();
    assert_eq!(pixels_of(&whole), pixels_of(&full));
}

#[test]
fn crop_beyond_the_raster_is_refused() {
    let tiled = TiledImage::new(stream(64), 8, 8).unwrap();
    let mut full = assemble(&tiled, 8, 8).unwrap();
    assert_eq!(crop_logical(&mut full, 9, 1).err(), Some(DecodeError::InvalidDimensions));
    assert_eq!(crop_logical(&mut full, 1, 9).err(), Some(DecodeError::InvalidDimensions));
    assert_eq!(
        crop_logical(&mut full, u32::MAX, u32::MAX).err(),
        Some(DecodeError::InvalidDimensions)
    );
}

#[test]
fn pixel_outside_the_raster_is_none() {
    let tiled = TiledImage::new(stream(64), 8, 8).unwrap();
    let raster = assemble(&tiled, 8, 8).unwrap();
    assert!(raster.pixel(7, 7).is_some());
    assert_eq!(raster.pixel(8, 0), None);
    assert_eq!(raster.pixel(0, 8), None);
    assert_eq!(raster.pixel(u32::MAX, u32::MAX), None);
}

#[test]
fn rasters_match_the_image_crate() {
    let tiled = TiledImage::new(stream(256), 16, 16).unwrap();
    let mut expected = image::RgbImage::new(16, 16);
    for tile in &tiled.tiles {
        for col in 0..8 {
            for row in 0..8 {
                let (r, g, b) = to_rgb(tile.pixels[col][row]);
                let x = (tile.offx + col) as u32;
                let y = (tile.offy + row) as u32;
                expected.put_pixel(x, y, image::Rgb([r, g, b]));
            }
        }
    }
    image::imageops::flip_horizontal_in_place(&mut expected);
    let corner = image::imageops::crop(&mut expected, 0, 0, 11, 13).to_image();

    let data = capture(&stream(256), (16, 16), (11, 13));
    let decoded = decode_image(&data).unwrap();
    let full: Vec<(u8, u8, u8)> = expected.pixels().map(|p| (p.0[0], p.0[1], p.0[2])).collect();
    let logical: Vec<(u8, u8, u8)> = corner.pixels().map(|p| (p.0[0], p.0[1], p.0[2])).collect();
    assert_eq!(pixels_of(&decoded.full), full);
    assert_eq!(pixels_of(&decoded.logical), logical);
    assert_eq!(decoded.logical.width(), corner.width());
    assert_eq!(decoded.logical.height(), corner.height());
}
