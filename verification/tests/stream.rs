use ootw_image::color::{pack_rgb, to_rgb};
use ootw_image::stream::decode_pixels;
use ootw_image::DecodeError;

#[test]
fn pack_puts_red_on_top() {
    assert_eq!(pack_rgb(0x12, 0x34, 0x56), 0x0012_3456);
    assert_eq!(pack_rgb(0, 0, 0), 0);
    assert_eq!(pack_rgb(255, 255, 255), 0x00FF_FFFF);
    assert_eq!(pack_rgb(1, 0, 0), 65536);
    assert_eq!(pack_rgb(0, 1, 0), 256);
    assert_eq!(pack_rgb(0, 0, 1), 1);
}

#[test]
fn split_reads_three_channels() {
    assert_eq!(to_rgb(0x0012_3456), (0x12, 0x34, 0x56));
    assert_eq!(to_rgb(0), (0, 0, 0));
    assert_eq!(to_rgb(0x00FF_FFFF), (255, 255, 255));
}

#[test]
fn split_ignores_the_top_byte() {
    assert_eq!(to_rgb(0xAB12_3456), (0x12, 0x34, 0x56));
    assert_eq!(to_rgb(0xFF00_0000), (0, 0, 0));
}

#[test]
fn split_undoes_pack() {
    for &(r, g, b) in &[(0u8, 0u8, 0u8), (1, 2, 3), (255, 0, 128), (17, 255, 254)] {
        assert_eq!(to_rgb(pack_rgb(r, g, b)), (r, g, b));
    }
}

#[test]
fn pixels_come_out_in_reverse() {
    let (b0, g0, r0) = (0x01u8, 0x02u8, 0x03u8);
    let (b1, g1, r1) = (0x11u8, 0x12u8, 0x13u8);
    let body = [b0, g0, r0, b1, g1, r1];
    let pixels = decode_pixels(&body).unwrap();
    assert_eq!(pixels, vec![pack_rgb(r1, g1, b1), pack_rgb(r0, g0, b0)]);
    assert_eq!(pixels, vec![0x0013_1211, 0x0003_0201]);
}

#[test]
fn single_pixel_body() {
    assert_eq!(decode_pixels(&[0x56, 0x34, 0x12]), Ok(vec![0x0012_3456]));
}

#[test]
fn three_pixel_body() {
    let body = [1u8, 2, 3, 4, 5, 6, 7, 8, 9];
    assert_eq!(decode_pixels(&body), Ok(vec![0x0009_0807, 0x0006_0504, 0x0003_0201]));
}

#[test]
fn body_must_be_whole_pixels() {
    assert_eq!(decode_pixels(&[]), Err(DecodeError::MalformedInput));
    assert_eq!(decode_pixels(&[1]), Err(DecodeError::MalformedInput));
    assert_eq!(decode_pixels(&[1, 2]), Err(DecodeError::MalformedInput));
    assert_eq!(decode_pixels(&[1, 2, 3, 4]), Err(DecodeError::MalformedInput));
    assert_eq!(decode_pixels(&[1, 2, 3, 4, 5]), Err(DecodeError::MalformedInput));
}
