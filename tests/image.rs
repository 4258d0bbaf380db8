use rays::image::{ImageError, Rgb8, Texture};
use rays::target::RenderTarget;

fn px(r: u8, g: u8, b: u8) -> Rgb8 {
    Rgb8 { r, g, b }
}

#[test]
fn clear_color_fills_every_pixel() {
    let t = RenderTarget::with_clear_color(3, 2, &7u32);
    assert_eq!(t.width, 3);
    assert_eq!(t.height, 2);
    assert_eq!(t.data, vec![7; 6]);
}

#[test]
fn set_pixel_writes_one_position() {
    let mut t = RenderTarget::with_clear_color(3, 2, &0u32);
    t.set_pixel(2, 1, 9);
    t.set_pixel(0, 1, 4);
    assert_eq!(t.data, vec![0, 0, 0, 4, 0, 9]);
    assert_eq!(t.get_pixel(2, 1), 9);
    assert_eq!(t.get_pixel(1, 0), 0);
}

#[test]
fn rows_join_top_first() {
    let t = RenderTarget::from_rows(2, vec![vec![1u8, 2], vec![3, 4], vec![5, 6]]);
    assert_eq!(t.height, 3);
    assert_eq!(t.data, vec![1, 2, 3, 4, 5, 6]);
    assert_eq!(t.get_pixel(1, 2), 6);
}

#[test]
fn ppm_header_and_bytes() {
    let t = RenderTarget::from_rows(2, vec![vec![px(1, 2, 3), px(4, 5, 6)]]);
    let ppm = t.to_ppm();
    let mut expected = b"P6 2 1 255\n".to_vec();
    expected.extend_from_slice(&[1, 2, 3, 4, 5, 6]);
    assert_eq!(ppm, expected);
}

#[test]
fn ppm_header_multi_digit_sizes() {
    let t = RenderTarget::with_clear_color(120, 10, &px(0, 0, 0));
    let ppm = t.to_ppm();
    assert!(ppm.starts_with(b"P6 120 10 255\n"));
    assert_eq!(ppm.len(), 14 + 3 * 1200);
}

#[test]
fn png_round_trip() {
    let t = RenderTarget::from_rows(2, vec![vec![px(255, 0, 0), px(0, 255, 0)], vec![px(0, 0, 255), px(9, 8, 7)]]);
    let png = t.to_png().unwrap();
    assert_eq!(&png[1..4], b"PNG");
    let tex = Texture::from_png_24(&png).unwrap();
    assert_eq!(tex.width, 2);
    assert_eq!(tex.height, 2);
    assert_eq!(tex.rgb, t.to_rgb_bytes());
    assert_eq!(tex.texel(1, 1), px(9, 8, 7));
}

#[test]
fn broken_png_is_codec_error() {
    assert_eq!(Texture::from_png_24(&vec![1, 2, 3]).err(), Some(ImageError::Codec));
}

#[test]
fn decoded_texture_size_checks() {
    assert_eq!(Texture::from_decoded(vec![], 0, 1).err(), Some(ImageError::BadSize));
    assert_eq!(Texture::from_decoded(vec![0; 5], 1, 2).err(), Some(ImageError::BadSize));
    assert!(Texture::from_decoded(vec![0; 6], 1, 2).is_ok());
}

#[test]
fn texel_clamps_to_last_row_and_column() {
    let rgb: Vec<u8> = (0..12).collect();
    let tex = Texture::from_decoded(rgb, 2, 2).unwrap();
    assert_eq!(tex.texel(0, 0), px(0, 1, 2));
    assert_eq!(tex.texel(1, 0), px(3, 4, 5));
    assert_eq!(tex.texel(0, 1), px(6, 7, 8));
    assert_eq!(tex.texel(5, 7), px(9, 10, 11));
}
