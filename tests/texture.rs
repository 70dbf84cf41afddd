use mari_formats::{TextureError, TextureRGBA8};

fn encode_rgba(width: u32, height: u32, pixels: &[u8]) -> Vec<u8> {
    let mut out = Vec::new();
    {
        let mut enc = png::Encoder::new(&mut out, width, height);
        enc.set_color(png::ColorType::Rgba);
        enc.set_depth(png::BitDepth::Eight);
        let mut w = enc.write_header().unwrap();
        w.write_image_data(pixels).unwrap();
    }
    out
}

#[test]
fn four_by_four_png_decodes() {
    let pixels: Vec<u8> = (0..64u8).collect();
    let t = TextureRGBA8::new_from_png(&encode_rgba(4, 4, &pixels)).unwrap();
    assert_eq!(t.width, 4);
    assert_eq!(t.data.len(), 64);
    assert_eq!(t.height(), 4);
    assert_eq!(t.data, pixels);
}

#[test]
fn wide_png_is_a_dimension_error() {
    let pixels = vec![0u8; 70000 * 4];
    let r = TextureRGBA8::new_from_png(&encode_rgba(70000, 1, &pixels));
    assert!(matches!(r, Err(TextureError::WidthTooLarge)));
}

#[test]
fn tall_png_is_a_dimension_error() {
    let pixels = vec![0u8; 70000 * 4];
    let r = TextureRGBA8::new_from_png(&encode_rgba(1, 70000, &pixels));
    assert!(matches!(r, Err(TextureError::HeightTooLarge)));
}

#[test]
fn corrupt_png_is_a_codec_error() {
    let r = TextureRGBA8::new_from_png(b"not a png image");
    assert!(matches!(r, Err(TextureError::Png(_))));
}

#[test]
fn decoded_width_70000_is_rejected() {
    let r = TextureRGBA8::from_decoded(70000, 4, 4, vec![0; 70000 * 4 * 4]);
    assert!(matches!(r, Err(TextureError::WidthTooLarge)));
}

#[test]
fn decoded_height_70000_is_rejected() {
    let r = TextureRGBA8::from_decoded(4, 70000, 4, vec![0; 4 * 70000 * 4]);
    assert!(matches!(r, Err(TextureError::HeightTooLarge)));
}

#[test]
fn largest_width_is_accepted() {
    let t = TextureRGBA8::from_decoded(65535, 1, 4, vec![7; 65535 * 4]).unwrap();
    assert_eq!(t.width, 65535);
    assert_eq!(t.data.len(), 65535 * 4);
    assert_eq!(t.height(), 1);
}

#[test]
fn decoded_rgba_is_kept() {
    let pixels: Vec<u8> = (0..16u8).collect();
    let t = TextureRGBA8::from_decoded(2, 2, 4, pixels.clone()).unwrap();
    assert_eq!(t.data, pixels);
    assert_eq!(t.height(), 2);
}

#[test]
fn decoded_grey_alpha_is_widened() {
    let t = TextureRGBA8::from_decoded(2, 1, 2, vec![10, 200, 30, 40]).unwrap();
    assert_eq!(t.data, vec![10, 10, 10, 200, 30, 30, 30, 40]);
    assert_eq!(t.height(), 1);
}

#[test]
fn zero_width_texture_has_no_rows() {
    let t = TextureRGBA8::from_decoded(0, 5, 4, vec![]).unwrap();
    assert!(t.data.is_empty());
    assert_eq!(t.height(), 0);
}

fn encode(width: u32, height: u32, color: png::ColorType, depth: png::BitDepth, pixels: &[u8]) -> Vec<u8> {
    let mut out = Vec::new();
    {
        let mut enc = png::Encoder::new(&mut out, width, height);
        enc.set_color(color);
        enc.set_depth(depth);
        let mut w = enc.write_header().unwrap();
        w.write_image_data(pixels).unwrap();
    }
    out
}

#[test]
fn rgb_png_gets_opaque_alpha() {
    let bytes = encode(2, 1, png::ColorType::Rgb, png::BitDepth::Eight, &[1, 2, 3, 4, 5, 6]);
    let t = TextureRGBA8::new_from_png(&bytes).unwrap();
    assert_eq!(t.data, vec![1, 2, 3, 255, 4, 5, 6, 255]);
    assert_eq!(t.height(), 1);
}

#[test]
fn grey_png_becomes_rgba() {
    let bytes = encode(2, 2, png::ColorType::Grayscale, png::BitDepth::Eight, &[0, 50, 100, 150]);
    let t = TextureRGBA8::new_from_png(&bytes).unwrap();
    assert_eq!(t.data.len(), 16);
    assert_eq!(&t.data[4..8], &[50, 50, 50, 255]);
    assert_eq!(t.height(), 2);
}

#[test]
fn sixteen_bit_png_is_stripped_to_eight() {
    let pixels = [0x12, 0x34, 0x56, 0x78, 0x9a, 0xbc, 0xde, 0xf0];
    let bytes = encode(1, 1, png::ColorType::Rgba, png::BitDepth::Sixteen, &pixels);
    let t = TextureRGBA8::new_from_png(&bytes).unwrap();
    assert_eq!(t.data, vec![0x12, 0x56, 0x9a, 0xde]);
    assert_eq!(t.height(), 1);
}
