use voxel_lab::directional::{SpriteBackground, SpriteRect};
use voxel_lab::raster::{data_uri, decode_png, encode_png, escape_xml, RgbaImage};

fn png_bytes(width: u32, height: u32, color: png::ColorType, samples: &[u8]) -> Vec<u8> {
    let mut output = Vec::new();
    let mut encoder = png::Encoder::new(&mut output, width, height);
    encoder.set_color(color);
    encoder.set_depth(png::BitDepth::Eight);
    let mut writer = encoder.write_header().expect("header");
    writer.write_image_data(samples).expect("body");
    drop(writer);
    output
}

fn magenta_key() -> SpriteBackground {
    SpriteBackground { color_key: Some([255, 0, 255, 255]), color_keys: vec![] }
}

#[test]
fn decoding_expands_rgb_and_keys_the_background() {
    let bytes = png_bytes(2, 1, png::ColorType::Rgb, &[255, 0, 255, 10, 20, 30]);
    let image = decode_png(&bytes, &magenta_key()).expect("decoded");
    assert_eq!((image.width, image.height), (2, 1));
    assert_eq!(image.pixels, vec![255, 0, 255, 0, 10, 20, 30, 255]);
}

#[test]
fn decoding_expands_gray_with_and_without_alpha() {
    let gray = png_bytes(2, 1, png::ColorType::Grayscale, &[7, 9]);
    let image = decode_png(&gray, &SpriteBackground::default()).expect("gray");
    assert_eq!(image.pixels, vec![7, 7, 7, 255, 9, 9, 9, 255]);
    let gray_alpha = png_bytes(1, 1, png::ColorType::GrayscaleAlpha, &[5, 128]);
    let image = decode_png(&gray_alpha, &SpriteBackground::default()).expect("gray alpha");
    assert_eq!(image.pixels, vec![5, 5, 5, 128]);
}

#[test]
fn decoding_refuses_malformed_bytes() {
    let error = decode_png(b"not a png", &SpriteBackground::default()).unwrap_err();
    assert!(error.starts_with("PNG header decode failed: "), "{error}");
}

#[test]
fn crops_encode_the_selected_rectangle() {
    let pixels: Vec<u8> = (0u8..16).flat_map(|p| [p, p, p, 255]).collect();
    let image = RgbaImage { width: 4, height: 4, pixels };
    let rect = SpriteRect { x: 1, y: 2, width: 2, height: 1 };
    let cropped = image.crop(&rect, &SpriteBackground::default());
    let decoded = decode_png(&cropped, &SpriteBackground::default()).expect("crop decodes");
    assert_eq!((decoded.width, decoded.height), (2, 1));
    assert_eq!(decoded.pixels, vec![9, 9, 9, 255, 10, 10, 10, 255]);
}

#[test]
fn encoding_makes_keyed_pixels_transparent() {
    let encoded = encode_png(2, 1, &[255, 0, 255, 255, 1, 2, 3, 255], &magenta_key());
    let decoded = decode_png(&encoded, &SpriteBackground::default()).expect("decodes");
    assert_eq!(decoded.pixels, vec![255, 0, 255, 0, 1, 2, 3, 255]);
}

#[test]
fn xml_text_is_escaped() {
    assert_eq!(escape_xml("a<b & \"c\">"), "a&lt;b &amp; &quot;c&quot;&gt;");
    assert_eq!(escape_xml("plain — text"), "plain — text");
}

#[test]
fn data_uris_name_the_media_type() {
    assert_eq!(data_uri("render.svg", b"<svg/>"), "data:image/svg+xml;base64,PHN2Zy8+");
    assert_eq!(data_uri("crop.png", &[1, 2, 3]), "data:image/png;base64,AQID");
}
