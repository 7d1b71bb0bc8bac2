//! RGBA sprite-sheet pixels: decoding a source PNG into keyed RGBA, cropping
//! authored rectangles and encoding them, and the text escapes the contact
//! sheet uses.

use vstd::prelude::*;
use vstd::string::StringExecFns;

use crate::directional::{SpriteBackground, SpriteRect};
use crate::text::decimal_text;

verus! {

/// Widest and tallest source sheet accepted, in pixels.
pub const MAX_SOURCE_DIMENSION: u32 = 4096;

/// The color layout of decoded PNG samples.
#[derive(Debug, Clone, Copy, PartialEq, Eq)]
pub enum PngColor {
    Rgb,
    Rgba,
    Grayscale,
    GrayscaleAlpha,
    Indexed,
}

/// The first frame of a PNG as the decoder hands it out.
#[derive(Debug, Clone, PartialEq, Eq)]
pub struct PngFrame {
    pub width: u32,
    pub height: u32,
    /// Bits per sample channel.
    pub bit_depth: u8,
    /// The PNG color type code: 0 gray, 2 RGB, 3 indexed, 4 gray with
    /// alpha, 6 RGBA.
    pub color_type: u8,
    pub samples: Vec<u8>,
}

/// The color layout a PNG color type code names.
pub open spec fn color_of(code: u8) -> PngColor {
    if code == 0 {
        PngColor::Grayscale
    } else if code == 2 {
        PngColor::Rgb
    } else if code == 4 {
        PngColor::GrayscaleAlpha
    } else if code == 6 {
        PngColor::Rgba
    } else {
        PngColor::Indexed
    }
}

/// A decoded sheet: four bytes per pixel, rows top to bottom.
#[derive(Debug, Clone, PartialEq, Eq)]
pub struct RgbaImage {
    pub width: u32,
    pub height: u32,
    pub pixels: Vec<u8>,
}

/// What the PNG decoder reads from a header (with palette expansion and
/// 16-bit stripping requested): the width and height, or its error text.
pub uninterp spec fn png_header_of(bytes: Seq<u8>) -> Result<(u32, u32), Seq<char>>;

/// What the PNG decoder hands out for the first frame of `bytes` (with
/// palette expansion and 16-bit stripping): width, height, bit depth, color
/// type code and samples; or its error text.
pub uninterp spec fn png_frame_of(bytes: Seq<u8>) -> Result<(u32, u32, u8, u8, Seq<u8>), Seq<char>>;

/// The PNG the encoder writes for an eight-bit RGBA image.
pub uninterp spec fn png_encoded(width: u32, height: u32, pixels: Seq<u8>) -> Seq<u8>;

/// A header result with its error text as characters.
pub open spec fn header_view(header: Result<(u32, u32), String>) -> Result<(u32, u32), Seq<char>> {
    match header {
        Ok(h) => Ok(h),
        Err(e) => Err(e@),
    }
}

/// A frame result as plain values, its error text as characters.
pub open spec fn frame_view(frame: Result<PngFrame, String>) -> Result<(u32, u32, u8, u8, Seq<u8>), Seq<char>> {
    match frame {
        Ok(f) => Ok((f.width, f.height, f.bit_depth, f.color_type, f.samples@)),
        Err(e) => Err(e@),
    }
}

/// Wraps `png::Decoder::read_info` on the bytes, with the `EXPAND` and
/// `STRIP_16` transformations, and hands out the header's width and height
/// or the decoding error's text. Claimed: the result is a function of the
/// bytes alone.
#[verifier::external_body]
fn read_png_header(bytes: &[u8]) -> (header: Result<(u32, u32), String>)
    ensures
        header_view(header) == png_header_of(bytes@),
{
    let mut decoder = png::Decoder::new(std::io::Cursor::new(bytes));
    decoder.set_transformations(png::Transformations::EXPAND | png::Transformations::STRIP_16);
    match decoder.read_info() {
        Ok(reader) => Ok((reader.info().width, reader.info().height)),
        Err(error) => Err(error.to_string()),
    }
}

/// Wraps `png::Reader::next_frame` after `read_info` (with `EXPAND` and
/// `STRIP_16`), into a buffer of `output_buffer_size` bytes cut to the
/// frame's `buffer_size`, and hands out the frame's width, height, bit
/// depth and color type (by their `BitDepth` and `ColorType`
/// discriminants) and samples, or the error's text. Claimed: the result is
/// a function of the bytes alone.
#[verifier::external_body]
fn read_png_frame(bytes: &[u8]) -> (frame: Result<PngFrame, String>)
    ensures
        frame_view(frame) == png_frame_of(bytes@),
{
    let mut decoder = png::Decoder::new(std::io::Cursor::new(bytes));
    decoder.set_transformations(png::Transformations::EXPAND | png::Transformations::STRIP_16);
    let mut reader = match decoder.read_info() { Ok(reader) => reader, Err(error) => return Err(error.to_string()) };
    let mut samples = vec![0; reader.output_buffer_size()];
    let output = match reader.next_frame(&mut samples) { Ok(output) => output, Err(error) => return Err(error.to_string()) };
    samples.truncate(output.buffer_size());
    Ok(PngFrame { width: output.width, height: output.height, bit_depth: output.bit_depth as u8, color_type: output.color_type as u8, samples })
}

/// Wraps `png::Encoder` writing an eight-bit RGBA image into memory: header,
/// then `write_image_data` with the pixels. The encoder refuses a zero width
/// or height and pixel data of another length than `width * height * 4`;
/// those are left out. Claimed: the bytes are a function of the arguments.
#[verifier::external_body]
fn write_png_rgba(width: u32, height: u32, pixels: &[u8]) -> (png: Vec<u8>)
    requires
        width > 0,
        height > 0,
        pixels@.len() == width * height * 4,
    ensures
        png@ == png_encoded(width, height, pixels@),
{
    let mut output = Vec::new();
    let mut encoder = png::Encoder::new(&mut output, width, height);
    encoder.set_color(png::ColorType::Rgba);
    encoder.set_depth(png::BitDepth::Eight);
    let mut writer = encoder.write_header().expect("in-memory PNG header");
    writer.write_image_data(pixels).expect("in-memory PNG body");
    drop(writer);
    output
}

} // verus!

verus! {

/// RGBA samples of decoded PNG samples: gray and color gain an opaque alpha,
/// gray is copied to all three color channels; indexed samples have none.
pub open spec fn expanded(color: PngColor, raw: Seq<u8>) -> Option<Seq<u8>> {
    match color {
        PngColor::Rgb => Some(Seq::new((raw.len() / 3 * 4) as nat, |i: int| if i % 4 == 3 { 255u8 } else { raw[i / 4 * 3 + i % 4] })),
        PngColor::Rgba => Some(raw),
        PngColor::Grayscale => Some(Seq::new(raw.len() * 4, |i: int| if i % 4 == 3 { 255u8 } else { raw[i / 4] })),
        PngColor::GrayscaleAlpha => Some(Seq::new((raw.len() / 2 * 4) as nat, |i: int| if i % 4 == 3 { raw[i / 4 * 2 + 1] } else { raw[i / 4 * 2] })),
        PngColor::Indexed => None,
    }
}

/// The pixel (four bytes) starting at `4 * p`.
pub open spec fn pixel_at(pixels: Seq<u8>, p: int) -> Seq<u8> {
    pixels.subrange(4 * p, 4 * p + 4)
}

/// The pixels with every whole pixel that equals a background key made fully
/// transparent; a trailing partial pixel is left as it is.
pub open spec fn keyed_alpha(background: SpriteBackground, pixels: Seq<u8>) -> Seq<u8> {
    Seq::new(
        pixels.len(),
        |i: int| if i % 4 == 3 && i / 4 < pixels.len() / 4 && background.keyed(pixel_at(pixels, i / 4)) {
            0u8
        } else {
            pixels[i]
        },
    )
}

/// The decoded sheet, as width, height and pixels, or the refusal.
pub open spec fn decoded_sheet(bytes: Seq<u8>, background: SpriteBackground) -> Result<(u32, u32, Seq<u8>), Seq<char>> {
    match png_header_of(bytes) {
        Err(e) => Err("PNG header decode failed: "@ + e),
        Ok((w, h)) => if w == 0 || h == 0 || w > MAX_SOURCE_DIMENSION || h > MAX_SOURCE_DIMENSION {
            Err("PNG dimensions "@ + decimal_text(w as int) + "x"@ + decimal_text(h as int) + " exceed 4096 bound"@)
        } else {
            match png_frame_of(bytes) {
                Err(e) => Err("PNG frame decode failed: "@ + e),
                Ok((fw, fh, depth, code, raw)) => if depth != 8 {
                    Err("PNG must decode to 8-bit channels"@)
                } else {
                    match expanded(color_of(code), raw) {
                        None => Err("indexed PNG did not expand to RGB/RGBA"@),
                        Some(pixels) => Ok((fw, fh, keyed_alpha(background, pixels))),
                    }
                },
            }
        },
    }
}

/// An image result as plain values.
pub open spec fn image_view(image: Result<RgbaImage, String>) -> Result<(u32, u32, Seq<u8>), Seq<char>> {
    match image {
        Ok(i) => Ok((i.width, i.height, i.pixels@)),
        Err(e) => Err(e@),
    }
}

/// The pixels of `rect`, row by row.
pub open spec fn rect_pixels(image_width: u32, pixels: Seq<u8>, rect: SpriteRect) -> Seq<u8> {
    Seq::new(
        (rect.width * rect.height * 4) as nat,
        |i: int| pixels[((rect.y + i / (rect.width * 4)) * image_width + rect.x) * 4 + i % (rect.width * 4)],
    )
}

} // verus!

verus! {

/// `pixels` with background-keyed whole pixels made transparent.
fn key_background(pixels: &[u8], background: &SpriteBackground) -> (keyed: Vec<u8>)
    ensures
        keyed@ == keyed_alpha(*background, pixels@),
{
    let n = pixels.len();
    let whole = n / 4;
    let mut keyed: Vec<u8> = Vec::new();
    let mut p: usize = 0;
    while p < whole
        invariant
            n == pixels@.len(),
            whole == n / 4,
            p <= whole,
            keyed@.len() == 4 * p,
            forall|i: int| 0 <= i < 4 * p ==> keyed@[i] == #[trigger] keyed_alpha(*background, pixels@)[i],
        decreases whole - p,
    {
        let base = 4 * p;
        let mut px: Vec<u8> = Vec::new();
        px.push(pixels[base]);
        px.push(pixels[base + 1]);
        px.push(pixels[base + 2]);
        px.push(pixels[base + 3]);
        proof {
            assert(px@ =~= pixel_at(pixels@, p as int));
        }
        let transparent = background.is_key(px.as_slice());
        keyed.push(pixels[base]);
        keyed.push(pixels[base + 1]);
        keyed.push(pixels[base + 2]);
        keyed.push(if transparent { 0u8 } else { pixels[base + 3] });
        proof {
            assert forall|i: int| 0 <= i < 4 * (p + 1) implies keyed@[i] == #[trigger] keyed_alpha(*background, pixels@)[i] by {
                if i >= 4 * p {
                    assert(i / 4 == p);
                }
            }
        }
        p = p + 1;
    }
    let mut i: usize = 4 * whole;
    while i < n
        invariant
            n == pixels@.len(),
            whole == n / 4,
            4 * whole <= i <= n,
            keyed@.len() == i,
            forall|j: int| 0 <= j < i ==> keyed@[j] == #[trigger] keyed_alpha(*background, pixels@)[j],
        decreases n - i,
    {
        keyed.push(pixels[i]);
        proof {
            assert(i / 4 >= whole);
        }
        i = i + 1;
    }
    assert(keyed@ =~= keyed_alpha(*background, pixels@));
    keyed
}

/// The RGBA expansion of decoded samples; `None` for indexed color.
fn expand(color: PngColor, raw: &Vec<u8>) -> (pixels: Option<Vec<u8>>)
    ensures
        pixels matches Some(v) ==> expanded(color, raw@) == Some(v@),
        pixels is None ==> expanded(color, raw@) is None,
{
    let n = raw.len();
    match color {
        PngColor::Rgba => {
            let mut out: Vec<u8> = Vec::new();
            let mut i: usize = 0;
            while i < n
                invariant
                    n == raw@.len(),
                    i <= n,
                    out@ == raw@.take(i as int),
                decreases n - i,
            {
                out.push(raw[i]);
                proof {
                    assert(raw@.take(i + 1) =~= raw@.take(i as int).push(raw@[i as int]));
                }
                i = i + 1;
            }
            assert(raw@.take(n as int) =~= raw@);
            Some(out)
        },
        PngColor::Indexed => None,
        _ => {
            let width: usize = match color {
                PngColor::Rgb => 3,
                PngColor::Grayscale => 1,
                _ => 2,
            };
            let count = n / width;
            let ghost target = expanded(color, raw@).unwrap();
            assert(target.len() == count * 4) by {
                assert(count * 4 == (n / width * 4));
            }
            let mut out: Vec<u8> = Vec::new();
            let mut p: usize = 0;
            while p < count
                invariant
                    n == raw@.len(),
                    width == (match color {
                        PngColor::Rgb => 3usize,
                        PngColor::Grayscale => 1usize,
                        _ => 2usize,
                    }),
                    color != PngColor::Rgba && color != PngColor::Indexed,
                    count == n / width,
                    target == expanded(color, raw@).unwrap(),
                    target.len() == count * 4,
                    p <= count,
                    out@.len() == 4 * p,
                    forall|i: int| 0 <= i < 4 * p ==> out@[i] == #[trigger] target[i],
                decreases count - p,
            {
                proof {
                    assert(p * width + width <= count * width) by (nonlinear_arith)
                        requires
                            p < count,
                            width > 0,
                    ;
                    assert(count * width <= n) by (nonlinear_arith)
                        requires
                            count == n / width,
                            width > 0,
                    ;
                }
                let base = p * width;
                let (r, g, b, a) = match color {
                    PngColor::Rgb => (raw[base], raw[base + 1], raw[base + 2], 255u8),
                    PngColor::Grayscale => (raw[base], raw[base], raw[base], 255u8),
                    _ => (raw[base], raw[base], raw[base], raw[base + 1]),
                };
                out.push(r);
                out.push(g);
                out.push(b);
                out.push(a);
                proof {
                    assert forall|i: int| 0 <= i < 4 * (p + 1) implies out@[i] == #[trigger] target[i] by {
                        if i >= 4 * p {
                            assert(i / 4 == p);
                            assert(i % 4 == i - 4 * p);
                        }
                    }
                }
                p = p + 1;
            }
            assert(out@ =~= target);
            Some(out)
        },
    }
}

} // verus!

verus! {

/// Decodes a source sheet into RGBA pixels, refusing sheets outside
/// `1..=4096` pixels on a side, samples that are not eight-bit and indexed
/// color, and making background-keyed pixels transparent.
pub fn decode_png(bytes: &[u8], background: &SpriteBackground) -> (image: Result<RgbaImage, String>)
    ensures
        image_view(image) == decoded_sheet(bytes@, *background),
{
    let (width, height) = match read_png_header(bytes) {
        Ok(h) => h,
        Err(e) => {
            let mut message = String::from_str("PNG header decode failed: ");
            message.append(e.as_str());
            return Err(message);
        },
    };
    if width == 0 || height == 0 || width > MAX_SOURCE_DIMENSION || height > MAX_SOURCE_DIMENSION {
        let mut message = String::from_str("PNG dimensions ");
        message.append(crate::text::decimal_u64(width as u64).as_str());
        message.append("x");
        message.append(crate::text::decimal_u64(height as u64).as_str());
        message.append(" exceed 4096 bound");
        return Err(message);
    }
    let frame = match read_png_frame(bytes) {
        Ok(f) => f,
        Err(e) => {
            let mut message = String::from_str("PNG frame decode failed: ");
            message.append(e.as_str());
            return Err(message);
        },
    };
    if frame.bit_depth != 8 {
        return Err(String::from_str("PNG must decode to 8-bit channels"));
    }
    let color = match frame.color_type {
        0 => PngColor::Grayscale,
        2 => PngColor::Rgb,
        4 => PngColor::GrayscaleAlpha,
        6 => PngColor::Rgba,
        _ => PngColor::Indexed,
    };
    match expand(color, &frame.samples) {
        None => Err(String::from_str("indexed PNG did not expand to RGB/RGBA")),
        Some(pixels) => {
            let keyed = key_background(pixels.as_slice(), background);
            Ok(RgbaImage { width: frame.width, height: frame.height, pixels: keyed })
        },
    }
}

/// Encodes an RGBA image, with background-keyed pixels made transparent.
pub fn encode_png(width: u32, height: u32, pixels: &[u8], background: &SpriteBackground) -> (png: Vec<u8>)
    requires
        width > 0,
        height > 0,
        pixels@.len() == width * height * 4,
    ensures
        png@ == png_encoded(width, height, keyed_alpha(*background, pixels@)),
{
    let keyed = key_background(pixels, background);
    write_png_rgba(width, height, keyed.as_slice())
}

impl RgbaImage {
    /// The PNG of the pixels inside `rect`, background keys transparent.
    pub fn crop(&self, rect: &SpriteRect, background: &SpriteBackground) -> (png: Vec<u8>)
        requires
            rect.width > 0,
            rect.height > 0,
            rect.x + rect.width <= self.width,
            rect.y + rect.height <= self.height,
            self.width * self.height * 4 <= u32::MAX,
            self.pixels@.len() == self.width * self.height * 4,
        ensures
            png@ == png_encoded(rect.width, rect.height, keyed_alpha(*background, rect_pixels(self.width, self.pixels@, *rect))),
    {
        let ghost target = rect_pixels(self.width, self.pixels@, *rect);
        proof {
            assert(rect.width * 4 <= self.width * 4);
            assert(self.width * 4 <= self.width * self.height * 4) by (nonlinear_arith)
                requires
                    self.height >= 1,
            ;
        }
        let row_bytes = rect.width * 4;
        let mut pixels: Vec<u8> = Vec::new();
        let mut row: u32 = 0;
        while row < rect.height
            invariant
                rect.width > 0,
                row <= rect.height,
                rect.x + rect.width <= self.width,
                rect.y + rect.height <= self.height,
                self.width * self.height * 4 <= u32::MAX,
                self.pixels@.len() == self.width * self.height * 4,
                row_bytes == rect.width * 4,
                target == rect_pixels(self.width, self.pixels@, *rect),
                target.len() == rect.width * rect.height * 4,
                pixels@.len() == row * row_bytes,
                forall|i: int| 0 <= i < pixels@.len() ==> pixels@[i] == #[trigger] target[i],
            decreases rect.height - row,
        {
            let y = rect.y + row;
            proof {
                assert((y * self.width + rect.x + rect.width) * 4 <= self.width * self.height * 4) by (nonlinear_arith)
                    requires
                        y < self.height,
                        rect.x + rect.width <= self.width,
                ;
            }
            let start = (y * self.width + rect.x) * 4;
            let mut k: u32 = 0;
            while k < row_bytes
                invariant
                    rect.width > 0,
                    row < rect.height,
                    y == rect.y + row,
                    start == (y * self.width + rect.x) * 4,
                    start + row_bytes <= self.pixels@.len(),
                    self.pixels@.len() <= u32::MAX,
                    row_bytes == rect.width * 4,
                    target == rect_pixels(self.width, self.pixels@, *rect),
                    target.len() == rect.width * rect.height * 4,
                    k <= row_bytes,
                    pixels@.len() == row * row_bytes + k,
                    forall|i: int| 0 <= i < pixels@.len() ==> pixels@[i] == #[trigger] target[i],
                decreases row_bytes - k,
            {
                let ghost at = (row * row_bytes + k) as int;
                proof {
                    assert(at < target.len()) by (nonlinear_arith)
                        requires
                            at == row * row_bytes + k,
                            k < row_bytes,
                            row < rect.height,
                            row_bytes == rect.width * 4,
                            target.len() == rect.width * rect.height * 4,
                    ;
                    assert(at / (rect.width * 4) == row as int && at % (rect.width * 4) == k as int) by (nonlinear_arith)
                        requires
                            at == row * row_bytes + k,
                            k < row_bytes,
                            row_bytes == rect.width * 4,
                            rect.width > 0,
                    ;
                }
                pixels.push(self.pixels[(start + k) as usize]);
                k = k + 1;
            }
            proof {
                assert((row + 1) * row_bytes == row * row_bytes + row_bytes) by (nonlinear_arith);
            }
            row = row + 1;
        }
        proof {
            assert(rect.height * (rect.width * 4) == rect.width * rect.height * 4) by (nonlinear_arith);
            assert(pixels@ =~= target);
        }
        encode_png(rect.width, rect.height, pixels.as_slice(), background)
    }
}

} // verus!

verus! {

/// A character as XML text: `&`, `<`, `>` and `"` become entities.
pub open spec fn escaped_char(c: char) -> Seq<char> {
    if c == '&' {
        "&amp;"@
    } else if c == '<' {
        "&lt;"@
    } else if c == '>' {
        "&gt;"@
    } else if c == '"' {
        "&quot;"@
    } else {
        seq![c]
    }
}

pub open spec fn escaped(s: Seq<char>) -> Seq<char>
    decreases s.len(),
{
    if s.len() == 0 {
        Seq::empty()
    } else {
        escaped(s.drop_last()) + escaped_char(s.last())
    }
}

/// The text with XML's special characters replaced by entities.
pub fn escape_xml(value: &str) -> (text: String)
    ensures
        text@ == escaped(value@),
{
    let n = value.unicode_len();
    let mut text = String::new();
    let mut i: usize = 0;
    while i < n
        invariant
            n == value@.len(),
            i <= n,
            text@ == escaped(value@.take(i as int)),
        decreases n - i,
    {
        let c = value.get_char(i);
        if c == '&' {
            text.append("&amp;");
        } else if c == '<' {
            text.append("&lt;");
        } else if c == '>' {
            text.append("&gt;");
        } else if c == '"' {
            text.append("&quot;");
        } else {
            let one = value.substring_char(i, i + 1);
            proof {
                assert(one@ =~= seq![c]);
            }
            text.append(one);
        }
        proof {
            assert(value@.take(i + 1).drop_last() =~= value@.take(i as int));
        }
        i = i + 1;
    }
    assert(value@.take(n as int) =~= value@);
    text
}

/// The media type a data URI gets for a file name.
pub open spec fn media_type(path: Seq<char>) -> Seq<char> {
    if path.len() >= 4 && path.subrange(path.len() - 4, path.len() as int) == ".svg"@ {
        "image/svg+xml"@
    } else {
        "image/png"@
    }
}

/// `data:<media type>;base64,<bytes in base64>`.
pub fn data_uri(path: &str, bytes: &[u8]) -> (uri: String)
    ensures
        uri@ == "data:"@ + media_type(path@) + ";base64,"@ + crate::text::ascii_chars(crate::base64::spec_encode(bytes@)),
{
    let n = path.unicode_len();
    let svg = n >= 4 && crate::text::text_equals(path.substring_char(n - 4, n), ".svg");
    let mut uri = String::from_str("data:");
    if svg {
        uri.append("image/svg+xml");
    } else {
        uri.append("image/png");
    }
    uri.append(";base64,");
    uri.append(crate::base64::encode(bytes).as_str());
    uri
}

} // verus!
