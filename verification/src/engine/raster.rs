//! Pixel rasters with known dimensions.
//!
//! A `Frame` pairs an RGB pixel buffer with its width and height as plain
//! values, so the composition geometry can be reasoned about while the pixel
//! work itself is done by the `image` and `imageproc` crates. The fields are
//! private: only the trusted constructors below build a `Frame`, and each
//! keeps the recorded dimensions equal to the buffer's real ones.

use vstd::prelude::*;

use crate::models::error::HandlerError;

verus! {

#[verifier::external_type_specification]
#[verifier::external_body]
pub struct ExDynamicImage(image::DynamicImage);

/// A big-endian 32-bit value read from four bytes.
pub open spec fn be_u32_at(bytes: Seq<u8>, i: int) -> int {
    (bytes[i] as int) * 0x1000000 + (bytes[i + 1] as int) * 0x10000 + (bytes[i + 2] as int) * 0x100
        + (bytes[i + 3] as int)
}

/// The width recorded in a PNG stream: the big-endian field at its fixed
/// position in the IHDR header (after the 8-byte signature and the chunk
/// length and type), which is what a decoder reads back.
pub open spec fn png_width_of(bytes: Seq<u8>) -> int {
    be_u32_at(bytes, 16)
}

/// The height recorded in a PNG stream, directly after the width field.
pub open spec fn png_height_of(bytes: Seq<u8>) -> int {
    be_u32_at(bytes, 20)
}

/// An RGB raster together with its dimensions as plain values.
pub struct Frame {
    buf: image::DynamicImage,
    width: u32,
    height: u32,
}

impl Frame {
    pub closed spec fn width_spec(&self) -> u32 {
        self.width
    }

    pub closed spec fn height_spec(&self) -> u32 {
        self.height
    }

    pub fn width(&self) -> (w: u32)
        ensures
            w == self.width_spec(),
    {
        self.width
    }

    pub fn height(&self) -> (h: u32)
        ensures
            h == self.height_spec(),
    {
        self.height
    }
}

/// Whether `rusttype::Font::try_from_vec` accepts these bytes as a font:
/// parsing is a function of the bytes alone.
pub uninterp spec fn font_loads(bytes: Seq<u8>) -> bool;

/// The dimensions of the RGB raster that JPEG decoding yields for these
/// bytes, or nothing when they do not decode to an RGB raster: decoding is
/// a function of the bytes alone.
pub uninterp spec fn jpeg_rgb_dims_of(bytes: Seq<u8>) -> Option<(u32, u32)>;

/// Relies on `rusttype::Font::try_from_vec`: a font parsed from raw bytes,
/// or nothing exactly when the bytes are not a usable font.
#[verifier::external_body]
pub fn load_font(data: Vec<u8>) -> (r: Option<rusttype::Font<'static>>)
    ensures
        (r is Some) == font_loads(data@),
{
    rusttype::Font::try_from_vec(data)
}

/// Relies on `image::load` with the JPEG format and `DynamicImage::as_rgb8`:
/// decodes the bytes into an RGB raster exactly when they are a decodable
/// RGB JPEG, with the recorded dimensions the decoded ones; any decode
/// failure carries a message.
#[verifier::external_body]
pub fn decode_jpeg(data: &Vec<u8>) -> (r: Result<Frame, HandlerError>)
    ensures
        (r is Ok) == (jpeg_rgb_dims_of(data@) is Some),
        r matches Ok(f) ==> jpeg_rgb_dims_of(data@) == Some((f.width_spec(), f.height_spec())),
        r is Err ==> r->Err_0.message is Some,
{
    let loaded = image::load(std::io::Cursor::new(data), image::ImageFormat::Jpeg);
    match loaded {
        Err(e) => Err(HandlerError { message: Some(format!("Image error: {:?}", e)) }),
        Ok(dynamic) => match dynamic.as_rgb8() {
            None => Err(HandlerError { message: Some(String::from("Image error: unsupported color layout")) }),
            Some(rgb) => {
                let (width, height) = (rgb.width(), rgb.height());
                Ok(Frame { buf: dynamic, width, height })
            },
        },
    }
}

/// Relies on `image::imageops::resize` (Gaussian filter): the result raster
/// has exactly the requested dimensions. The source must have non-zero
/// dimensions: the resampling kernel divides by the source extent.
#[verifier::external_body]
pub fn resize_frame(f: &Frame, w: u32, h: u32) -> (r: Frame)
    requires
        f.width_spec() > 0,
        f.height_spec() > 0,
    ensures
        r.width_spec() == w,
        r.height_spec() == h,
{
    let buf = f.buf.resize_exact(w, h, image::imageops::FilterType::Gaussian);
    Frame { buf, width: w, height: h }
}

/// Relies on `image::ImageBuffer::new`: a black canvas of the given size.
#[verifier::external_body]
pub fn new_canvas(w: u32, h: u32) -> (r: Frame)
    ensures
        r.width_spec() == w,
        r.height_spec() == h,
{
    Frame { buf: image::DynamicImage::ImageRgb8(image::RgbImage::new(w, h)), width: w, height: h }
}

/// Relies on `imageproc::drawing::draw_text_mut`: draws one row of white
/// text at the given position, clipping at the canvas borders; the canvas
/// keeps its dimensions. The position must stay far below the `i32` range:
/// the drawing routine adds glyph coordinates to it in `i32` before its
/// clipping test.
#[verifier::external_body]
pub fn draw_row(
    f: &mut Frame,
    x: u32,
    y: u32,
    font: &rusttype::Font<'_>,
    scale: rusttype::Scale,
    text: &str,
)
    requires
        x <= 0x2000,
        y <= 0x2000,
    ensures
        final(f).width_spec() == old(f).width_spec(),
        final(f).height_spec() == old(f).height_spec(),
{
    imageproc::drawing::draw_text_mut(
        &mut f.buf,
        image::Rgba([255u8, 255u8, 255u8, 255u8]),
        x,
        y,
        scale,
        font,
        text,
    );
}

/// Relies on `image::imageops::replace`: copies the top raster's pixels onto
/// the canvas at the given offset, with no blending; the canvas keeps its
/// dimensions.
#[verifier::external_body]
pub fn overlay_frame(f: &mut Frame, top: &Frame, x: u32, y: u32)
    requires
        x + top.width_spec() <= old(f).width_spec(),
        y + top.height_spec() <= old(f).height_spec(),
    ensures
        final(f).width_spec() == old(f).width_spec(),
        final(f).height_spec() == old(f).height_spec(),
{
    image::imageops::replace(&mut f.buf, &top.buf, x, y);
}

/// Relies on `image::codecs::png::PngEncoder::encode` with 8-bit RGB: on
/// success the output is a non-empty PNG stream whose IHDR header carries
/// the frame's dimensions; encoding a frame with non-zero dimensions into
/// memory always succeeds (the writer is a growable buffer and the pixel
/// buffer matches the recorded dimensions); any failure carries a message.
#[verifier::external_body]
pub fn encode_png(f: &Frame) -> (r: Result<Vec<u8>, HandlerError>)
    ensures
        f.width_spec() > 0 && f.height_spec() > 0 ==> r is Ok,
        r matches Ok(out) ==> png_width_of(out@) == f.width_spec()
            && png_height_of(out@) == f.height_spec() && out@.len() > 0,
        r is Err ==> r->Err_0.message is Some,
{
    let mut out: Vec<u8> = Vec::new();
    let enc = image::codecs::png::PngEncoder::new(&mut out);
    let rgb = f.buf.to_rgb8();
    match enc.encode(rgb.as_raw(), f.width, f.height, image::ColorType::Rgb8) {
        Ok(()) => Ok(out),
        Err(e) => Err(HandlerError { message: Some(format!("Image error: {:?}", e)) }),
    }
}

} // verus!
