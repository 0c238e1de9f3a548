//! Source images as plain RGBA data, and the decoding that produces them.
use vstd::prelude::*;

use crate::error::RenderError;

verus! {

/// The RGBA8 image (width, height, pixel bytes) that the `image` crate
/// decodes from PNG bytes, or the text of its error where it refuses them.
pub uninterp spec fn png_rgba8(bytes: Seq<u8>) -> Result<(u32, u32, Seq<u8>), Seq<char>>;

/// Calls `image::RgbaImage::from_raw`, which accepts a buffer exactly when
/// it holds at least `4 * width * height` bytes (computed without
/// overflow), and hands the buffer back unchanged through `into_raw`.
#[verifier::external_body]
fn rgba_image_from_raw(width: u32, height: u32, buf: Vec<u8>) -> (res: Option<Vec<u8>>)
    ensures
        res is Some <==> 4 * width * height <= buf@.len(),
        res matches Some(v) ==> v@ == buf@,
{
    match image::RgbaImage::from_raw(width, height, buf) {
        Some(image) => Some(image.into_raw()),
        None => None,
    }
}

/// Calls `image::load` on the bytes as PNG and converts the result with
/// `to_rgba8`, returning its dimensions and raw buffer, which (as for every
/// `ImageBuffer`) holds at least `4 * width * height` bytes. On failure,
/// the error's text (its `Display`).
#[verifier::external_body]
fn decode_png_rgba8(bytes: &[u8]) -> (res: Result<(u32, u32, Vec<u8>), String>)
    ensures
        res matches Ok((w, h, v)) ==> (png_rgba8(bytes@) matches Ok(d) && d == (w, h, v@)) && 4 * w
            * h <= v@.len(),
        res matches Err(text) ==> (png_rgba8(bytes@) matches Err(t) && t == text@),
{
    match image::load(std::io::Cursor::new(bytes), image::ImageFormat::Png) {
        Ok(decoded) => {
            let rgba = decoded.to_rgba8();
            let (width, height) = rgba.dimensions();
            Ok((width, height, rgba.into_raw()))
        },
        Err(error) => Err(error.to_string()),
    }
}

/// What a source image is: its dimensions and its RGBA bytes, row-major.
pub struct SourceModel {
    pub width: u32,
    pub height: u32,
    pub rgba: Seq<u8>,
}

/// An RGBA image to be rendered.
#[derive(Debug)]
pub struct SourceImage {
    width: u32,
    height: u32,
    rgba: Vec<u8>,
}

impl View for SourceImage {
    type V = SourceModel;

    closed spec fn view(&self) -> SourceModel {
        SourceModel { width: self.width, height: self.height, rgba: self.rgba@ }
    }
}

impl Clone for SourceImage {
    fn clone(&self) -> (copy: SourceImage)
        ensures
            copy@ == self@,
    {
        proof {
            use_type_invariant(self);
        }
        SourceImage {
            width: self.width,
            height: self.height,
            rgba: vstd::slice::slice_to_vec(self.rgba.as_slice()),
        }
    }
}

impl SourceImage {
    #[verifier::type_invariant]
    spec fn covers_every_pixel(self) -> bool {
        4 * self.width * self.height <= self.rgba@.len()
    }

    /// An image over a raw RGBA buffer, refused where the buffer is shorter
    /// than `4 * width * height` bytes.
    pub fn from_raw(width: u32, height: u32, rgba: Vec<u8>) -> (res: Result<SourceImage, RenderError>)
        ensures
            res is Ok <==> 4 * width * height <= rgba@.len(),
            res matches Ok(image) ==> image@ == (SourceModel { width, height, rgba: rgba@ }),
            res is Err ==> res == Err::<SourceImage, RenderError>(
                RenderError::BufferTooShort { width, height },
            ),
    {
        match rgba_image_from_raw(width, height, rgba) {
            Some(buffer) => Ok(SourceImage { width, height, rgba: buffer }),
            None => Err(RenderError::BufferTooShort { width, height }),
        }
    }

    /// An image decoded from PNG bytes.
    pub fn from_png(bytes: &[u8]) -> (res: Result<SourceImage, RenderError>)
        ensures
            res is Ok <==> png_rgba8(bytes@) is Ok,
            res matches Ok(image) ==> (png_rgba8(bytes@) matches Ok(d) && d == (
                image@.width,
                image@.height,
                image@.rgba,
            )),
            res matches Err(e) ==> (e matches RenderError::Decode(text) && png_rgba8(bytes@) matches Err(t)
                && t == text@),
    {
        match decode_png_rgba8(bytes) {
            Ok((width, height, rgba)) => Ok(SourceImage { width, height, rgba }),
            Err(message) => Err(RenderError::Decode(message)),
        }
    }

    pub fn width(&self) -> (w: u32)
        ensures
            w == self@.width,
    {
        self.width
    }

    pub fn height(&self) -> (h: u32)
        ensures
            h == self@.height,
    {
        self.height
    }

    /// The RGBA bytes, row-major, at least `4 * width * height` of them.
    pub fn rgba(&self) -> (bytes: &[u8])
        ensures
            bytes@ == self@.rgba,
            4 * self@.width * self@.height <= bytes@.len(),
    {
        proof {
            use_type_invariant(self);
        }
        self.rgba.as_slice()
    }
}

} // verus!
