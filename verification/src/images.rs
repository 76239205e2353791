//! Writing images: the compressed and converted copies a batch produces, and
//! the JPEG thumbnails. Decoding and encoding are the `image` crate's work; the
//! decisions (which size, which quality, whether to flatten) are made here.
use vstd::prelude::*;
use crate::batch::{jpeg_quality, shrink_to, TargetFormat};
use image::{DynamicImage, ImageFormat};
use std::io::Cursor;

verus! {

/// The size of the image in `bytes`, decoded as the format `extension` names (as
/// `image::ImageFormat::from_extension` reads it, in any case); nothing when the
/// extension names no format or the bytes do not decode as it.
pub uninterp spec fn decoded_size(bytes: Seq<u8>, extension: Seq<char>) -> Option<(u32, u32)>;

/// Decodes with `image::load_from_memory_with_format` and reads the size.
#[verifier::external_body]
fn image_size(bytes: &[u8], extension: &str) -> (r: Option<(u32, u32)>)
    ensures
        r == decoded_size(bytes@, extension@),
{
    let format = ImageFormat::from_extension(extension)?;
    let image = image::load_from_memory_with_format(bytes, format).ok()?;
    Some((image.width(), image.height()))
}

/// A JPEG copy of the image in `bytes`: decoded as above, fitted inside
/// `max` by `max` with `DynamicImage::thumbnail` when `max` is given, and encoded
/// as RGB by `JpegEncoder` at `quality`. Nothing when it does not decode; the
/// encoder's message when encoding fails.
pub uninterp spec fn jpeg_copy(bytes: Seq<u8>, extension: Seq<char>, max: Option<u32>, quality: u8) -> Option<
    Result<Seq<u8>, Seq<char>>,
>;

/// The view of an encoding's outcome.
pub open spec fn encoded_view(r: Option<Result<Vec<u8>, String>>) -> Option<Result<Seq<u8>, Seq<char>>> {
    match r {
        None => None,
        Some(Ok(v)) => Some(Ok(v@)),
        Some(Err(e)) => Some(Err(e@)),
    }
}

/// Decodes, shrinks when asked and encodes with `image`'s `JpegEncoder`.
#[verifier::external_body]
fn encode_jpeg(bytes: &[u8], extension: &str, max: Option<u32>, quality: u8) -> (r: Option<Result<Vec<u8>, String>>)
    ensures
        encoded_view(r) == jpeg_copy(bytes@, extension@, max, quality),
{
    let format = ImageFormat::from_extension(extension)?;
    let image = image::load_from_memory_with_format(bytes, format).ok()?;
    let image = match max {
        Some(m) => image.thumbnail(m, m),
        None => image,
    };
    let mut out: Vec<u8> = Vec::new();
    let written = image::codecs::jpeg::JpegEncoder::new_with_quality(&mut out, quality).encode_image(&image.to_rgb8());
    Some(written.map(|()| out).map_err(|e| e.to_string()))
}

/// The image in `bytes` written as the format `target` names (an extension, as
/// `ImageFormat::from_extension` reads it), flattened to RGB first when
/// `flatten` is set, with `DynamicImage::write_to`. Nothing when it does not
/// decode; the encoder's message when writing fails.
pub uninterp spec fn converted(bytes: Seq<u8>, extension: Seq<char>, target: Seq<char>, flatten: bool) -> Option<
    Result<Seq<u8>, Seq<char>>,
>;

/// Decodes and writes with `DynamicImage::write_to`.
#[verifier::external_body]
fn convert_image(bytes: &[u8], extension: &str, target: &str, flatten: bool) -> (r: Option<Result<Vec<u8>, String>>)
    ensures
        encoded_view(r) == converted(bytes@, extension@, target@, flatten),
{
    let format = ImageFormat::from_extension(extension)?;
    let image = image::load_from_memory_with_format(bytes, format).ok()?;
    let target = ImageFormat::from_extension(target)?;
    let image = if flatten { DynamicImage::ImageRgb8(image.to_rgb8()) } else { image };
    let mut out = Cursor::new(Vec::new());
    let written = image.write_to(&mut out, target);
    Some(written.map(|()| out.into_inner()).map_err(|e| e.to_string()))
}

/// A JPEG thumbnail of the image in `bytes`: decoded as above, fitted inside
/// `max` by `max` with `DynamicImage::thumbnail`, and written as RGB JPEG with
/// `write_to`. Nothing when it does not decode; the encoder's message when
/// writing fails.
pub uninterp spec fn jpeg_thumbnail(bytes: Seq<u8>, extension: Seq<char>, max: u32) -> Option<Result<Seq<u8>, Seq<char>>>;

/// Decodes, shrinks and writes a JPEG with `write_to`.
#[verifier::external_body]
pub(crate) fn thumbnail_jpeg(bytes: &[u8], extension: &str, max: u32) -> (r: Option<Result<Vec<u8>, String>>)
    ensures
        encoded_view(r) == jpeg_thumbnail(bytes@, extension@, max),
{
    let format = ImageFormat::from_extension(extension)?;
    let image = image::load_from_memory_with_format(bytes, format).ok()?;
    let mut out = Cursor::new(Vec::new());
    let written = image.thumbnail(max, max).to_rgb8().write_to(&mut out, ImageFormat::Jpeg);
    Some(written.map(|()| out.into_inner()).map_err(|e| e.to_string()))
}

/// What making a copy of an image came to.
pub enum ImageCopy {
    /// The source does not decode as the image its extension says; it is skipped.
    Unreadable,
    /// Encoding failed, with the encoder's message.
    Failed(String),
    /// The bytes of the copy, to be written.
    Written(Vec<u8>),
}

/// The view of a copy: the same shape as an encoding's outcome.
pub open spec fn copy_view(c: ImageCopy) -> Option<Result<Seq<u8>, Seq<char>>> {
    match c {
        ImageCopy::Unreadable => None,
        ImageCopy::Failed(e) => Some(Err(e@)),
        ImageCopy::Written(v) => Some(Ok(v@)),
    }
}

fn as_copy(r: Option<Result<Vec<u8>, String>>) -> (c: ImageCopy)
    ensures
        copy_view(c) == encoded_view(r),
{
    match r {
        None => ImageCopy::Unreadable,
        Some(Ok(v)) => ImageCopy::Written(v),
        Some(Err(e)) => ImageCopy::Failed(e),
    }
}

/// The side a compressed copy is shrunk to: the limit, when one is set and the
/// image exceeds it on either side.
pub open spec fn shrink_side(max_dimension: Option<u32>, width: u32, height: u32) -> Option<u32> {
    match max_dimension {
        Some(max) => if max > 0 && (width > max || height > max) {
            Some(max)
        } else {
            None
        },
        None => None,
    }
}

/// The JPEG quality asked for, kept between 1 and 100.
pub open spec fn clamped_quality(quality: u8) -> u8 {
    if quality < 1 {
        1
    } else if quality > 100 {
        100
    } else {
        quality
    }
}

/// A JPEG copy of the photo in `bytes`, whose file has `extension`: shrunk to
/// fit `max_dimension` when it is larger, at `quality` kept between 1 and 100.
pub fn compressed_copy(bytes: &[u8], extension: &str, quality: u8, max_dimension: Option<u32>) -> (r: ImageCopy)
    ensures
        copy_view(r) == match decoded_size(bytes@, extension@) {
            None => None,
            Some((w, h)) => jpeg_copy(bytes@, extension@, shrink_side(max_dimension, w, h), clamped_quality(quality)),
        },
{
    let (width, height) = match image_size(bytes, extension) {
        Some(size) => size,
        None => return ImageCopy::Unreadable,
    };
    let max = shrink_to(max_dimension, width, height);
    let quality = jpeg_quality(quality);
    as_copy(encode_jpeg(bytes, extension, max, quality))
}

/// The photo in `bytes`, whose file has `extension`, rewritten as `target`;
/// flattened to RGB first for JPEG, which has no alpha channel.
pub fn converted_copy(bytes: &[u8], extension: &str, target: TargetFormat) -> (r: ImageCopy)
    ensures
        copy_view(r) == converted(bytes@, extension@, target.extension_spec(), target == TargetFormat::Jpeg),
{
    as_copy(convert_image(bytes, extension, target.extension(), target == TargetFormat::Jpeg))
}

} // verus!
