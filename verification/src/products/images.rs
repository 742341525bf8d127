//! Product images: accepted types, the upload size limit, the resize rule and
//! where a stored image lives.
use crate::products::qr::{joined_path, media_path, uuid_string, uuid_text};
use crate::text::str_eq;
use image::imageops::FilterType;
use image::{GenericImageView, ImageFormat};
use std::io::Cursor;
use vstd::prelude::*;

verus! {

/// The largest width or height a stored image keeps.
pub const MAX_DIMENSION: u32 = 800;

/// The largest upload accepted, in bytes (10 MB).
pub const MAX_FILE_BYTES: usize = 10485760;

/// Why an image upload is refused (always a 400).
#[derive(Clone, Copy, PartialEq, Eq, Structural, Debug)]
pub enum ImageError {
    UnsupportedType,
    TooLarge,
    /// The bytes are not an image `image` can decode.
    DecodeFailed,
    /// The image could not be written as JPEG.
    SaveFailed,
}

impl ImageError {
    /// The message the service answers with.
    #[verifier::allow_in_spec]
    pub fn message(&self) -> &'static str
        returns
            (match self {
                ImageError::UnsupportedType => "Only JPEG, PNG and WebP images are allowed",
                ImageError::TooLarge => "Image too large (max 10 MB)",
                ImageError::DecodeFailed => "Failed to decode image",
                ImageError::SaveFailed => "Failed to save image",
            }),
    {
        match self {
            ImageError::UnsupportedType => "Only JPEG, PNG and WebP images are allowed",
            ImageError::TooLarge => "Image too large (max 10 MB)",
            ImageError::DecodeFailed => "Failed to decode image",
            ImageError::SaveFailed => "Failed to save image",
        }
    }
}

/// The MIME types a product image may have.
pub open spec fn allowed_mime(mime: Seq<char>) -> bool {
    mime == "image/jpeg"@ || mime == "image/png"@ || mime == "image/webp"@
}

/// Whether `mime` is JPEG, PNG or WebP.
pub fn is_allowed_mime(mime: &str) -> (r: bool)
    ensures
        r == allowed_mime(mime@),
{
    str_eq(mime, "image/jpeg") || str_eq(mime, "image/png") || str_eq(mime, "image/webp")
}

/// Checks an upload's type, then its size.
pub fn check_upload(mime: &str, size: usize) -> (r: Result<(), ImageError>)
    ensures
        !allowed_mime(mime@) ==> r == Err::<(), ImageError>(ImageError::UnsupportedType),
        allowed_mime(mime@) && size > MAX_FILE_BYTES ==> r == Err::<(), ImageError>(
            ImageError::TooLarge,
        ),
        allowed_mime(mime@) && size <= MAX_FILE_BYTES ==> r is Ok,
{
    if !is_allowed_mime(mime) {
        return Err(ImageError::UnsupportedType);
    }
    if size > MAX_FILE_BYTES {
        return Err(ImageError::TooLarge);
    }
    Ok(())
}

/// Whether an image of this size is scaled down (keeping its aspect ratio) to
/// fit in `MAX_DIMENSION` by `MAX_DIMENSION`.
pub fn needs_resize(width: u32, height: u32) -> (r: bool)
    ensures
        r == (width > MAX_DIMENSION || height > MAX_DIMENSION),
{
    width > MAX_DIMENSION || height > MAX_DIMENSION
}

/// The width and height of the image `image::load_from_memory` decodes from
/// `bytes` (it guesses the format from the bytes and decodes with the default
/// limits); `None` when it does not decode.
pub uninterp spec fn decoded_size(bytes: Seq<u8>) -> Option<(u32, u32)>;

/// The decoded image of `bytes` written as JPEG by `DynamicImage::write_to`,
/// with the width and height of the image written.
pub uninterp spec fn jpeg_encoding(bytes: Seq<u8>) -> Option<(u32, u32, Seq<u8>)>;

/// The decoded image of `bytes` scaled by `DynamicImage::resize(max, max,
/// Lanczos3)`, with its width and height, written as JPEG.
pub uninterp spec fn resized_jpeg(bytes: Seq<u8>, max: u32) -> Option<(u32, u32, Seq<u8>)>;

/// `nw` by `nh` is `w` by `h` scaled to the largest size within `max` by
/// `max`: both sides between 1 and `max`, one of them `max`, and the aspect
/// ratio kept up to rounding each side to whole pixels.
pub open spec fn fits_within(w: u32, h: u32, nw: u32, nh: u32, max: u32) -> bool {
    &&& 1 <= nw <= max
    &&& 1 <= nh <= max
    &&& (nw == max || nh == max)
    &&& nw * h - nh * w <= w + h
    &&& nh * w - nw * h <= w + h
}

/// A scaling of an image of size `source` gave `out`, of a size that fits
/// (see `fits_within`); nothing comes of an image that does not decode.
pub open spec fn scaled_from(source: Option<(u32, u32)>, out: Option<(u32, u32, Vec<u8>)>, max: u32) -> bool {
    match source {
        Some((w, h)) => match out {
            Some((nw, nh, _)) => fits_within(w, h, nw, nh, max),
            None => false,
        },
        None => out is None,
    }
}

/// The size of the image that `image::load_from_memory` decodes from `bytes`.
#[verifier::external_body]
fn decode_size(bytes: &[u8]) -> (r: Option<(u32, u32)>)
    ensures
        r == decoded_size(bytes@),
{
    image::load_from_memory(bytes).ok().map(|img| img.dimensions())
}

/// The decoded image re-encoded as JPEG with `DynamicImage::write_to` into
/// memory, with the size of the image written. The encoder takes any colour
/// type (it converts to grey or RGB) and refuses only a side that is 0 or
/// above 65535; writing into a `Vec` does not fail.
#[verifier::external_body]
fn encode_jpeg(bytes: &[u8]) -> (r: Option<(u32, u32, Vec<u8>)>)
    ensures
        match r {
            Some((w, h, jpeg)) => jpeg_encoding(bytes@) == Some((w, h, jpeg@)) && decoded_size(bytes@)
                == Some((w, h)),
            None => jpeg_encoding(bytes@) is None,
        },
        decoded_size(bytes@) matches Some((w, h)) ==> (r is Some <==> (1 <= w <= 65535 && 1 <= h
            <= 65535)),
        decoded_size(bytes@) is None ==> r is None,
{
    let img = image::load_from_memory(bytes).ok()?;
    let (w, h) = img.dimensions();
    let mut out = Cursor::new(Vec::new());
    img.write_to(&mut out, ImageFormat::Jpeg).ok()?;
    Some((w, h, out.into_inner()))
}

/// The decoded image scaled with `DynamicImage::resize(max, max, Lanczos3)`,
/// which keeps the aspect ratio and gives the largest size that fits in `max`
/// by `max` (each side rounded to whole pixels, at least 1), then written as
/// JPEG into memory, with the size of the scaled image.
#[verifier::external_body]
fn resize_jpeg(bytes: &[u8], max: u32) -> (r: Option<(u32, u32, Vec<u8>)>)
    requires
        1 <= max <= 65535,
        decoded_size(bytes@) matches Some((w, h)) ==> (w >= 1 && h >= 1),
    ensures
        match r {
            Some((w, h, jpeg)) => resized_jpeg(bytes@, max) == Some((w, h, jpeg@)),
            None => resized_jpeg(bytes@, max) is None,
        },
        scaled_from(decoded_size(bytes@), r, max),
{
    let img = image::load_from_memory(bytes).ok()?;
    let scaled = img.resize(max, max, FilterType::Lanczos3);
    let (w, h) = scaled.dimensions();
    let mut out = Cursor::new(Vec::new());
    scaled.write_to(&mut out, ImageFormat::Jpeg).ok()?;
    Some((w, h, out.into_inner()))
}

/// The JPEG an upload is stored as, with its size: scaled to fit in
/// `MAX_DIMENSION` by `MAX_DIMENSION` when it is larger, re-encoded otherwise.
pub open spec fn stored_jpeg(bytes: Seq<u8>) -> Option<(u32, u32, Seq<u8>)> {
    match decoded_size(bytes) {
        Some((w, h)) => if w > MAX_DIMENSION || h > MAX_DIMENSION {
            resized_jpeg(bytes, MAX_DIMENSION)
        } else {
            jpeg_encoding(bytes)
        },
        None => None,
    }
}

/// Turns an upload into the JPEG that is stored: at most `MAX_FILE_BYTES`,
/// decodable, scaled down to fit in `MAX_DIMENSION` by `MAX_DIMENSION` with its
/// aspect ratio kept when it is larger, keeping its size otherwise, and
/// re-encoded as JPEG. An image with an empty side is not stored.
pub fn prepare_image(bytes: &[u8]) -> (r: Result<Vec<u8>, ImageError>)
    ensures
        bytes@.len() > MAX_FILE_BYTES ==> r == Err::<Vec<u8>, ImageError>(ImageError::TooLarge),
        bytes@.len() <= MAX_FILE_BYTES ==> match decoded_size(bytes@) {
            None => r == Err::<Vec<u8>, ImageError>(ImageError::DecodeFailed),
            Some((w, h)) => if w == 0 || h == 0 {
                r == Err::<Vec<u8>, ImageError>(ImageError::SaveFailed)
            } else {
                &&& r is Ok
                &&& stored_jpeg(bytes@) matches Some((sw, sh, jpeg))
                &&& r->Ok_0@ == jpeg
                &&& if w > MAX_DIMENSION || h > MAX_DIMENSION {
                    fits_within(w, h, sw, sh, MAX_DIMENSION)
                } else {
                    sw == w && sh == h
                }
            },
        },
{
    if bytes.len() > MAX_FILE_BYTES {
        return Err(ImageError::TooLarge);
    }
    let (width, height) = match decode_size(bytes) {
        Some(size) => size,
        None => {
            return Err(ImageError::DecodeFailed);
        },
    };
    if width == 0 || height == 0 {
        return Err(ImageError::SaveFailed);
    }
    let encoded = if needs_resize(width, height) {
        resize_jpeg(bytes, MAX_DIMENSION)
    } else {
        encode_jpeg(bytes)
    };
    match encoded {
        Some((_, _, jpeg)) => Ok(jpeg),
        None => Err(ImageError::SaveFailed),
    }
}

/// The path, relative to the uploads directory, of a stored image named `id`:
/// `images/<id>.jpg`.
pub fn image_relative_path(id: u128) -> (r: String)
    ensures
        r@ == "images/"@ + uuid_text(id) + ".jpg"@,
{
    let mut r = String::from_str("images/");
    let name = uuid_string(id);
    r.append(name.as_str());
    r.append(".jpg");
    r
}

/// Where product images are stored.
pub struct ImageService {
    pub uploads_dir: String,
}

impl ImageService {
    pub fn new(uploads_dir: String) -> (r: ImageService)
        ensures
            r.uploads_dir@ == uploads_dir@,
    {
        ImageService { uploads_dir }
    }

    /// The filesystem path of a stored image.
    pub fn full_path(&self, relative: &str) -> (r: String)
        ensures
            r@ == joined_path(self.uploads_dir@, relative@),
    {
        media_path(relative, self.uploads_dir.as_str())
    }
}

} // verus!
