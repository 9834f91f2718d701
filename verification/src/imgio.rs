//! Trusted boundary to the image codec: decoding bytes into a grayscale
//! thumbnail for the quantizer, and encoding an RGB raster as JPEG.

use vstd::prelude::*;

use crate::AartError;
use crate::quantize::LumaImage;

verus! {

#[verifier::external_type_specification]
#[verifier::external_body]
pub struct ExDynamicImage(image::DynamicImage);

#[verifier::external_type_specification]
#[verifier::external_body]
pub struct ExImageError(image::ImageError);

/// Whether the image codec can parse these bytes as an image. Decoding is a
/// pure function of the bytes, so its outcome has a name the contracts can
/// share.
pub uninterp spec fn decode_ok(bytes: Seq<u8>) -> bool;

/// What decoding these bytes and shrinking the image to a grayscale
/// thumbnail within `max_w` columns yields: the luminance bytes (row-major,
/// one per pixel), the width and the height. Decoding, resampling and the
/// grayscale cast are pure functions of the bytes and the bound, so the
/// triple has a name the contracts can share.
pub uninterp spec fn gray_thumb(bytes: Seq<u8>, max_w: u32) -> (Seq<u8>, u32, u32);

/// Relies on image::load_from_memory, DynamicImage::thumbnail and
/// DynamicImage::to_luma8, composed: load_from_memory decodes the bytes
/// (guessing the format) and fails exactly on bytes the codec cannot parse;
/// thumbnail scales the image to fit the bounds, keeping its aspect ratio;
/// to_luma8 yields a buffer the codec allocates at exactly one luminance
/// byte per pixel, so its raw length is the pixel count. Each step depends
/// on the bytes and the bound alone.
#[verifier::external_body]
fn gray_thumbnail_raw(bytes: &[u8], max_w: u32) -> (r: Result<
    (Vec<u8>, u32, u32),
    image::ImageError,
>)
    ensures
        r is Ok <==> decode_ok(bytes@),
        r matches Ok(t) ==> (t.0@, t.1, t.2) == gray_thumb(bytes@, max_w)
            && t.0@.len() == t.1 * t.2,
{
    match image::load_from_memory(bytes) {
        Ok(img) => {
            let buf = img.thumbnail(max_w, u32::MAX).to_luma8();
            let (w, h) = buf.dimensions();
            Ok((buf.into_raw(), w, h))
        },
        Err(e) => Err(e),
    }
}

/// Decodes image bytes and produces the grayscale raster the quantizer works
/// on: the image scaled to fit within `target_w` columns (aspect ratio
/// kept), one luminance byte per pixel. Fails with `DecodeError` exactly
/// when the bytes cannot be parsed as an image; on success the raster is
/// exactly the codec's grayscale thumbnail of the bytes.
pub fn load_gray_thumbnail(bytes: &[u8], target_w: u32) -> (r: Result<LumaImage, AartError>)
    ensures
        r is Ok <==> decode_ok(bytes@),
        r matches Err(e) ==> e == AartError::DecodeError,
        r matches Ok(img) ==> img.wf() && (img.pixels@, img.width, img.height) == gray_thumb(
            bytes@,
            target_w,
        ),
{
    match gray_thumbnail_raw(bytes, target_w) {
        Ok((pixels, width, height)) => Ok(LumaImage { pixels, width, height }),
        Err(_) => Err(AartError::DecodeError),
    }
}

/// The JPEG encoding of an RGB raster: a pure function of the pixel bytes
/// and the dimensions.
pub uninterp spec fn jpeg_bytes(rgb: Seq<u8>, width: u32, height: u32) -> Seq<u8>;

/// Whether JPEG can hold a raster of these dimensions: both must lie in
/// `1..=65535`.
pub open spec fn jpeg_dims_ok(width: u32, height: u32) -> bool {
    1 <= width <= 65535 && 1 <= height <= 65535
}

/// Relies on JpegEncoder::encode: writes the JPEG encoding of the RGB
/// raster, which depends on the bytes and the dimensions alone. `encode`
/// panics unless the buffer holds exactly three bytes per pixel, so that is
/// required here. It fails exactly when a dimension is zero or above 65535:
/// every other failure path is an io::Write error, and writing to a Vec
/// cannot fail.
#[verifier::external_body]
fn jpeg_encode_rgb(rgb: &Vec<u8>, width: u32, height: u32) -> (r: Result<
    Vec<u8>,
    image::ImageError,
>)
    requires
        rgb@.len() == 3 * width * height,
    ensures
        r is Ok <==> jpeg_dims_ok(width, height),
        r matches Ok(b) ==> b@ == jpeg_bytes(rgb@, width, height),
{
    let mut out: Vec<u8> = Vec::new();
    let mut enc = image::codecs::jpeg::JpegEncoder::new(&mut out);
    match enc.encode(rgb.as_slice(), width, height, image::ExtendedColorType::Rgb8) {
        Ok(()) => Ok(out),
        Err(e) => Err(e),
    }
}

/// Encodes an RGB raster as JPEG bytes. Succeeds exactly when both
/// dimensions lie in `1..=65535`; the bytes are then exactly the codec's
/// encoding of the raster. A dimension outside that range is reported as
/// `EncodeError`.
pub fn encode_rgb_jpeg(rgb: &Vec<u8>, width: u32, height: u32) -> (r: Result<Vec<u8>, AartError>)
    requires
        rgb@.len() == 3 * width * height,
    ensures
        r is Ok <==> jpeg_dims_ok(width, height),
        r matches Ok(b) ==> b@ == jpeg_bytes(rgb@, width, height),
        r matches Err(e) ==> e == AartError::EncodeError,
{
    match jpeg_encode_rgb(rgb, width, height) {
        Ok(b) => Ok(b),
        Err(_) => Err(AartError::EncodeError),
    }
}

} // verus!
