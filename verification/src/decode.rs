//! Decoding of raster tiles into RGBA pixels.

use vstd::prelude::*;
use crate::errors::FetchError;

verus! {

/// `image::ImageError`, the reason for which an image was rejected. The
/// proofs see nothing of what is inside.
#[verifier::external_type_specification]
#[verifier::external_body]
pub struct ExImageError(image::ImageError);

/// The RGBA pixels, row by row and four bytes a pixel, that the image
/// decoder finds in `data` when it takes the format from the first bytes;
/// `None` where it knows no format for them or rejects the bytes.
pub uninterp spec fn image_rgba8(data: Seq<u8>) -> Option<Seq<u8>>;

/// Calls `image::guess_format`, which tells the format of an image by the
/// bytes it begins with, then `image::load_from_memory_with_format`, which
/// decodes the image in that built-in format, and `DynamicImage::into_rgba8`,
/// which turns the image into 8-bit RGBA. Neither call asks the decoder's
/// registries of formats, so the outcome depends on the bytes alone, which
/// is what the contract claims.
#[verifier::external_body]
fn load_rgba8(data: &Vec<u8>) -> (r: Result<Vec<u8>, image::ImageError>)
    ensures
        match r {
            Ok(pixels) => image_rgba8(data@) == Some(pixels@),
            Err(_) => image_rgba8(data@).is_none(),
        },
{
    let format = image::guess_format(data)?;
    Ok(image::load_from_memory_with_format(data, format)?.into_rgba8().into_raw())
}

/// Decodes an image of any format that the decoder tells by its first bytes
/// into RGBA pixels. Bytes that do not decode give `DecodeFailure`.
pub fn decode_image(data: &Vec<u8>) -> (r: Result<Vec<u8>, FetchError>)
    ensures
        match image_rgba8(data@) {
            Some(pixels) => r.is_ok() && r->Ok_0@ == pixels,
            None => r == Err::<Vec<u8>, FetchError>(FetchError::DecodeFailure),
        },
{
    match load_rgba8(data) {
        Ok(pixels) => Ok(pixels),
        Err(_) => Err(FetchError::DecodeFailure),
    }
}

} // verus!
