//! Loading and saving a rendered font as its two artifacts: the atlas image
//! (decoded and encoded by the `image` crate, treated as opaque bytes-to-
//! bitmap work) and the metadata text (the verified codec of [`crate::meta`]).

use vstd::prelude::*;

use crate::font::RenderedFont;
use crate::meta::MetaDecodeError;
use crate::meta::decode_meta;
use crate::meta::decode_metadata;
use crate::meta::encode_meta;
use crate::meta::encode_metadata;

verus! {

#[verifier::external_type_specification]
#[verifier::external_body]
pub struct ExDynamicImage(image::DynamicImage);

#[verifier::external_type_specification]
#[verifier::external_body]
pub struct ExImageError(image::ImageError);

#[verifier::external_type_specification]
#[verifier::external_body]
pub struct ExImageFormat(image::ImageFormat);

/// What can go wrong turning the two artifacts back into a font.
#[derive(Debug)]
pub enum DecodingError {
    /// The image bytes did not decode.
    ImageDecodingError(image::ImageError),
    /// The metadata text is not an encoding of a font record.
    MetadataDecodingError(MetaDecodeError),
}

/// What can go wrong turning a font into its two artifacts: only the image
/// encoder can fail, the metadata encoding being total.
#[derive(Debug)]
pub enum EncodingError {
    /// The image did not encode in the requested format.
    ImageEncodingError(image::ImageError),
}

/// Whether the atlas image bytes decode: the `image` crate's built-in
/// magic-byte detection recognises them and its built-in decoder for the
/// detected format accepts them — a function of the byte sequence alone.
pub uninterp spec fn image_decode_ok(bytes: Seq<u8>) -> bool;

/// Relies on `image::guess_format` and `image::load_from_memory_with_format`,
/// which together decode an image held in memory.  The first reads only the
/// crate's built-in magic-byte table; the second, handed a concrete format,
/// dispatches straight to the built-in decoder for it.  Neither path consults
/// the crate's runtime-registered detection or decoding hooks, so success is
/// a function of the bytes alone.
#[verifier::external_body]
fn decode_image(bytes: &[u8]) -> (r: Result<image::DynamicImage, image::ImageError>)
    ensures
        r is Ok <==> image_decode_ok(bytes@),
{
    match image::guess_format(bytes) {
        Ok(format) => image::load_from_memory_with_format(bytes, format),
        Err(e) => Err(e),
    }
}

/// Relies on `image::DynamicImage::write_to`: encodes the image into an
/// in-memory buffer in the requested format.  Nothing is assumed about the
/// bytes produced.
#[verifier::external_body]
fn encode_image(img: &image::DynamicImage, format: image::ImageFormat) -> (r: Result<
    Vec<u8>,
    image::ImageError,
>) {
    let mut buf = std::io::Cursor::new(Vec::new());
    match img.write_to(&mut buf, format) {
        Ok(()) => Ok(buf.into_inner()),
        Err(e) => Err(e),
    }
}

/// Builds a usable font from its two artifacts: the metadata text is decoded
/// into a placeholder-image font, the image bytes are decoded independently,
/// and the decoded bitmap is attached through `map_img`.
///
/// The metadata of the result is exactly the record the text encodes.  The
/// call succeeds if and only if the bytes decode as an image and the text
/// decodes as a record; an undecodable image is reported as the image error,
/// an unreadable metadata text (tried only once the image decoded) as the
/// metadata error.
pub fn load_atlas(image_bytes: &[u8], metadata: &str) -> (r: Result<
    RenderedFont<image::DynamicImage>,
    DecodingError,
>)
    ensures
        (r matches Ok(f) ==> decode_meta(metadata@) == Some(f.meta())),
        r is Ok <==> (image_decode_ok(image_bytes@) && decode_meta(metadata@) is Some),
        (r matches Err(DecodingError::ImageDecodingError(_))) <==> !image_decode_ok(image_bytes@),
        (r matches Err(DecodingError::MetadataDecodingError(_))) <==> (image_decode_ok(
            image_bytes@,
        ) && decode_meta(metadata@) is None),
{
    let img = match decode_image(image_bytes) {
        Ok(i) => i,
        Err(e) => {
            return Err(DecodingError::ImageDecodingError(e));
        },
    };
    let meta_font = match decode_metadata(metadata) {
        Ok(m) => m,
        Err(e) => {
            return Err(DecodingError::MetadataDecodingError(e));
        },
    };
    Ok(meta_font.map_img(move |_placeholder: ()| img))
}

/// Turns a font into its two artifacts: the image encoded in the requested
/// format, and the metadata text.  The text is exactly the encoding of the
/// font's metadata; only the image encoder can fail.
pub fn encode_atlas(rendered: RenderedFont<image::DynamicImage>, format: image::ImageFormat) -> (r:
    Result<(Vec<u8>, String), EncodingError>)
    ensures
        match r {
            Ok(artifacts) => artifacts.1@ == encode_meta(rendered.meta()),
            Err(_) => true,
        },
{
    let image_bytes = match encode_image(rendered.image(), format) {
        Ok(b) => b,
        Err(e) => {
            return Err(EncodingError::ImageEncodingError(e));
        },
    };
    let meta_font = rendered.map_img(|_img| ());
    let text = encode_metadata(&meta_font);
    Ok((image_bytes, text))
}

} // verus!
