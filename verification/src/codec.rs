//! The boundary to the `image` crate: decoding arbitrary image bytes into a
//! [`Raster`](crate::raster::Raster) and encoding a raster back to PNG bytes.
//!
//! Both directions are pure functions of their arguments, but their exact
//! values cannot reasonably be written out, so each is given a name
//! (`decoded_image`, `png_encoded`) that the wrappers' contracts and every
//! caller's contract speak of.

use vstd::prelude::*;

use crate::raster::Raster;

verus! {

/// The error a pack conversion can raise on its own: the bytes of some asset
/// do not decode to a raster image, or its dimensions do not admit the
/// requested transform.
#[derive(Clone, Copy, Debug, PartialEq, Eq, Structural)]
pub enum PackError {
    Decode,
}

/// What `image::load_from_memory` followed by conversion to RGBA8 yields on
/// the given bytes: `None` when they do not decode, otherwise the width,
/// height and raw RGBA buffer.  A pure function of the bytes.
pub uninterp spec fn decoded_image(data: Seq<u8>) -> Option<(u32, u32, Seq<u8>)>;

/// The PNG encoding of an RGBA8 buffer with the given dimensions, as
/// `image`'s `PngEncoder` produces it.  A pure function of the arguments.
pub uninterp spec fn png_encoded(width: u32, height: u32, pixels: Seq<u8>) -> Seq<u8>;

/// Relies on `image::load_from_memory` (format guessed from the bytes) and
/// `DynamicImage::to_rgba8`: decoding is a pure function of the bytes, and
/// the raw RGBA8 buffer holds exactly `4 * width * height` bytes.
#[verifier::external_body]
pub(crate) fn decode_image(data: &[u8]) -> (r: Result<Raster, PackError>)
    ensures
        r matches Ok(img) ==> img.wf() && decoded_image(data@) == Some(
            (img.width, img.height, img.pixels@),
        ),
        r is Err ==> decoded_image(data@) is None && r->Err_0 == PackError::Decode,
{
    match image::load_from_memory(data) {
        Ok(img) => {
            let rgba = img.to_rgba8();
            let width = rgba.width();
            let height = rgba.height();
            Ok(Raster { width, height, pixels: rgba.into_raw() })
        },
        Err(_) => Err(PackError::Decode),
    }
}

/// Relies on `image`'s `PngEncoder::write_image` with an in-memory writer:
/// the encoding is a pure function of dimensions and buffer; it panics unless
/// the buffer holds exactly `4 * width * height` bytes (kept out by
/// `requires`); writing to a `Vec` cannot fail, and the underlying `png`
/// encoder rejects only zero width or height.
#[verifier::external_body]
pub(crate) fn encode_png(width: u32, height: u32, pixels: &[u8]) -> (r: Result<
    Vec<u8>,
    PackError,
>)
    requires
        pixels@.len() == 4 * width * height,
    ensures
        r matches Ok(out) ==> out@ == png_encoded(width, height, pixels@),
        width >= 1 && height >= 1 ==> r is Ok,
        r is Err ==> r->Err_0 == PackError::Decode,
{
    let mut out: Vec<u8> = Vec::new();
    let encoder = image::codecs::png::PngEncoder::new(&mut out);
    let res = image::ImageEncoder::write_image(
        encoder,
        pixels,
        width,
        height,
        image::ExtendedColorType::Rgba8,
    );
    match res {
        Ok(()) => Ok(out),
        Err(_) => Err(PackError::Decode),
    }
}

/// The mathematical value of a byte-producing fallible computation: the
/// bytes' sequence on success, the error unchanged.
pub open spec fn bytes_res_view(r: Result<Vec<u8>, PackError>) -> Result<Seq<u8>, PackError> {
    match r {
        Ok(v) => Ok(v@),
        Err(e) => Err(e),
    }
}

/// The dimensions the pack descriptor records for a component image: those of
/// its decoded raster, or a decode error.
pub open spec fn spec_image_dimensions(data: Seq<u8>) -> Result<(u32, u32), PackError> {
    match decoded_image(data) {
        Some((w, h, _)) => Ok((w, h)),
        None => Err(PackError::Decode),
    }
}

/// Reads the width and height of an encoded image.
pub fn get_image_dimensions(data: &[u8]) -> (r: Result<(u32, u32), PackError>)
    ensures
        r == spec_image_dimensions(data@),
{
    match decode_image(data) {
        Ok(img) => Ok((img.width, img.height)),
        Err(e) => Err(e),
    }
}

} // verus!
