//! Trusted boundary to the image codec: PNG re-encoding of RGBA buffers and
//! general image decoding, plus the verified bitmap-to-icon step built on it.

use vstd::prelude::*;

verus! {

/// The PNG encoding of a top-down RGBA buffer with the given dimensions.
/// The encoding is a function of the pixel data alone.
pub uninterp spec fn png_encoding(width: u32, height: u32, rgba: Seq<u8>) -> Seq<u8>;

/// Whether a top-down RGBA buffer with the given dimensions can be encoded
/// as PNG.  Success is a function of the dimensions and pixel data alone.
pub uninterp spec fn png_encodable(width: u32, height: u32, rgba: Seq<u8>) -> bool;

/// What decoding an encoded image yields: its dimensions and RGBA pixels,
/// or nothing when the bytes are not a decodable image.
pub uninterp spec fn decoded_rgba(bytes: Seq<u8>) -> Option<(u32, u32, Seq<u8>)>;

/// Relies on image::RgbaImage::from_raw and image::DynamicImage::write_to
/// with the PNG format: under the length precondition the buffer is always
/// accepted, the write goes to an in-memory cursor with fixed settings, and
/// encoding succeeds or fails by deterministic validation of the dimensions
/// and pixel data alone; the emitted bytes are a function of that data alone.
#[verifier::external_body]
pub(crate) fn encode_png(width: u32, height: u32, rgba: &Vec<u8>) -> (r: Result<Vec<u8>, String>)
    requires
        rgba@.len() == 4 * width * height,
    ensures
        r is Ok <==> png_encodable(width, height, rgba@),
        r matches Ok(v) ==> v@ == png_encoding(width, height, rgba@),
{
    let img = match image::RgbaImage::from_raw(width, height, rgba.clone()) {
        Some(img) => img,
        None => {
            return Err(String::from("Invalid ICO image data"));
        },
    };
    let mut buf: Vec<u8> = Vec::new();
    match image::DynamicImage::ImageRgba8(img).write_to(
        &mut std::io::Cursor::new(&mut buf),
        image::ImageFormat::Png,
    ) {
        Ok(()) => Ok(buf),
        Err(e) => Err(format!("{}", e)),
    }
}

/// Relies on image::load_from_memory and DynamicImage::to_rgba8: whether the
/// bytes decode, and to which RGBA bitmap, is a function of the bytes alone,
/// and the RGBA buffer of a decoded image holds exactly 4 bytes per pixel.
#[verifier::external_body]
fn decode_image(bytes: &Vec<u8>) -> (r: Result<(u32, u32, Vec<u8>), String>)
    ensures
        r matches Ok(f) ==> decoded_rgba(bytes@) == Some((f.0, f.1, f.2@)) && f.2@.len() == 4 * f.0
            * f.1,
        r is Err ==> decoded_rgba(bytes@) is None,
{
    match image::load_from_memory(bytes) {
        Ok(img) => {
            let rgba = img.to_rgba8();
            let (w, h) = (rgba.width(), rgba.height());
            Ok((w, h, rgba.into_raw()))
        },
        Err(e) => Err(format!("{}", e)),
    }
}

/// Decodes an encoded image and re-encodes it as PNG.  The call fails
/// exactly when the bytes cannot be decoded or the decoded bitmap cannot be
/// encoded.
pub fn load_image(bytes: &Vec<u8>) -> (r: Result<Vec<u8>, String>)
    ensures
        decoded_rgba(bytes@) is None ==> r is Err,
        (decoded_rgba(bytes@) matches Some(f) && png_encodable(f.0, f.1, f.2)) ==> r is Ok,
        r matches Ok(v) ==> decoded_rgba(bytes@) matches Some(f) && v@ == png_encoding(
            f.0,
            f.1,
            f.2,
        ),
{
    let (w, h, rgba) = match decode_image(bytes) {
        Ok(t) => t,
        Err(e) => {
            return Err(e);
        },
    };
    match encode_png(w, h, &rgba) {
        Ok(v) => Ok(v),
        Err(e) => Err(e),
    }
}

/// Encodes a raw top-down RGBA buffer with the given dimensions as PNG.
/// A buffer whose byte count does not match the dimensions yields nothing
/// rather than an error, as does a failing encode; every well-formed,
/// encodable buffer yields its PNG.
pub fn rasterize_bitmap(width: u32, height: u32, pixels: &Vec<u8>) -> (r: Option<Vec<u8>>)
    ensures
        pixels@.len() != 4 * width * height ==> r is None,
        (pixels@.len() == 4 * width * height && png_encodable(width, height, pixels@)) ==> r
            is Some,
        r matches Some(v) ==> pixels@.len() == 4 * width * height && v@ == png_encoding(
            width,
            height,
            pixels@,
        ),
{
    let n = pixels.len();
    proof {
        vstd::arithmetic::div_mod::lemma_fundamental_div_mod(n as int, 4);
        assert((width as int) * (height as int) <= 0xffff_ffff * 0xffff_ffff) by (nonlinear_arith)
            requires
                width <= 0xffff_ffffu32,
                height <= 0xffff_ffffu32,
        ;
        assert(4 * (width as int) * (height as int) == 4 * ((width as int) * (height as int)))
            by (nonlinear_arith);
    }
    let expected = (width as u64) * (height as u64);
    if n % 4 != 0 || (n / 4) as u64 != expected {
        proof {
            if pixels@.len() == 4 * width * height {
                assert(n as int == 4 * ((width as int) * (height as int)));
                assert(n as int % 4 == 0);
                assert(n as int / 4 == (width as int) * (height as int));
                assert(false);
            }
        }
        return None;
    }
    proof {
        assert(n as int == 4 * (n as int / 4));
        assert(pixels@.len() == 4 * width * height);
    }
    match encode_png(width, height, pixels) {
        Ok(v) => Some(v),
        Err(_) => None,
    }
}

} // verus!
