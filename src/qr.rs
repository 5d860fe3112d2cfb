//! QR images of short URLs, encoded as PNG.

use vstd::prelude::*;

verus! {

#[verifier::external_type_specification]
#[verifier::external_body]
pub struct ExQrCode(qrcode::QrCode);

#[verifier::external_type_specification]
#[verifier::external_body]
pub struct ExDynamicImage(image::DynamicImage);

/// The eight bytes that open every PNG file.
pub open spec fn png_signature() -> Seq<u8> {
    seq![137u8, 80u8, 78u8, 71u8, 13u8, 10u8, 26u8, 10u8]
}

/// Whether `b` opens with the PNG signature.
pub open spec fn is_png(b: Seq<u8>) -> bool {
    b.len() >= 8 && b.subrange(0, 8) == png_signature()
}

/// Whether the bytes of `text` fit in a QR symbol.
pub uninterp spec fn qr_fits(text: Seq<char>) -> bool;

/// Relies on `qrcode::QrCode::new`: encodes the bytes of `text`, and fails
/// exactly when they do not fit in a QR symbol; the outcome depends on the
/// text alone.
#[verifier::external_body]
pub(crate) fn qr_encode(text: &str) -> (r: Option<qrcode::QrCode>)
    ensures
        r is Some <==> qr_fits(text@),
{
    qrcode::QrCode::new(text.as_bytes()).ok()
}

/// Relies on `qrcode::QrCode::render` for `image::Luma<u8>` pixels: draws the
/// symbol in grey levels, at least `min_size` pixels wide and high. The size
/// is bounded so that the renderer's pixel arithmetic cannot overflow.
#[verifier::external_body]
pub(crate) fn qr_render(code: &qrcode::QrCode, min_size: u32) -> (r: image::DynamicImage)
    requires
        min_size <= 4096,
{
    image::DynamicImage::ImageLuma8(
        code.render::<image::Luma<u8>>().min_dimensions(min_size, min_size).build(),
    )
}

/// Relies on `image::DynamicImage::write_to` with `image::ImageFormat::Png`,
/// whose encoder writes the PNG signature first.
#[verifier::external_body]
pub(crate) fn png_encode(img: &image::DynamicImage) -> (r: Option<Vec<u8>>)
    ensures
        r is Some ==> is_png(r->0@),
{
    let mut out: Vec<u8> = Vec::new();
    match img.write_to(&mut std::io::Cursor::new(&mut out), image::ImageFormat::Png) {
        Ok(()) => Some(out),
        Err(_) => None,
    }
}

} // verus!
