//! The picture of the code that clients scan.
use image::{DynamicImage, ImageBuffer, ImageFormat, Luma};
use qrcode::QrCode;
use std::io::Cursor;
use vstd::prelude::*;

verus! {

/// The least width and height of the picture, in pixels.
pub const QR_MIN_SIZE: u32 = 320;

/// A picture in shades of grey, row by row.
#[derive(Debug)]
pub struct GreyImage {
    pub width: u32,
    pub height: u32,
    pub pixels: Vec<u8>,
}

/// The largest picture that can be asked for, in pixels across.
pub const QR_MAX_SIZE: u32 = 32_768;

/// What `QrCode::new` and the rendering of the code make of a text and of the least width and
/// height: width, height and pixels, or the error in words.
pub uninterp spec fn qr_picture(data: Seq<char>, size: u32) -> Result<
    (u32, u32, Seq<u8>),
    Seq<char>,
>;

/// What `DynamicImage::write_to` makes of a picture in the PNG format: the file, or the error in
/// words.
pub uninterp spec fn png_file(width: u32, height: u32, pixels: Seq<u8>) -> Result<
    Seq<u8>,
    Seq<char>,
>;

/// A picture with its pixels as a sequence.
pub open spec fn picture_view(picture: Result<GreyImage, String>) -> Result<
    (u32, u32, Seq<u8>),
    Seq<char>,
> {
    match picture {
        Ok(picture) => Ok((picture.width, picture.height, picture.pixels@)),
        Err(words) => Err(words@),
    }
}

/// A file with its bytes as a sequence.
pub open spec fn file_view(file: Result<Vec<u8>, String>) -> Result<Seq<u8>, Seq<char>> {
    match file {
        Ok(bytes) => Ok(bytes@),
        Err(words) => Err(words@),
    }
}

/// `QrCode::new`, and its rendering by `Renderer::build` with the least dimensions. The picture is
/// a square at least as large as asked for, and has one pixel for each place, black or white. The
/// crate panics on sizes whose pixels it cannot count.
#[verifier::external_body]
fn draw_code(data: &str, size: u32) -> (picture: Result<GreyImage, String>)
    requires
        size <= QR_MAX_SIZE,
    ensures
        picture_view(picture) == qr_picture(data@, size),
        picture matches Ok(picture) ==> {
            &&& picture.width == picture.height
            &&& picture.width >= size
            &&& picture.pixels@.len() == picture.width * picture.height
            &&& forall|i: int|
                0 <= i < picture.pixels@.len() ==> #[trigger] picture.pixels@[i] == 0
                    || picture.pixels@[i] == 255
        },
{
    let code = QrCode::new(data.as_bytes()).map_err(|error| error.to_string())?;
    let image = code.render::<Luma<u8>>().min_dimensions(size, size).build();
    Ok(GreyImage { width: image.width(), height: image.height(), pixels: image.into_raw() })
}

/// `DynamicImage::write_to` in the PNG format, of the picture that `ImageBuffer::from_raw` makes of
/// the pixels.
#[verifier::external_body]
fn write_png(picture: GreyImage) -> (file: Result<Vec<u8>, String>)
    requires
        picture.pixels@.len() == picture.width * picture.height,
        picture.width > 0,
        picture.height > 0,
    ensures
        file_view(file) == png_file(picture.width, picture.height, picture.pixels@),
{
    let image = ImageBuffer::<Luma<u8>, Vec<u8>>::from_raw(
        picture.width,
        picture.height,
        picture.pixels,
    ).unwrap_or_default();
    let mut bytes = Vec::new();
    DynamicImage::ImageLuma8(image)
        .write_to(&mut Cursor::new(&mut bytes), ImageFormat::Png)
        .map(|_| bytes)
        .map_err(|error| error.to_string())
}

/// The text as a code that clients scan, in a PNG file; a text that no code has room for gives the
/// error in words.
pub fn render_qr_png(data: &str) -> (file: Result<Vec<u8>, String>)
    ensures
        file_view(file) == match qr_picture(data@, QR_MIN_SIZE) {
            Ok((width, height, pixels)) => png_file(width, height, pixels),
            Err(words) => Err(words),
        },
{
    match draw_code(data, QR_MIN_SIZE) {
        Ok(picture) => {
            assert(picture.width > 0 && picture.height > 0);
            write_png(picture)
        },
        Err(words) => Err(words),
    }
}

} // verus!
