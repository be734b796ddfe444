//! Decoded images, behind the `image` crate.
//!
//! Verus does not look inside a decoded image: what it holds is named by
//! [`raster_width`], [`raster_height`] and [`raster_rgb`], and the functions
//! of this module say of each call into `image` what it returns.

use vstd::prelude::*;

verus! {

#[verifier::external_type_specification]
#[verifier::external_body]
pub struct ExDynamicImage(image::DynamicImage);

/// The width of a decoded image, in pixels.
pub uninterp spec fn raster_width(image: image::DynamicImage) -> nat;

/// The height of a decoded image, in pixels.
pub uninterp spec fn raster_height(image: image::DynamicImage) -> nat;

/// The red, green and blue intensities of a decoded image, by column and row.
pub uninterp spec fn raster_rgb(image: image::DynamicImage) -> Map<(int, int), (u8, u8, u8)>;

/// What an image shows: its size and the colour of each pixel, by column and
/// row.
pub ghost struct Picture {
    pub width: nat,
    pub height: nat,
    pub rgb: Map<(int, int), (u8, u8, u8)>,
}

/// What a decoded image shows.
pub open spec fn picture_of(image: image::DynamicImage) -> Picture {
    Picture { width: raster_width(image), height: raster_height(image), rgb: raster_rgb(image) }
}

/// What the content of an image file shows when it is read as the format
/// that the file's extension stands for, or `None` where the extension
/// stands for no format or the decoder rejects the content.
pub uninterp spec fn decoded(extension: Seq<char>, content: Seq<u8>) -> Option<Picture>;

/// Decodes the content of an image file in the format of its extension:
/// `ImageFormat::from_extension`, then `image::load_from_memory_with_format`.
///
/// Nothing is claimed of how an extension is matched or how a decoder reads
/// the bytes: the image shows [`decoded`] of the extension and the content.
#[verifier::external_body]
pub(crate) fn decode_image(extension: &str, content: &[u8]) -> (image: Option<image::DynamicImage>)
    ensures
        decoded(extension@, content@) == match image {
            Some(image) => Some(picture_of(image)),
            None => None,
        },
{
    let format = image::ImageFormat::from_extension(extension)?;
    image::load_from_memory_with_format(content, format).ok()
}

/// `GenericImageView::width` of a decoded image.
#[verifier::external_body]
pub(crate) fn image_width(image: &image::DynamicImage) -> (w: u32)
    ensures
        w == raster_width(*image),
{
    image::GenericImageView::width(image)
}

/// `GenericImageView::height` of a decoded image.
#[verifier::external_body]
pub(crate) fn image_height(image: &image::DynamicImage) -> (h: u32)
    ensures
        h == raster_height(*image),
{
    image::GenericImageView::height(image)
}

/// `GenericImageView::get_pixel` of a decoded image, without the alpha
/// channel. The call panics outside the image, which `requires` rules out.
#[verifier::external_body]
pub(crate) fn image_pixel(image: &image::DynamicImage, x: u32, y: u32) -> (rgb: (u8, u8, u8))
    requires
        x < raster_width(*image),
        y < raster_height(*image),
    ensures
        rgb == raster_rgb(*image)[(x as int, y as int)],
{
    let pixel = image::GenericImageView::get_pixel(image, x, y);
    (pixel.0[0], pixel.0[1], pixel.0[2])
}

} // verus!
