//! Growing an image on its right and bottom edges.

use crate::text::{decimal, decimal_string};
use vstd::prelude::*;
use vstd::string::*;
use image::{Rgb, RgbImage};

verus! {

/// Why a requested padding was turned down.
#[derive(Debug, PartialEq, Eq, Structural)]
pub enum ImagePaddingError {
    /// The new width is smaller than the original width.
    InvalidWidth { original_width: u32, new_width: u32 },
    /// The new height is smaller than the original height.
    InvalidHeight { original_height: u32, new_height: u32 },
    /// Both new dimensions are smaller than the original ones.
    InvalidDimensions { original_width: u32, new_width: u32, original_height: u32, new_height: u32 },
}

/// The verdict on a padding request: `None` when neither dimension shrinks,
/// otherwise the error naming the dimensions that would.
pub open spec fn padding_verdict(
    original_width: u32,
    original_height: u32,
    new_width: u32,
    new_height: u32,
) -> Option<ImagePaddingError> {
    if new_width < original_width && new_height < original_height {
        Some(
            ImagePaddingError::InvalidDimensions {
                original_width,
                new_width,
                original_height,
                new_height,
            },
        )
    } else if new_width < original_width {
        Some(ImagePaddingError::InvalidWidth { original_width, new_width })
    } else if new_height < original_height {
        Some(ImagePaddingError::InvalidHeight { original_height, new_height })
    } else {
        None
    }
}

/// Checks that padding to `new_width` x `new_height` never crops the image.
pub fn validate_padding_parameters(
    original_width: u32,
    original_height: u32,
    new_width: u32,
    new_height: u32,
) -> (verdict: Option<ImagePaddingError>)
    ensures
        verdict == padding_verdict(original_width, original_height, new_width, new_height),
        verdict.is_none() <==> (original_width <= new_width && original_height <= new_height),
{
    let new_width_is_too_small = new_width < original_width;
    let new_height_is_too_small = new_height < original_height;
    if new_width_is_too_small && new_height_is_too_small {
        Some(
            ImagePaddingError::InvalidDimensions {
                original_width,
                new_width,
                original_height,
                new_height,
            },
        )
    } else if new_width_is_too_small {
        Some(ImagePaddingError::InvalidWidth { original_width, new_width })
    } else if new_height_is_too_small {
        Some(ImagePaddingError::InvalidHeight { original_height, new_height })
    } else {
        None
    }
}

impl ImagePaddingError {
    /// The message of the error.
    pub open spec fn text(self) -> Seq<char> {
        match self {
            ImagePaddingError::InvalidWidth { original_width, new_width } => {
                "Failed to pad image, new width ("@ + decimal(new_width as nat)
                    + ") < original width ("@ + decimal(original_width as nat) + ")."@
            },
            ImagePaddingError::InvalidHeight { original_height, new_height } => {
                "Failed to pad image, new height ("@ + decimal(new_height as nat)
                    + ") < original height ("@ + decimal(original_height as nat) + ")."@
            },
            ImagePaddingError::InvalidDimensions {
                original_width,
                new_width,
                original_height,
                new_height,
            } => {
                "Failed to pad image, new width ("@ + decimal(new_width as nat)
                    + ") < original width ("@ + decimal(original_width as nat)
                    + ") and new height("@ + decimal(new_height as nat)
                    + ") < original height("@ + decimal(original_height as nat) + ")"@
            },
        }
    }

    /// Writes the message of the error.
    pub fn message(&self) -> (text: String)
        ensures
            text@ == self.text(),
    {
        match self {
            ImagePaddingError::InvalidWidth { original_width, new_width } => {
                let mut text = String::from_str("Failed to pad image, new width (");
                text.append(decimal_string(*new_width as u64).as_str());
                text.append(") < original width (");
                text.append(decimal_string(*original_width as u64).as_str());
                text.append(").");
                text
            },
            ImagePaddingError::InvalidHeight { original_height, new_height } => {
                let mut text = String::from_str("Failed to pad image, new height (");
                text.append(decimal_string(*new_height as u64).as_str());
                text.append(") < original height (");
                text.append(decimal_string(*original_height as u64).as_str());
                text.append(").");
                text
            },
            ImagePaddingError::InvalidDimensions {
                original_width,
                new_width,
                original_height,
                new_height,
            } => {
                let mut text = String::from_str("Failed to pad image, new width (");
                text.append(decimal_string(*new_width as u64).as_str());
                text.append(") < original width (");
                text.append(decimal_string(*original_width as u64).as_str());
                text.append(") and new height(");
                text.append(decimal_string(*new_height as u64).as_str());
                text.append(") < original height(");
                text.append(decimal_string(*original_height as u64).as_str());
                text.append(")");
                text
            },
        }
    }
}

/// An image of red, green and blue bytes, held in the `image` crate's buffer.
/// The library sees it through `raster_dimensions` and `raster_pixels`.
#[verifier::external_body]
pub struct RgbRaster {
    buffer: RgbImage,
}

/// The width and height of an image, in pixels.
pub uninterp spec fn raster_dimensions(image: RgbRaster) -> (u32, u32);

/// The pixels of an image: for each position `(x, y)` inside the image its
/// red, green and blue values.
pub uninterp spec fn raster_pixels(image: RgbRaster) -> Map<(u32, u32), (u8, u8, u8)>;

/// The position `(x, y)` lies inside an image of the given size.
pub open spec fn is_inside(size: (u32, u32), x: u32, y: u32) -> bool {
    x < size.0 && y < size.1
}

/// An image of the given size can be held in memory: the three bytes of each
/// of its pixels can be counted.
pub open spec fn fits_in_memory(width: u32, height: u32) -> bool {
    3 * width * height <= isize::MAX
}

/// The place in a row-by-row list of bytes, three for each pixel, at which the
/// pixel `(x, y)` of an image of the given width begins.
pub open spec fn byte_offset(width: u32, x: u32, y: u32) -> int {
    (y * width + x) * 3
}

/// The pixel `(x, y)` as the list of bytes holds it.
pub open spec fn pixel_in_bytes(bytes: Seq<u8>, width: u32, x: u32, y: u32) -> (u8, u8, u8) {
    let start = byte_offset(width, x, y);
    (bytes[start], bytes[start + 1], bytes[start + 2])
}

/// `ImageBuffer::new`: a new image of the given size, every pixel of which is
/// zero. The buffer panics where the bytes of the image cannot be counted or
/// allocated, which the precondition leaves out.
#[verifier::external_body]
fn new_buffer(width: u32, height: u32) -> (image: RgbRaster)
    requires
        fits_in_memory(width, height),
    ensures
        raster_dimensions(image) == (width, height),
        forall|x: u32, y: u32|
            is_inside((width, height), x, y) ==> #[trigger] raster_pixels(image)[(x, y)] == (
                0u8,
                0u8,
                0u8,
            ),
{
    RgbRaster { buffer: RgbImage::new(width, height) }
}

/// `ImageBuffer::from_raw`: an image over the given bytes, row by row and
/// three bytes for each pixel, where the bytes suffice for the size; `None`
/// where they do not.
#[verifier::external_body]
fn buffer_from_raw(width: u32, height: u32, bytes: Vec<u8>) -> (image: Option<RgbRaster>)
    ensures
        image.is_some() <==> 3 * width * height <= bytes@.len(),
        image matches Some(raster) ==> {
            &&& raster_dimensions(raster) == (width, height)
            &&& forall|x: u32, y: u32|
                is_inside((width, height), x, y) ==> #[trigger] raster_pixels(raster)[(x, y)]
                    == pixel_in_bytes(bytes@, width, x, y)
        },
{
    RgbImage::from_raw(width, height, bytes).map(|buffer| RgbRaster { buffer })
}

/// `ImageBuffer::into_raw`: the bytes of the image, row by row and three for
/// each pixel; bytes that the image was given beyond its size stay behind
/// them.
#[verifier::external_body]
fn buffer_into_raw(image: RgbRaster) -> (bytes: Vec<u8>)
    ensures
        bytes@.len() >= 3 * raster_dimensions(image).0 * raster_dimensions(image).1,
        forall|x: u32, y: u32|
            is_inside(raster_dimensions(image), x, y) ==> pixel_in_bytes(
                bytes@,
                raster_dimensions(image).0,
                x,
                y,
            ) == #[trigger] raster_pixels(image)[(x, y)],
{
    image.buffer.into_raw()
}

/// `ImageBuffer::dimensions`: the width and height of the image.
#[verifier::external_body]
fn buffer_dimensions(image: &RgbRaster) -> (size: (u32, u32))
    ensures
        size == raster_dimensions(*image),
{
    image.buffer.dimensions()
}

/// `ImageBuffer::get_pixel_checked`: the pixel at a position inside the image;
/// nothing is promised of a position outside it.
#[verifier::external_body]
fn get_pixel_checked(image: &RgbRaster, x: u32, y: u32) -> (pixel: Option<(u8, u8, u8)>)
    ensures
        is_inside(raster_dimensions(*image), x, y) ==> pixel == Some(
            raster_pixels(*image)[(x, y)],
        ),
{
    image.buffer.get_pixel_checked(x, y).map(|p| (p.0[0], p.0[1], p.0[2]))
}

/// `ImageBuffer::put_pixel`: sets the pixel at a position inside the image and
/// leaves the size and every other pixel as they were. The buffer panics on a
/// position outside the image, which the precondition leaves out.
#[verifier::external_body]
fn put_pixel(image: &mut RgbRaster, x: u32, y: u32, pixel: (u8, u8, u8))
    requires
        is_inside(raster_dimensions(*old(image)), x, y),
    ensures
        raster_dimensions(*final(image)) == raster_dimensions(*old(image)),
        raster_pixels(*final(image)) == raster_pixels(*old(image)).insert((x, y), pixel),
{
    image.buffer.put_pixel(x, y, Rgb([pixel.0, pixel.1, pixel.2]));
}

impl RgbRaster {
    /// Makes an image of the given size from its bytes, row by row and three
    /// bytes for each pixel. `None` where the bytes do not suffice.
    pub fn from_raw(width: u32, height: u32, bytes: Vec<u8>) -> (image: Option<RgbRaster>)
        ensures
            image.is_some() <==> 3 * width * height <= bytes@.len(),
            image matches Some(raster) ==> {
                &&& raster_dimensions(raster) == (width, height)
                &&& forall|x: u32, y: u32|
                    is_inside((width, height), x, y) ==> #[trigger] raster_pixels(raster)[(x, y)]
                        == pixel_in_bytes(bytes@, width, x, y)
            },
    {
        buffer_from_raw(width, height, bytes)
    }

    /// Gives the bytes of the image back, row by row and three for each pixel.
    pub fn into_raw(self) -> (bytes: Vec<u8>)
        ensures
            bytes@.len() >= 3 * raster_dimensions(self).0 * raster_dimensions(self).1,
            forall|x: u32, y: u32|
                is_inside(raster_dimensions(self), x, y) ==> pixel_in_bytes(
                    bytes@,
                    raster_dimensions(self).0,
                    x,
                    y,
                ) == #[trigger] raster_pixels(self)[(x, y)],
    {
        buffer_into_raw(self)
    }

    /// The width and height of the image.
    pub fn dimensions(&self) -> (size: (u32, u32))
        ensures
            size == raster_dimensions(*self),
    {
        buffer_dimensions(self)
    }
}

/// `padded` is `original` grown on its right and bottom to the given size: the
/// original pixels lie in its top left corner, and every other pixel is zero.
pub open spec fn is_padding_of(
    padded: RgbRaster,
    original: RgbRaster,
    new_width: u32,
    new_height: u32,
) -> bool {
    &&& raster_dimensions(padded) == (new_width, new_height)
    &&& forall|x: u32, y: u32|
        is_inside((new_width, new_height), x, y) ==> #[trigger] raster_pixels(padded)[(x, y)] == (
        if is_inside(raster_dimensions(original), x, y) {
            raster_pixels(original)[(x, y)]
        } else {
            (0u8, 0u8, 0u8)
        })
}

/// Copies an image into the top left corner of a new, black image of the
/// given size, which is not below the image's own size.
pub(crate) fn pad_to_larger_size(original_image: &RgbRaster, new_width: u32, new_height: u32) -> (padded:
    RgbRaster)
    requires
        fits_in_memory(new_width, new_height),
        raster_dimensions(*original_image).0 <= new_width,
        raster_dimensions(*original_image).1 <= new_height,
    ensures
        is_padding_of(padded, *original_image, new_width, new_height),
{
    let (original_width, original_height) = buffer_dimensions(original_image);
    let mut padded_image: RgbRaster = new_buffer(new_width, new_height);
    let mut y: u32 = 0;
    while y < original_height
        invariant
            y <= original_height,
            original_width <= new_width,
            original_height <= new_height,
            raster_dimensions(*original_image) == (original_width, original_height),
            raster_dimensions(padded_image) == (new_width, new_height),
            forall|px: u32, py: u32|
                is_inside((new_width, new_height), px, py) ==> #[trigger] raster_pixels(
                    padded_image,
                )[(px, py)] == (if px < original_width && py < y {
                    raster_pixels(*original_image)[(px, py)]
                } else {
                    (0u8, 0u8, 0u8)
                }),
        decreases original_height - y,
    {
        let mut x: u32 = 0;
        while x < original_width
            invariant
                x <= original_width,
                y < original_height,
                original_width <= new_width,
                original_height <= new_height,
                raster_dimensions(*original_image) == (original_width, original_height),
                raster_dimensions(padded_image) == (new_width, new_height),
                forall|px: u32, py: u32|
                    is_inside((new_width, new_height), px, py) ==> #[trigger] raster_pixels(
                        padded_image,
                    )[(px, py)] == (if px < original_width && (py < y || (py == y && px < x)) {
                        raster_pixels(*original_image)[(px, py)]
                    } else {
                        (0u8, 0u8, 0u8)
                    }),
            decreases original_width - x,
        {
            if let Some(pixel) = get_pixel_checked(original_image, x, y) {
                put_pixel(&mut padded_image, x, y, pixel);
            }
            x += 1;
        }
        y += 1;
    }
    padded_image
}

/// Pads an image by adding black pixels to its right and bottom, so that it
/// has the new width and height. The original pixels keep their positions.
///
/// Fails with the verdict of `validate_padding_parameters` where a new
/// dimension is below the original one: padding never crops.
pub fn pad_right_bottom_img_rbg8(original_image: RgbRaster, new_width: u32, new_height: u32) -> (result:
    Result<RgbRaster, ImagePaddingError>)
    requires
        fits_in_memory(new_width, new_height),
    ensures
        match result {
            Ok(padded) => {
                &&& padding_verdict(
                    raster_dimensions(original_image).0,
                    raster_dimensions(original_image).1,
                    new_width,
                    new_height,
                ) is None
                &&& is_padding_of(padded, original_image, new_width, new_height)
            },
            Err(e) => padding_verdict(
                raster_dimensions(original_image).0,
                raster_dimensions(original_image).1,
                new_width,
                new_height,
            ) == Some(e),
        },
{
    let (original_width, original_height) = buffer_dimensions(&original_image);
    let params_are_valid = validate_padding_parameters(
        original_width,
        original_height,
        new_width,
        new_height,
    );
    if let Some(e) = params_are_valid {
        return Err(e);
    }
    Ok(pad_to_larger_size(&original_image, new_width, new_height))
}

} // verus!
