use chart_digitizer::image_utils::padding::{validate_padding_parameters, ImagePaddingError};

#[test]
fn validate_padding_parameters_invalid_width() {
    let invalid_width_result = validate_padding_parameters(10_u32, 10_u32, 5_u32, 15_u32);
    assert_eq!(
        invalid_width_result,
        Some(ImagePaddingError::InvalidWidth { original_width: 10_u32, new_width: 5_u32 })
    );
}

#[test]
fn validate_padding_parameters_invalid_height() {
    let invalid_height_result = validate_padding_parameters(10_u32, 10_u32, 15_u32, 5_u32);
    assert_eq!(
        invalid_height_result,
        Some(ImagePaddingError::InvalidHeight { original_height: 10_u32, new_height: 5_u32 })
    );
}

#[test]
fn validate_padding_parameters_invalid_dimensions() {
    let invalid_dimensions_result = validate_padding_parameters(10_u32, 10_u32, 5_u32, 5_u32);
    assert_eq!(
        invalid_dimensions_result,
        Some(ImagePaddingError::InvalidDimensions {
            original_width: 10_u32,
            original_height: 10_u32,
            new_width: 5_u32,
            new_height: 5_u32
        })
    );
}

#[test]
fn validate_padding_parameters_valid() {
    let valid_result = validate_padding_parameters(10_u32, 10_u32, 15_u32, 15_u32);
    assert_eq!(valid_result, None);
}

#[test]
fn validate_padding_parameters_same_size() {
    assert_eq!(validate_padding_parameters(7, 9, 7, 9), None);
}

use chart_digitizer::image_utils::padding::{pad_right_bottom_img_rbg8, RgbRaster};
use image::{Rgb, RgbImage};

/// A 3 x 3 image: a black row, a row of red, green and blue, and a white row.
fn test_image() -> RgbImage {
    let mut img = RgbImage::new(3, 3);
    img.put_pixel(0, 1, Rgb([255, 0, 0]));
    img.put_pixel(1, 1, Rgb([0, 255, 0]));
    img.put_pixel(2, 1, Rgb([0, 0, 255]));
    img.put_pixel(0, 2, Rgb([255, 255, 255]));
    img.put_pixel(1, 2, Rgb([255, 255, 255]));
    img.put_pixel(2, 2, Rgb([255, 255, 255]));
    img
}

fn to_raster(img: RgbImage) -> RgbRaster {
    let (width, height) = img.dimensions();
    RgbRaster::from_raw(width, height, img.into_raw()).unwrap()
}

fn to_image(raster: RgbRaster) -> RgbImage {
    let (width, height) = raster.dimensions();
    RgbImage::from_raw(width, height, raster.into_raw()).unwrap()
}

#[test]
fn pad_right_bottom() {
    let unpadded_img = to_raster(test_image());
    let img = to_image(pad_right_bottom_img_rbg8(unpadded_img, 4, 4).unwrap());
    assert_eq!(img.dimensions(), (4, 4));
    assert_eq!(img.get_pixel(0, 0), &Rgb([0, 0, 0]));
    assert_eq!(img.get_pixel(1, 0), &Rgb([0, 0, 0]));
    assert_eq!(img.get_pixel(2, 0), &Rgb([0, 0, 0]));
    assert_eq!(img.get_pixel(3, 0), &Rgb([0, 0, 0]));
    assert_eq!(img.get_pixel(0, 1), &Rgb([255, 0, 0]));
    assert_eq!(img.get_pixel(1, 1), &Rgb([0, 255, 0]));
    assert_eq!(img.get_pixel(2, 1), &Rgb([0, 0, 255]));
    assert_eq!(img.get_pixel(3, 1), &Rgb([0, 0, 0]));
    assert_eq!(img.get_pixel(0, 2), &Rgb([255, 255, 255]));
    assert_eq!(img.get_pixel(1, 2), &Rgb([255, 255, 255]));
    assert_eq!(img.get_pixel(2, 2), &Rgb([255, 255, 255]));
    assert_eq!(img.get_pixel(3, 2), &Rgb([0, 0, 0]));
    assert_eq!(img.get_pixel(0, 3), &Rgb([0, 0, 0]));
    assert_eq!(img.get_pixel(1, 3), &Rgb([0, 0, 0]));
    assert_eq!(img.get_pixel(2, 3), &Rgb([0, 0, 0]));
    assert_eq!(img.get_pixel(3, 3), &Rgb([0, 0, 0]));
}

#[test]
fn pad_right_bottom_refuses_to_crop() {
    let result = pad_right_bottom_img_rbg8(to_raster(test_image()), 2, 5);
    assert_eq!(
        result.err(),
        Some(ImagePaddingError::InvalidWidth { original_width: 3, new_width: 2 })
    );
    let result = pad_right_bottom_img_rbg8(to_raster(test_image()), 5, 1);
    assert_eq!(
        result.err(),
        Some(ImagePaddingError::InvalidHeight { original_height: 3, new_height: 1 })
    );
    let result = pad_right_bottom_img_rbg8(to_raster(test_image()), 1, 1);
    assert_eq!(
        result.err(),
        Some(ImagePaddingError::InvalidDimensions {
            original_width: 3,
            new_width: 1,
            original_height: 3,
            new_height: 1
        })
    );
}

#[test]
fn pad_right_bottom_to_the_same_size_changes_nothing() {
    let padded = to_image(pad_right_bottom_img_rbg8(to_raster(test_image()), 3, 3).unwrap());
    assert_eq!(padded, test_image());
}

#[test]
fn raster_keeps_size_and_bytes() {
    let bytes: Vec<u8> = (0..24).collect();
    let raster = RgbRaster::from_raw(4, 2, bytes.clone()).unwrap();
    assert_eq!(raster.dimensions(), (4, 2));
    assert_eq!(raster.into_raw(), bytes);
    assert!(RgbRaster::from_raw(4, 2, vec![0; 23]).is_none());
    assert!(RgbRaster::from_raw(0, 7, Vec::new()).is_some());
}

#[test]
fn padding_error_messages() {
    assert_eq!(
        ImagePaddingError::InvalidWidth { original_width: 10, new_width: 5 }.message(),
        "Failed to pad image, new width (5) < original width (10)."
    );
    assert_eq!(
        ImagePaddingError::InvalidHeight { original_height: 10, new_height: 5 }.message(),
        "Failed to pad image, new height (5) < original height (10)."
    );
    assert_eq!(
        ImagePaddingError::InvalidDimensions {
            original_width: 10,
            new_width: 5,
            original_height: 4294967295,
            new_height: 0
        }
        .message(),
        "Failed to pad image, new width (5) < original width (10) and new height(0) < original height(4294967295)"
    );
}
