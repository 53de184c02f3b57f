use chart_digitizer::image_utils::tiling::{
    find_smallest_img_size_large_enough_to_tile, size_to_fit_tiling_params, tile_image,
    validate_tiling_parameters, OverlapProportion, TileWindow, TilingError,
};

const ONE_HALF: OverlapProportion = OverlapProportion { numerator: 1_u32, denominator: 2_u32 };
const TWO_FIFTHS: OverlapProportion = OverlapProportion { numerator: 2_u32, denominator: 5_u32 };

#[test]
fn tile_with_invalid_tile_size_for_width() {
    let validation = validate_tiling_parameters(ONE_HALF, 10_u32, 8_u32, 12_u32);
    assert_eq!(
        validation,
        Some(TilingError::InvalidTileSize {
            tile_size: 10_u32,
            image_width: 8_u32,
            image_height: 12_u32
        })
    );
}

#[test]
fn tile_with_invalid_tile_size_for_height() {
    let validation = validate_tiling_parameters(ONE_HALF, 10_u32, 12_u32, 8_u32);
    assert_eq!(
        validation,
        Some(TilingError::InvalidTileSize {
            tile_size: 10_u32,
            image_width: 12_u32,
            image_height: 8_u32
        })
    );
}

#[test]
fn tile_with_invalid_tile_size_for_both_dimensions() {
    let validation = validate_tiling_parameters(ONE_HALF, 10_u32, 8_u32, 8_u32);
    assert_eq!(
        validation,
        Some(TilingError::InvalidTileSize {
            tile_size: 10_u32,
            image_width: 8_u32,
            image_height: 8_u32
        })
    );
}

#[test]
fn tile_with_tile_size_proportion_mismatch() {
    let validation = validate_tiling_parameters(ONE_HALF, 17_u32, 68_u32, 68_u32);
    assert_eq!(
        validation,
        Some(TilingError::IncompatibleProportionWithTileSize {
            tile_size: 17_u32,
            overlap_proportion: ONE_HALF
        })
    );
}

#[test]
fn tile_with_uneven_tile_division_left_right() {
    let validation = validate_tiling_parameters(ONE_HALF, 8_u32, 18_u32, 20_u32);
    assert_eq!(
        validation,
        Some(TilingError::UnevenImageDivision {
            image_width: 18_u32,
            image_height: 20_u32,
            tile_size: 8_u32,
            overlap_proportion: ONE_HALF
        })
    );
}

#[test]
fn tile_with_uneven_tile_division_top_down() {
    let validation = validate_tiling_parameters(ONE_HALF, 8_u32, 20_u32, 18_u32);
    assert_eq!(
        validation,
        Some(TilingError::UnevenImageDivision {
            image_width: 20_u32,
            image_height: 18_u32,
            tile_size: 8_u32,
            overlap_proportion: ONE_HALF
        })
    );
}

#[test]
fn test_find_smallest_img_size_large_enough_to_tile_tile_size_larger_than_width() {
    let image_width: u32 = 1250;
    let image_height: u32 = 2000;
    let tile_size: u32 = 1500;
    let proportion: OverlapProportion = OverlapProportion { numerator: 1, denominator: 2 };
    let padding_params = find_smallest_img_size_large_enough_to_tile(
        image_width,
        image_height,
        tile_size,
        proportion,
    );
    assert_eq!(padding_params, (1500, 2250));
}

#[test]
fn test_find_smallest_img_size_large_enough_to_tile_tile_size_larger_than_height() {
    let image_width: u32 = 2000;
    let image_height: u32 = 1250;
    let tile_size: u32 = 1500;
    let proportion: OverlapProportion = OverlapProportion { numerator: 1, denominator: 2 };
    let padding_params = find_smallest_img_size_large_enough_to_tile(
        image_width,
        image_height,
        tile_size,
        proportion,
    );
    assert_eq!(padding_params, (2250, 1500));
}

#[test]
fn test_find_smallest_img_size_large_enough_to_tile_tile_size_larger_than_image() {
    let image_width: u32 = 1250;
    let image_height: u32 = 1250;
    let tile_size: u32 = 1500;
    let proportion: OverlapProportion = OverlapProportion { numerator: 1, denominator: 1 };
    let padding_params = find_smallest_img_size_large_enough_to_tile(
        image_width,
        image_height,
        tile_size,
        proportion,
    );
    assert_eq!(padding_params, (1500, 1500));
}

#[test]
fn test_find_smallest_img_size_large_enough_to_tile_no_padding_needed() {
    let image_width: u32 = 1250;
    let image_height: u32 = 1250;
    let tile_size: u32 = 500;
    let proportion: OverlapProportion = OverlapProportion { numerator: 1, denominator: 2 };
    let padding_params = find_smallest_img_size_large_enough_to_tile(
        image_width,
        image_height,
        tile_size,
        proportion,
    );
    assert_eq!(padding_params, (image_width, image_height));
}

#[test]
fn test_find_smallest_img_size_large_enough_to_tile_standard_usage() {
    let image_width: u32 = 1200;
    let image_height: u32 = 1200;
    let tile_size: u32 = 500;
    let proportion: OverlapProportion = OverlapProportion { numerator: 1, denominator: 2 };
    let padding_params = find_smallest_img_size_large_enough_to_tile(
        image_width,
        image_height,
        tile_size,
        proportion,
    );
    assert_eq!(padding_params, (1250, 1250));
}

#[test]
fn validate_accepts_a_grid() {
    assert_eq!(validate_tiling_parameters(ONE_HALF, 8, 20, 16), None);
    assert_eq!(validate_tiling_parameters(TWO_FIFTHS, 10, 18, 14), None);
    assert_eq!(validate_tiling_parameters(ONE_HALF, 8, 8, 8), None);
}

#[test]
fn validate_reports_the_first_broken_rule() {
    // The tile is too large and the proportion does not fit it: size comes first.
    assert_eq!(
        validate_tiling_parameters(ONE_HALF, 17, 10, 10),
        Some(TilingError::InvalidTileSize { tile_size: 17, image_width: 10, image_height: 10 })
    );
    // Five times two fifths is two pixels; 12 - 5 = 7 is no multiple of two.
    assert_eq!(
        validate_tiling_parameters(TWO_FIFTHS, 5, 12, 11),
        Some(TilingError::UnevenImageDivision {
            image_width: 12,
            image_height: 11,
            tile_size: 5,
            overlap_proportion: TWO_FIFTHS
        })
    );
}

#[test]
fn validate_does_not_overflow_on_large_products() {
    let proportion = OverlapProportion { numerator: 4_000_000_000, denominator: 4_000_000_000 };
    assert_eq!(validate_tiling_parameters(proportion, 3_000_000_000, 3_000_000_000, 3_000_000_000), None);
}

#[test]
fn tile_image_lays_out_rows_then_columns() {
    let tiles = tile_image(6, 4, 2, ONE_HALF).unwrap();
    assert_eq!(tiles.len(), 3);
    for (row_ix, row) in tiles.iter().enumerate() {
        assert_eq!(row.len(), 5);
        for (col_ix, tile) in row.iter().enumerate() {
            assert_eq!(
                *tile,
                TileWindow {
                    start_row: row_ix as u32,
                    end_row: row_ix as u32 + 2,
                    start_col: col_ix as u32,
                    end_col: col_ix as u32 + 2,
                }
            );
        }
    }
}

#[test]
fn tile_image_windows_have_tile_size_and_stay_inside() {
    let (width, height, tile_size) = (68_u32, 34_u32, 34_u32);
    let tiles = tile_image(width, height, tile_size, ONE_HALF).unwrap();
    assert_eq!(tiles.len(), 1);
    assert_eq!(tiles[0].len(), 3);
    for row in tiles.iter() {
        for tile in row.iter() {
            assert_eq!(tile.end_row - tile.start_row, tile_size);
            assert_eq!(tile.end_col - tile.start_col, tile_size);
            assert!(tile.end_row <= height && tile.end_col <= width);
        }
    }
    assert_eq!(tiles[0][2], TileWindow { start_row: 0, end_row: 34, start_col: 34, end_col: 68 });
}

#[test]
fn tile_image_passes_validation_errors_on() {
    assert_eq!(
        tile_image(68, 68, 17, ONE_HALF),
        Err(TilingError::IncompatibleProportionWithTileSize {
            tile_size: 17,
            overlap_proportion: ONE_HALF
        })
    );
    assert_eq!(
        tile_image(8, 12, 10, ONE_HALF),
        Err(TilingError::InvalidTileSize { tile_size: 10, image_width: 8, image_height: 12 })
    );
}

#[test]
fn find_smallest_rounds_a_fractional_stride_down() {
    // Stride 17 / 3: eleven strides cover 60, and 11 * 17 / 3 = 62.33...
    let proportion = OverlapProportion { numerator: 1, denominator: 3 };
    assert_eq!(find_smallest_img_size_large_enough_to_tile(60, 17, 17, proportion), (62, 17));
}

#[test]
fn find_smallest_saturates() {
    assert_eq!(
        find_smallest_img_size_large_enough_to_tile(4_294_967_290, 10, 1000, ONE_HALF),
        (u32::MAX, 500)
    );
}

#[test]
fn size_to_fit_keeps_a_size_that_can_be_tiled() {
    assert_eq!(size_to_fit_tiling_params(1250, 1250, 500, ONE_HALF), (1250, 1250));
    assert_eq!(size_to_fit_tiling_params(1200, 1200, 500, ONE_HALF), (1250, 1250));
    // 68 x 68 cannot be tiled with tiles of 17 at one half: 8.5 is no stride.
    assert_eq!(size_to_fit_tiling_params(68, 68, 17, ONE_HALF), (68, 68));
}

#[test]
fn tiling_error_messages() {
    assert_eq!(
        TilingError::InvalidTileSize { tile_size: 10, image_width: 8, image_height: 12 }.message(),
        "Failed to tile image, tile size (10) > image width (8)."
    );
    assert_eq!(
        TilingError::InvalidTileSize { tile_size: 10, image_width: 12, image_height: 8 }.message(),
        "Failed to tile image, tile size (10) > image height (8)."
    );
    assert_eq!(
        TilingError::InvalidTileSize { tile_size: 10, image_width: 8, image_height: 8 }.message(),
        "Failed to tile image, tile size (10) > image width (8)."
    );
    assert_eq!(
        TilingError::IncompatibleProportionWithTileSize {
            tile_size: 17,
            overlap_proportion: ONE_HALF
        }
        .message(),
        "Failed to tile image, overlap proportion (1/2) does not evenly divide tile size (17)."
    );
    assert_eq!(
        TilingError::UnevenImageDivision {
            image_width: 18,
            image_height: 20,
            tile_size: 8,
            overlap_proportion: TWO_FIFTHS
        }
        .message(),
        "Failed to tile image, the tile size (8) does not evenly divide the image'swidth (18) and height (20) given the overlap proportion (2/5)."
    );
}

#[test]
fn overlap_proportion_message_and_kind() {
    assert_eq!(OverlapProportion { numerator: 3, denominator: 40 }.message(), "3/40");
    assert!(ONE_HALF.check_proper());
    assert!(!OverlapProportion { numerator: 1, denominator: 1 }.check_proper());
    assert!(!OverlapProportion { numerator: 0, denominator: 2 }.check_proper());
}

/// A 3 x 3 image as rows of pixels: a black row, a row of red, green and blue,
/// and a white row.
fn test_image() -> Vec<Vec<[u8; 3]>> {
    vec![
        vec![[0, 0, 0], [0, 0, 0], [0, 0, 0]],
        vec![[255, 0, 0], [0, 255, 0], [0, 0, 255]],
        vec![[255, 255, 255], [255, 255, 255], [255, 255, 255]],
    ]
}

fn crop(image: &[Vec<[u8; 3]>], window: &TileWindow) -> Vec<Vec<[u8; 3]>> {
    image[window.start_row as usize..window.end_row as usize]
        .iter()
        .map(|row| row[window.start_col as usize..window.end_col as usize].to_vec())
        .collect()
}

#[test]
fn test_tiling() {
    let img = test_image();
    let tiles = tile_image(3, 3, 2, ONE_HALF).unwrap();
    let true_tiles = vec![
        vec![
            vec![vec![[0, 0, 0], [0, 0, 0]], vec![[255, 0, 0], [0, 255, 0]]],
            vec![vec![[0, 0, 0], [0, 0, 0]], vec![[0, 255, 0], [0, 0, 255]]],
        ],
        vec![
            vec![vec![[255, 0, 0], [0, 255, 0]], vec![[255, 255, 255], [255, 255, 255]]],
            vec![vec![[0, 255, 0], [0, 0, 255]], vec![[255, 255, 255], [255, 255, 255]]],
        ],
    ];
    assert_eq!(tiles.len(), 2);
    for (row_ix, row) in tiles.iter().enumerate() {
        assert_eq!(row.len(), 2);
        for (col_ix, tile) in row.iter().enumerate() {
            assert_eq!(crop(&img, tile), true_tiles[row_ix][col_ix]);
        }
    }
}

use chart_digitizer::image_utils::padding::RgbRaster;
use chart_digitizer::image_utils::tiling::pad_image_to_fit_tiling_params;

/// An image whose pixel at `(x, y)` holds bytes made from `x` and `y`, none of
/// them zero.
fn patterned(width: u32, height: u32) -> Vec<u8> {
    let mut bytes = Vec::new();
    for y in 0..height {
        for x in 0..width {
            bytes.push((x % 255) as u8 + 1);
            bytes.push((y % 255) as u8 + 1);
            bytes.push(((x + y) % 255) as u8 + 1);
        }
    }
    bytes
}

fn assert_padded(bytes: &[u8], width: u32, height: u32, padded: &[u8], new_width: u32, new_height: u32) {
    assert_eq!(padded.len(), 3 * new_width as usize * new_height as usize);
    for y in 0..new_height as usize {
        for x in 0..new_width as usize {
            let at = 3 * (y * new_width as usize + x);
            if x < width as usize && y < height as usize {
                let from = 3 * (y * width as usize + x);
                assert_eq!(padded[at..at + 3], bytes[from..from + 3]);
            } else {
                assert_eq!(padded[at..at + 3], [0, 0, 0]);
            }
        }
    }
}

#[test]
fn adaptive_padding_grows_the_image_on_the_right_and_bottom() {
    let bytes = patterned(1200, 1200);
    let image = RgbRaster::from_raw(1200, 1200, bytes.clone()).unwrap();
    let padded = pad_image_to_fit_tiling_params(image, 500, ONE_HALF);
    assert_eq!(padded.dimensions(), (1250, 1250));
    assert_padded(&bytes, 1200, 1200, &padded.into_raw(), 1250, 1250);
}

#[test]
fn adaptive_padding_pads_each_side_as_it_needs() {
    let bytes = patterned(5, 8);
    let image = RgbRaster::from_raw(5, 8, bytes.clone()).unwrap();
    let padded = pad_image_to_fit_tiling_params(image, 4, ONE_HALF);
    assert_eq!(padded.dimensions(), (6, 8));
    assert_padded(&bytes, 5, 8, &padded.into_raw(), 6, 8);
}

#[test]
fn adaptive_padding_leaves_an_image_that_can_be_tiled() {
    let bytes = patterned(6, 4);
    let image = RgbRaster::from_raw(6, 4, bytes.clone()).unwrap();
    let padded = pad_image_to_fit_tiling_params(image, 2, ONE_HALF);
    assert_eq!(padded.dimensions(), (6, 4));
    assert_eq!(padded.into_raw(), bytes);
}

#[test]
fn padded_sizes_can_be_tiled() {
    for (width, height, tile_size, proportion) in [
        (1200_u32, 1200_u32, 500_u32, ONE_HALF),
        (1250, 2000, 1500, ONE_HALF),
        (641, 1279, 640, ONE_HALF),
        (1000, 700, 300, OverlapProportion { numerator: 1, denominator: 3 }),
    ] {
        let (new_width, new_height) =
            find_smallest_img_size_large_enough_to_tile(width, height, tile_size, proportion);
        assert!(new_width >= width && new_height >= height);
        assert_eq!(validate_tiling_parameters(proportion, tile_size, new_width, new_height), None);
        let stride = tile_size * proportion.numerator / proportion.denominator;
        assert!(new_width - width < stride && new_height - height < stride);
    }
}
