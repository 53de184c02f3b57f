//! Cutting an image into overlapping square tiles.
//!
//! A tile grid is fixed by the image's width and height, the side of a tile and
//! the proportion of a tile's side by which neighbouring tiles are shifted. The
//! proportion is kept as a fraction so that every divisibility test is exact.

use crate::image_utils::padding::{
    fits_in_memory, is_padding_of, pad_to_larger_size, raster_dimensions, RgbRaster,
};
use crate::text::{decimal, decimal_string};
use vstd::prelude::*;
use vstd::string::*;

verus! {

/// The shift between neighbouring tiles, as a fraction of the tile's side.
#[derive(Clone, Copy, Debug, PartialEq, Eq, Structural)]
pub struct OverlapProportion {
    pub numerator: u32,
    pub denominator: u32,
}

impl OverlapProportion {
    /// Both parts are positive, so the fraction and the stride it gives exist.
    pub open spec fn is_positive(self) -> bool {
        self.numerator > 0 && self.denominator > 0
    }

    /// A positive fraction below one: neighbouring tiles really overlap.
    pub open spec fn is_proper(self) -> bool {
        0 < self.numerator < self.denominator
    }

    /// Tells whether the fraction is positive and below one.
    pub fn check_proper(&self) -> (proper: bool)
        ensures
            proper == self.is_proper(),
    {
        0 < self.numerator && self.numerator < self.denominator
    }
}

/// Why an image cannot be tiled with the given parameters.
#[derive(Debug, PartialEq, Eq, Structural)]
pub enum TilingError {
    /// The tile is wider or taller than the image.
    InvalidTileSize { tile_size: u32, image_width: u32, image_height: u32 },
    /// The proportion of the tile's side is not a whole number of pixels.
    IncompatibleProportionWithTileSize { tile_size: u32, overlap_proportion: OverlapProportion },
    /// Tiles shifted by the stride do not end exactly at the image's border.
    UnevenImageDivision {
        image_height: u32,
        image_width: u32,
        tile_size: u32,
        overlap_proportion: OverlapProportion,
    },
}

/// The rows and columns of the image that one tile covers: rows
/// `start_row..end_row` and columns `start_col..end_col`.
#[derive(Clone, Copy, Debug, PartialEq, Eq, Structural)]
pub struct TileWindow {
    pub start_row: u32,
    pub end_row: u32,
    pub start_col: u32,
    pub end_col: u32,
}

impl TileWindow {
    /// The number of pixels the window covers.
    pub open spec fn pixel_count(self) -> int {
        (self.end_row - self.start_row) * (self.end_col - self.start_col)
    }

    /// The window lies inside an image of the given size.
    pub open spec fn within(self, image_width: u32, image_height: u32) -> bool {
        &&& self.start_row <= self.end_row <= image_height
        &&& self.start_col <= self.end_col <= image_width
    }
}

/// The distance in pixels between the origins of neighbouring tiles.
pub open spec fn stride_of(tile_size: u32, proportion: OverlapProportion) -> int {
    (tile_size as int * proportion.numerator as int) / (proportion.denominator as int)
}

/// The proportion of the tile's side is a whole number of pixels.
pub open spec fn proportion_fits_tile(tile_size: u32, proportion: OverlapProportion) -> bool {
    (tile_size as int * proportion.numerator as int) % (proportion.denominator as int) == 0
}

/// Tiles of side `tile_size`, shifted by the stride, cover a length exactly.
pub open spec fn length_divides_evenly(
    length: u32,
    tile_size: u32,
    proportion: OverlapProportion,
) -> bool {
    (length - tile_size) % stride_of(tile_size, proportion) == 0
}

/// What validation answers: the first rule that the parameters break, if any.
pub open spec fn tiling_verdict(
    proportion: OverlapProportion,
    tile_size: u32,
    image_width: u32,
    image_height: u32,
) -> Option<TilingError> {
    if tile_size > image_width || tile_size > image_height {
        Some(TilingError::InvalidTileSize { tile_size, image_width, image_height })
    } else if !proportion_fits_tile(tile_size, proportion) {
        Some(
            TilingError::IncompatibleProportionWithTileSize {
                tile_size,
                overlap_proportion: proportion,
            },
        )
    } else if !length_divides_evenly(image_width, tile_size, proportion)
        || !length_divides_evenly(image_height, tile_size, proportion) {
        Some(
            TilingError::UnevenImageDivision {
                image_height,
                image_width,
                tile_size,
                overlap_proportion: proportion,
            },
        )
    } else {
        None
    }
}

/// The parameters describe a grid: the tile fits, the stride is whole, and the
/// last tile of each row and column ends at the image's border.
pub open spec fn can_tile(
    proportion: OverlapProportion,
    tile_size: u32,
    image_width: u32,
    image_height: u32,
) -> bool {
    &&& tile_size <= image_width
    &&& tile_size <= image_height
    &&& proportion_fits_tile(tile_size, proportion)
    &&& length_divides_evenly(image_width, tile_size, proportion)
    &&& length_divides_evenly(image_height, tile_size, proportion)
}

/// The number of tiles along a side of the given length.
pub open spec fn tiles_along(length: u32, tile_size: u32, proportion: OverlapProportion) -> int {
    (length - tile_size) / stride_of(tile_size, proportion) + 1
}

/// The window of the tile in row `row` and column `col` of the grid.
pub open spec fn window_at(
    row: int,
    col: int,
    tile_size: u32,
    proportion: OverlapProportion,
) -> (int, int, int, int) {
    let stride = stride_of(tile_size, proportion);
    (row * stride, row * stride + tile_size, col * stride, col * stride + tile_size)
}

/// The four bounds of a window, in the order of `window_at`.
pub open spec fn window_bounds(window: TileWindow) -> (int, int, int, int) {
    (window.start_row as int, window.end_row as int, window.start_col as int, window.end_col as int)
}

/// The product of two 32-bit numbers fits in 64 bits.
proof fn lemma_product_fits(a: u32, b: u32)
    ensures
        0 <= (a as int) * (b as int) <= 0xFFFF_FFFE_0000_0001,
{
    assert(0 <= (a as int) * (b as int) <= 0xFFFF_FFFF * 0xFFFF_FFFF) by (nonlinear_arith)
        requires
            0 <= a <= 0xFFFF_FFFF,
            0 <= b <= 0xFFFF_FFFF,
    ;
}

/// A positive product that its divisor divides is at least the divisor, so the
/// stride of a grid is at least one pixel.
pub proof fn lemma_stride_positive(tile_size: u32, proportion: OverlapProportion)
    requires
        proportion.is_positive(),
        tile_size > 0,
        proportion_fits_tile(tile_size, proportion),
    ensures
        stride_of(tile_size, proportion) >= 1,
        stride_of(tile_size, proportion) * proportion.denominator == tile_size * proportion.numerator,
{
    let product = tile_size as int * proportion.numerator as int;
    let den = proportion.denominator as int;
    assert(product >= 1) by (nonlinear_arith)
        requires
            product == tile_size as int * proportion.numerator as int,
            tile_size >= 1,
            proportion.numerator >= 1,
    ;
    vstd::arithmetic::div_mod::lemma_fundamental_div_mod(product, den);
    assert(product == den * (product / den));
    assert(product / den >= 1) by (nonlinear_arith)
        requires
            product == den * (product / den),
            product >= 1,
            den >= 1,
    ;
    assert((product / den) * den == product) by (nonlinear_arith)
        requires
            product == den * (product / den),
    ;
}

/// The stride between neighbouring tiles, rounded down to whole pixels.
pub fn compute_stride(tile_size: u32, proportion: OverlapProportion) -> (stride: u64)
    requires
        proportion.denominator > 0,
    ensures
        stride == stride_of(tile_size, proportion),
{
    proof {
        lemma_product_fits(tile_size, proportion.numerator);
    }
    let product: u64 = (tile_size as u64) * (proportion.numerator as u64);
    product / (proportion.denominator as u64)
}

/// Checks that an image of the given size can be cut into tiles of side
/// `tile_size` whose origins are `tile_size * numerator / denominator` pixels
/// apart. Returns the first broken rule, or `None` when a grid exists.
pub fn validate_tiling_parameters(
    proportion: OverlapProportion,
    tile_size: u32,
    image_width: u32,
    image_height: u32,
) -> (verdict: Option<TilingError>)
    requires
        proportion.is_positive(),
        tile_size > 0,
    ensures
        verdict == tiling_verdict(proportion, tile_size, image_width, image_height),
        verdict.is_none() <==> can_tile(proportion, tile_size, image_width, image_height),
{
    if tile_size > image_width || tile_size > image_height {
        return Some(TilingError::InvalidTileSize { tile_size, image_width, image_height });
    }
    proof {
        lemma_product_fits(tile_size, proportion.numerator);
    }
    let product: u64 = (tile_size as u64) * (proportion.numerator as u64);
    let tile_cleanly_divides = product % (proportion.denominator as u64) == 0;
    if !tile_cleanly_divides {
        return Some(
            TilingError::IncompatibleProportionWithTileSize {
                tile_size,
                overlap_proportion: proportion,
            },
        );
    }
    proof {
        lemma_stride_positive(tile_size, proportion);
    }
    let stride: u64 = product / (proportion.denominator as u64);
    let tiles_fit_cleanly_laterally = ((image_width - tile_size) as u64) % stride == 0;
    let tiles_fit_cleanly_vertically = ((image_height - tile_size) as u64) % stride == 0;
    if !tiles_fit_cleanly_laterally || !tiles_fit_cleanly_vertically {
        return Some(
            TilingError::UnevenImageDivision {
                image_height,
                image_width,
                tile_size,
                overlap_proportion: proportion,
            },
        );
    }
    None
}

/// `tiles` is the grid of the parameters: one row of windows for each tile row,
/// top to bottom, each holding the windows of that row from left to right.
pub open spec fn is_tile_grid(
    tiles: Vec<Vec<TileWindow>>,
    image_width: u32,
    image_height: u32,
    tile_size: u32,
    proportion: OverlapProportion,
) -> bool {
    &&& tiles@.len() == tiles_along(image_height, tile_size, proportion)
    &&& forall|row: int|
        0 <= row < tiles@.len() ==> (#[trigger] tiles@[row])@.len() == tiles_along(
            image_width,
            tile_size,
            proportion,
        )
    &&& forall|row: int, col: int|
        0 <= row < tiles@.len() && 0 <= col < tiles@[row]@.len() ==> window_bounds(
            #[trigger] tiles@[row]@[col],
        ) == window_at(row, col, tile_size, proportion)
}

/// Whole strides that stay within a distance add up to at most that distance.
proof fn lemma_strides_within(count: int, stride: int, distance: int)
    requires
        stride >= 1,
        distance >= 0,
        0 <= count <= distance / stride,
    ensures
        0 <= count * stride <= distance,
{
    vstd::arithmetic::div_mod::lemma_fundamental_div_mod(distance, stride);
    let quotient = distance / stride;
    assert(0 <= distance % stride);
    assert(count * stride <= quotient * stride) by (nonlinear_arith)
        requires
            0 <= count <= quotient,
            stride >= 1,
    ;
    assert(quotient * stride == stride * quotient) by (nonlinear_arith);
    assert(0 <= count * stride) by (nonlinear_arith)
        requires
            0 <= count,
            stride >= 1,
    ;
}

/// Every tile of a grid lies inside the image and holds exactly
/// `tile_size * tile_size` pixels.
pub proof fn lemma_tile_within_image(
    row: int,
    col: int,
    proportion: OverlapProportion,
    tile_size: u32,
    image_width: u32,
    image_height: u32,
)
    requires
        proportion.is_positive(),
        tile_size > 0,
        can_tile(proportion, tile_size, image_width, image_height),
        0 <= row < tiles_along(image_height, tile_size, proportion),
        0 <= col < tiles_along(image_width, tile_size, proportion),
    ensures
        ({
            let (start_row, end_row, start_col, end_col) = window_at(row, col, tile_size, proportion);
            &&& 0 <= start_row
            &&& end_row == start_row + tile_size
            &&& end_row <= image_height
            &&& 0 <= start_col
            &&& end_col == start_col + tile_size
            &&& end_col <= image_width
            &&& (end_row - start_row) * (end_col - start_col) == tile_size * tile_size
        }),
{
    lemma_stride_positive(tile_size, proportion);
    let stride = stride_of(tile_size, proportion);
    lemma_strides_within(row, stride, image_height - tile_size);
    lemma_strides_within(col, stride, image_width - tile_size);
}

/// Shifting a position inside a tile by the tile's origin gives a position
/// inside the image: a point `(x, y)` of a tile, with both coordinates between
/// zero and `tile_size`, lands between zero and the image's width and height.
pub proof fn lemma_rebased_point_within_image(
    row: int,
    col: int,
    x: int,
    y: int,
    proportion: OverlapProportion,
    tile_size: u32,
    image_width: u32,
    image_height: u32,
)
    requires
        proportion.is_positive(),
        tile_size > 0,
        can_tile(proportion, tile_size, image_width, image_height),
        0 <= row < tiles_along(image_height, tile_size, proportion),
        0 <= col < tiles_along(image_width, tile_size, proportion),
        0 <= x <= tile_size,
        0 <= y <= tile_size,
    ensures
        0 <= window_at(row, col, tile_size, proportion).2 + x <= image_width,
        0 <= window_at(row, col, tile_size, proportion).0 + y <= image_height,
{
    lemma_tile_within_image(row, col, proportion, tile_size, image_width, image_height);
}

/// Lays out the tile grid of an image: row by row from the top, and in each row
/// from the left, the window that each tile covers. A window's `start_col` and
/// `start_row` are also the amounts by which positions found inside the tile
/// are shifted to become positions in the image.
///
/// Fails with the verdict of `validate_tiling_parameters` when no grid exists.
pub fn tile_image(
    image_width: u32,
    image_height: u32,
    tile_size: u32,
    proportion: OverlapProportion,
) -> (result: Result<Vec<Vec<TileWindow>>, TilingError>)
    requires
        proportion.is_positive(),
        tile_size > 0,
    ensures
        result.is_ok() <==> can_tile(proportion, tile_size, image_width, image_height),
        match result {
            Ok(tiles) => {
                &&& is_tile_grid(tiles, image_width, image_height, tile_size, proportion)
                &&& forall|row: int, col: int|
                    0 <= row < tiles@.len() && 0 <= col < tiles@[row]@.len() ==> {
                        &&& (#[trigger] tiles@[row]@[col]).within(image_width, image_height)
                        &&& tiles@[row]@[col].pixel_count() == tile_size * tile_size
                    }
            },
            Err(e) => tiling_verdict(proportion, tile_size, image_width, image_height) == Some(e),
        },
{
    if let Some(e) = validate_tiling_parameters(proportion, tile_size, image_width, image_height) {
        return Err(e);
    }
    proof {
        lemma_stride_positive(tile_size, proportion);
    }
    let stride: u64 = compute_stride(tile_size, proportion);
    let num_rows: u64 = ((image_height - tile_size) as u64) / stride + 1;
    let num_columns: u64 = ((image_width - tile_size) as u64) / stride + 1;

    let mut tiles: Vec<Vec<TileWindow>> = Vec::new();
    let mut row_ix: u64 = 0;
    while row_ix < num_rows
        invariant
            proportion.is_positive(),
            tile_size > 0,
            can_tile(proportion, tile_size, image_width, image_height),
            stride == stride_of(tile_size, proportion),
            stride >= 1,
            num_rows == tiles_along(image_height, tile_size, proportion),
            num_columns == tiles_along(image_width, tile_size, proportion),
            row_ix <= num_rows,
            tiles@.len() == row_ix,
            forall|row: int|
                0 <= row < tiles@.len() ==> (#[trigger] tiles@[row])@.len() == num_columns,
            forall|row: int, col: int|
                0 <= row < tiles@.len() && 0 <= col < tiles@[row]@.len() ==> window_bounds(
                    #[trigger] tiles@[row]@[col],
                ) == window_at(row, col, tile_size, proportion),
        decreases num_rows - row_ix,
    {
        proof {
            lemma_strides_within(row_ix as int, stride as int, image_height - tile_size);
        }
        let start_row: u32 = (row_ix * stride) as u32;
        let end_row: u32 = start_row + tile_size;
        let mut row_of_tiles: Vec<TileWindow> = Vec::new();
        let mut col_ix: u64 = 0;
        while col_ix < num_columns
            invariant
                proportion.is_positive(),
                tile_size > 0,
                can_tile(proportion, tile_size, image_width, image_height),
                stride == stride_of(tile_size, proportion),
                stride >= 1,
                num_columns == tiles_along(image_width, tile_size, proportion),
                col_ix <= num_columns,
                start_row == row_ix * stride,
                end_row == start_row + tile_size,
                row_of_tiles@.len() == col_ix,
                forall|col: int|
                    0 <= col < row_of_tiles@.len() ==> window_bounds(#[trigger] row_of_tiles@[col])
                        == window_at(row_ix as int, col, tile_size, proportion),
            decreases num_columns - col_ix,
        {
            proof {
                lemma_strides_within(col_ix as int, stride as int, image_width - tile_size);
            }
            let start_col: u32 = (col_ix * stride) as u32;
            let end_col: u32 = start_col + tile_size;
            row_of_tiles.push(TileWindow { start_row, end_row, start_col, end_col });
            col_ix += 1;
        }
        tiles.push(row_of_tiles);
        row_ix += 1;
    }
    proof {
        assert forall|row: int, col: int|
            0 <= row < tiles@.len() && 0 <= col < tiles@[row]@.len() implies {
                &&& (#[trigger] tiles@[row]@[col]).within(image_width, image_height)
                &&& tiles@[row]@[col].pixel_count() == tile_size * tile_size
            } by {
            lemma_tile_within_image(row, col, proportion, tile_size, image_width, image_height);
        }
    }
    Ok(tiles)
}

/// The length that padding aims at: the number of strides needed to cover
/// `length`, rounded up, times the stride `tile_size * numerator / denominator`,
/// the product rounded down to whole pixels.
pub open spec fn padded_length(length: u32, tile_size: u32, proportion: OverlapProportion) -> int {
    let step = tile_size as int * proportion.numerator as int;
    let strides = (length as int * proportion.denominator as int + step - 1) / step;
    (strides * step) / (proportion.denominator as int)
}

/// A length as a 32-bit image dimension can hold it: the largest dimension
/// stands for every longer one.
pub open spec fn saturated(length: int) -> int {
    if length > u32::MAX {
        u32::MAX as int
    } else {
        length
    }
}

/// Rounding a quotient up gives the least count of steps that covers the total.
proof fn lemma_steps_cover(total: int, step: int)
    requires
        total >= 0,
        step >= 1,
    ensures
        ({
            let steps = (total + step - 1) / step;
            &&& steps >= 0
            &&& total <= steps * step <= total + step - 1
        }),
{
    let steps = (total + step - 1) / step;
    vstd::arithmetic::div_mod::lemma_fundamental_div_mod(total + step - 1, step);
    let rest = (total + step - 1) % step;
    assert(0 <= rest < step);
    assert(steps * step == step * steps) by (nonlinear_arith);
    assert(steps >= 0) by (nonlinear_arith)
        requires
            step * steps == total + step - 1 - rest,
            total >= 0,
            rest < step,
            step >= 1,
    ;
}

/// Padding never shortens: the padded length is at least the length.
pub proof fn lemma_padded_length_covers(
    length: u32,
    tile_size: u32,
    proportion: OverlapProportion,
)
    requires
        proportion.is_positive(),
        tile_size > 0,
    ensures
        padded_length(length, tile_size, proportion) >= length,
{
    let den = proportion.denominator as int;
    let step = tile_size as int * proportion.numerator as int;
    let total = length as int * den;
    assert(step >= 1) by (nonlinear_arith)
        requires
            step == tile_size as int * proportion.numerator as int,
            tile_size >= 1,
            proportion.numerator >= 1,
    ;
    assert(total >= 0) by (nonlinear_arith)
        requires
            total == length as int * den,
            length >= 0,
            den >= 1,
    ;
    lemma_steps_cover(total, step);
    let steps = (total + step - 1) / step;
    vstd::arithmetic::div_mod::lemma_div_is_ordered(total, steps * step, den);
    vstd::arithmetic::div_mod::lemma_div_multiples_vanish(length as int, den);
    assert(total == den * length) by (nonlinear_arith)
        requires
            total == length as int * den,
    ;
}

/// Where the stride is a whole number of pixels, the padded length is the
/// least multiple of the stride that is not below the length.
pub proof fn lemma_padded_length_is_least_multiple(
    length: u32,
    tile_size: u32,
    proportion: OverlapProportion,
)
    requires
        proportion.is_positive(),
        tile_size > 0,
        proportion_fits_tile(tile_size, proportion),
    ensures
        ({
            let stride = stride_of(tile_size, proportion);
            let padded = padded_length(length, tile_size, proportion);
            &&& padded % stride == 0
            &&& padded - stride < length <= padded
        }),
{
    lemma_stride_positive(tile_size, proportion);
    lemma_padded_length_covers(length, tile_size, proportion);
    let den = proportion.denominator as int;
    let stride = stride_of(tile_size, proportion);
    let step = tile_size as int * proportion.numerator as int;
    let total = length as int * den;
    assert(step == stride * den);
    assert(step >= 1) by (nonlinear_arith)
        requires
            step == stride * den,
            stride >= 1,
            den >= 1,
    ;
    assert(total >= 0) by (nonlinear_arith)
        requires
            total == length as int * den,
            length >= 0,
            den >= 1,
    ;
    lemma_steps_cover(total, step);
    let steps = (total + step - 1) / step;
    assert(steps * step == den * (steps * stride)) by (nonlinear_arith)
        requires
            step == stride * den,
    ;
    vstd::arithmetic::div_mod::lemma_div_multiples_vanish(steps * stride, den);
    let padded = padded_length(length, tile_size, proportion);
    assert(padded == steps * stride);
    vstd::arithmetic::div_mod::lemma_mod_multiples_basic(steps, stride);
    assert((steps * stride - stride) * den < length * den) by (nonlinear_arith)
        requires
            steps * step <= total + step - 1,
            step == stride * den,
            total == length as int * den,
    ;
    assert(steps * stride - stride < length) by (nonlinear_arith)
        requires
            (steps * stride - stride) * den < length * den,
            den >= 1,
    ;
}

/// Padding makes an image fit for tiling: where the stride is a whole number
/// of pixels that divides the tile's side, as with a proportion of one half
/// or one third, an image padded to `padded_length` in both dimensions can be
/// tiled as soon as it is no smaller than a tile.
pub proof fn lemma_padded_size_can_be_tiled(
    image_width: u32,
    image_height: u32,
    tile_size: u32,
    proportion: OverlapProportion,
)
    requires
        proportion.is_positive(),
        tile_size > 0,
        proportion_fits_tile(tile_size, proportion),
        tile_size as int % stride_of(tile_size, proportion) == 0,
        tile_size <= padded_length(image_width, tile_size, proportion) <= u32::MAX,
        tile_size <= padded_length(image_height, tile_size, proportion) <= u32::MAX,
    ensures
        can_tile(
            proportion,
            tile_size,
            padded_length(image_width, tile_size, proportion) as u32,
            padded_length(image_height, tile_size, proportion) as u32,
        ),
{
    lemma_stride_positive(tile_size, proportion);
    let stride = stride_of(tile_size, proportion);
    lemma_padded_length_is_least_multiple(image_width, tile_size, proportion);
    lemma_padded_length_is_least_multiple(image_height, tile_size, proportion);
    let new_width = padded_length(image_width, tile_size, proportion);
    let new_height = padded_length(image_height, tile_size, proportion);
    vstd::arithmetic::div_mod::lemma_sub_mod_noop(new_width, tile_size as int, stride);
    vstd::arithmetic::div_mod::lemma_sub_mod_noop(new_height, tile_size as int, stride);
    vstd::arithmetic::div_mod::lemma_small_mod(0, stride as nat);
}

/// One side of the padded image: `padded_length`, held to 32 bits.
fn padded_side(length: u32, tile_size: u32, proportion: OverlapProportion) -> (padded: u32)
    requires
        proportion.is_positive(),
        tile_size > 0,
    ensures
        padded == saturated(padded_length(length, tile_size, proportion)),
        padded >= length,
{
    proof {
        lemma_product_fits(tile_size, proportion.numerator);
        lemma_product_fits(length, proportion.denominator);
        lemma_padded_length_covers(length, tile_size, proportion);
    }
    let step: u128 = (tile_size as u128) * (proportion.numerator as u128);
    let total: u128 = (length as u128) * (proportion.denominator as u128);
    proof {
        assert(step >= 1) by (nonlinear_arith)
            requires
                step == tile_size as int * proportion.numerator as int,
                tile_size >= 1,
                proportion.numerator >= 1,
        ;
        lemma_steps_cover(total as int, step as int);
    }
    let steps: u128 = (total + step - 1) / step;
    let covered: u128 = steps * step;
    let padded: u128 = covered / (proportion.denominator as u128);
    if padded > 0xFFFF_FFFF {
        0xFFFF_FFFF
    } else {
        padded as u32
    }
}

/// The size to which an image is padded so that it can be tiled: for each
/// dimension the number of strides that covers it, rounded up, times the
/// stride. A dimension that 32 bits cannot hold is given as `u32::MAX`.
/// Neither dimension is ever below the original one.
pub fn find_smallest_img_size_large_enough_to_tile(
    original_image_width: u32,
    original_image_height: u32,
    tile_size: u32,
    overlap_proportion: OverlapProportion,
) -> (size: (u32, u32))
    requires
        overlap_proportion.is_positive(),
        tile_size > 0,
    ensures
        size.0 == saturated(padded_length(original_image_width, tile_size, overlap_proportion)),
        size.1 == saturated(padded_length(original_image_height, tile_size, overlap_proportion)),
        size.0 >= original_image_width,
        size.1 >= original_image_height,
{
    let new_width = padded_side(original_image_width, tile_size, overlap_proportion);
    let new_height = padded_side(original_image_height, tile_size, overlap_proportion);
    (new_width, new_height)
}

/// The size of the image that is handed to tiling: the image's own size where
/// it can be tiled as it is, else the padded size.
pub open spec fn size_fit_for_tiling(
    image_width: u32,
    image_height: u32,
    tile_size: u32,
    proportion: OverlapProportion,
) -> (int, int) {
    if can_tile(proportion, tile_size, image_width, image_height) {
        (image_width as int, image_height as int)
    } else {
        (
            saturated(padded_length(image_width, tile_size, proportion)),
            saturated(padded_length(image_height, tile_size, proportion)),
        )
    }
}

/// Decides the size that an image must have before tiling: unchanged where
/// validation passes, otherwise grown on the right and bottom to the size of
/// `find_smallest_img_size_large_enough_to_tile`. The result never asks to
/// crop, so padding to it cannot fail.
pub fn size_to_fit_tiling_params(
    image_width: u32,
    image_height: u32,
    tile_size: u32,
    proportion: OverlapProportion,
) -> (size: (u32, u32))
    requires
        proportion.is_positive(),
        tile_size > 0,
    ensures
        (size.0 as int, size.1 as int) == size_fit_for_tiling(
            image_width,
            image_height,
            tile_size,
            proportion,
        ),
        size.0 >= image_width,
        size.1 >= image_height,
{
    let params_are_valid = validate_tiling_parameters(
        proportion,
        tile_size,
        image_width,
        image_height,
    ).is_none();
    if params_are_valid {
        (image_width, image_height)
    } else {
        find_smallest_img_size_large_enough_to_tile(
            image_width,
            image_height,
            tile_size,
            proportion,
        )
    }
}

impl OverlapProportion {
    /// The fraction as text: numerator, a slash, denominator.
    pub open spec fn text(self) -> Seq<char> {
        decimal(self.numerator as nat) + "/"@ + decimal(self.denominator as nat)
    }

    /// Writes the fraction as `numerator/denominator`.
    pub fn message(&self) -> (text: String)
        ensures
            text@ == self.text(),
    {
        let mut text = decimal_string(self.numerator as u64);
        text.append("/");
        text.append(decimal_string(self.denominator as u64).as_str());
        text
    }
}

impl TilingError {
    /// The error names a rule that its own numbers break: a tile size that is
    /// called too large exceeds the width or the height it is held against.
    pub open spec fn is_justified(self) -> bool {
        match self {
            TilingError::InvalidTileSize { tile_size, image_width, image_height } => tile_size
                > image_width || tile_size > image_height,
            _ => true,
        }
    }

    /// The message of the error.
    pub open spec fn text(self) -> Seq<char> {
        match self {
            TilingError::InvalidTileSize { tile_size, image_width, image_height } => {
                if tile_size > image_width {
                    "Failed to tile image, tile size ("@ + decimal(tile_size as nat)
                        + ") > image width ("@ + decimal(image_width as nat) + ")."@
                } else {
                    "Failed to tile image, tile size ("@ + decimal(tile_size as nat)
                        + ") > image height ("@ + decimal(image_height as nat) + ")."@
                }
            },
            TilingError::IncompatibleProportionWithTileSize { tile_size, overlap_proportion } => {
                "Failed to tile image, overlap proportion ("@ + overlap_proportion.text()
                    + ") does not evenly divide tile size ("@ + decimal(tile_size as nat) + ")."@
            },
            TilingError::UnevenImageDivision {
                image_height,
                image_width,
                tile_size,
                overlap_proportion,
            } => {
                "Failed to tile image, the tile size ("@ + decimal(tile_size as nat)
                    + ") does not evenly divide the image'swidth ("@ + decimal(image_width as nat)
                    + ") and height ("@ + decimal(image_height as nat)
                    + ") given the overlap proportion ("@ + overlap_proportion.text() + ")."@
            },
        }
    }

    /// Writes the message of the error. An error about the tile size names the
    /// dimension that the tile exceeds, the width where it exceeds both.
    pub fn message(&self) -> (text: String)
        requires
            self.is_justified(),
        ensures
            text@ == self.text(),
    {
        match self {
            TilingError::InvalidTileSize { tile_size, image_width, image_height } => {
                if *tile_size > *image_width {
                    let mut text = String::from_str("Failed to tile image, tile size (");
                    text.append(decimal_string(*tile_size as u64).as_str());
                    text.append(") > image width (");
                    text.append(decimal_string(*image_width as u64).as_str());
                    text.append(").");
                    text
                } else {
                    let mut text = String::from_str("Failed to tile image, tile size (");
                    text.append(decimal_string(*tile_size as u64).as_str());
                    text.append(") > image height (");
                    text.append(decimal_string(*image_height as u64).as_str());
                    text.append(").");
                    text
                }
            },
            TilingError::IncompatibleProportionWithTileSize { tile_size, overlap_proportion } => {
                let mut text = String::from_str("Failed to tile image, overlap proportion (");
                text.append(overlap_proportion.message().as_str());
                text.append(") does not evenly divide tile size (");
                text.append(decimal_string(*tile_size as u64).as_str());
                text.append(").");
                text
            },
            TilingError::UnevenImageDivision {
                image_height,
                image_width,
                tile_size,
                overlap_proportion,
            } => {
                let mut text = String::from_str("Failed to tile image, the tile size (");
                text.append(decimal_string(*tile_size as u64).as_str());
                text.append(") does not evenly divide the image'swidth (");
                text.append(decimal_string(*image_width as u64).as_str());
                text.append(") and height (");
                text.append(decimal_string(*image_height as u64).as_str());
                text.append(") given the overlap proportion (");
                text.append(overlap_proportion.message().as_str());
                text.append(").");
                text
            },
        }
    }
}

/// Pads an image to the smallest size that lets it be tiled, if it cannot be
/// tiled as it is: an image that passes validation comes back unchanged, any
/// other grows on its right and bottom to the size of
/// `find_smallest_img_size_large_enough_to_tile`, with black pixels. The
/// padded size must be one that memory can hold.
pub fn pad_image_to_fit_tiling_params(
    image: RgbRaster,
    tile_size: u32,
    proportion: OverlapProportion,
) -> (padded: RgbRaster)
    requires
        proportion.is_positive(),
        tile_size > 0,
        ({
            let (width, height) = raster_dimensions(image);
            let (new_width, new_height) = size_fit_for_tiling(width, height, tile_size, proportion);
            fits_in_memory(new_width as u32, new_height as u32)
        }),
    ensures
        ({
            let (width, height) = raster_dimensions(image);
            let (new_width, new_height) = size_fit_for_tiling(width, height, tile_size, proportion);
            if can_tile(proportion, tile_size, width, height) {
                padded == image
            } else {
                is_padding_of(padded, image, new_width as u32, new_height as u32)
            }
        }),
{
    let (image_width, image_height) = image.dimensions();
    let params_are_valid = validate_tiling_parameters(
        proportion,
        tile_size,
        image_width,
        image_height,
    ).is_none();
    if params_are_valid {
        image
    } else {
        let (new_width, new_height) = find_smallest_img_size_large_enough_to_tile(
            image_width,
            image_height,
            tile_size,
            proportion,
        );
        pad_to_larger_size(&image, new_width, new_height)
    }
}

} // verus!
