//! Ordered dithering: each pixel is shifted by a threshold that depends on
//! its place alone, and then matched to the palette.

use vstd::prelude::*;
use crate::color::{clamped, Pixel, Rgb};
use crate::error::DitherError;
use crate::matcher::{lemma_nearest_color, nearest_color, nearest_color_index, nearest_color_of};

verus! {

/// The 8 by 8 threshold matrix, row by row.
pub open spec fn threshold_table() -> Seq<u8> {
    seq![
        0u8, 32, 8, 40, 2, 34, 10, 42,
        48, 16, 56, 24, 50, 18, 58, 26,
        12, 44, 4, 36, 14, 46, 6, 38,
        60, 28, 52, 20, 62, 30, 54, 22,
        3, 35, 11, 43, 1, 33, 9, 41,
        51, 19, 59, 27, 49, 17, 57, 25,
        15, 47, 7, 39, 13, 45, 5, 37,
        63, 31, 55, 23, 61, 29, 53, 21,
    ]
}

/// The threshold at `(x, y)`: the matrix repeats every 8 pixels in both directions.
pub open spec fn threshold(x: int, y: int) -> int {
    threshold_table()[(y % 8) * 8 + (x % 8)] as int
}

/// A colour shifted by a threshold: each channel plus the threshold less 32,
/// held within 0..=255.
pub open spec fn shifted(color: Rgb, level: int) -> (int, int, int) {
    (clamped(color.r + level - 32), clamped(color.g + level - 32), clamped(color.b + level - 32))
}

/// The colour that ordered dithering gives to a pixel of colour `color` at `(x, y)`.
pub open spec fn ordered_color(color: Rgb, x: int, y: int, palette: Seq<Rgb>) -> Rgb {
    nearest_color_of(shifted(color, threshold(x, y)), palette)
}

/// The image that ordered dithering makes of `original`, whose pixels are
/// given row by row.
pub open spec fn ordered_image(original: Seq<Rgb>, width: int, palette: Seq<Rgb>) -> Seq<Rgb> {
    Seq::new(
        original.len(),
        |i: int| ordered_color(original[i], i % width, i / width, palette),
    )
}

/// The threshold matrix, row by row.
pub fn threshold_matrix() -> (table: Vec<u8>)
    ensures
        table@ == threshold_table(),
{
    let table: Vec<u8> = vec![
        0u8, 32, 8, 40, 2, 34, 10, 42,
        48, 16, 56, 24, 50, 18, 58, 26,
        12, 44, 4, 36, 14, 46, 6, 38,
        60, 28, 52, 20, 62, 30, 54, 22,
        3, 35, 11, 43, 1, 33, 9, 41,
        51, 19, 59, 27, 49, 17, 57, 25,
        15, 47, 7, 39, 13, 45, 5, 37,
        63, 31, 55, 23, 61, 29, 53, 21,
    ];
    assert(table@ =~= threshold_table());
    table
}

/// One channel plus the threshold less 32, held within 0..=255.
fn shift_channel(channel: u8, level: u8) -> (v: i64)
    ensures
        v == clamped(channel + level - 32),
{
    let sum: i64 = channel as i64 + level as i64 - 32;
    if sum < 0 {
        0
    } else if sum > 255 {
        255
    } else {
        sum
    }
}

/// Ordered dithering over the pixels of an image, given row by row. An
/// empty palette is refused, and so is a row of pixels that is not
/// `width * height` long.
pub fn ordered_dither(original: &Vec<Rgb>, width: u32, height: u32, palette: &Vec<Rgb>) -> (done:
    Result<Vec<Rgb>, DitherError>)
    ensures
        palette.len() == 0 ==> done == Err::<Vec<Rgb>, DitherError>(DitherError::InvalidPalette),
        palette.len() > 0 && original.len() != width * height ==> done == Err::<
            Vec<Rgb>,
            DitherError,
        >(DitherError::DimensionMismatch),
        palette.len() > 0 && original.len() == width * height ==> done is Ok,
        done matches Ok(image) ==> image@ == ordered_image(original@, width as int, palette@),
{
    if palette.len() == 0 {
        return Err(DitherError::InvalidPalette);
    }
    assert(width * height <= 0xFFFF_FFFF * 0xFFFF_FFFF) by (nonlinear_arith)
        requires
            width <= 0xFFFF_FFFF,
            height <= 0xFFFF_FFFF,
    ;
    if original.len() as u128 != width as u128 * height as u128 {
        return Err(DitherError::DimensionMismatch);
    }
    let table = threshold_matrix();
    let total = original.len();
    let columns = width as usize;
    let mut image: Vec<Rgb> = Vec::new();
    let mut i: usize = 0;
    while i < total
        invariant
            i <= total,
            total == original.len(),
            total == columns * height,
            columns == width,
            palette.len() > 0,
            table@ == threshold_table(),
            image.len() == i,
            forall|j: int|
                0 <= j < i ==> #[trigger] image@[j] == ordered_color(
                    original@[j],
                    j % (width as int),
                    j / (width as int),
                    palette@,
                ),
        decreases total - i,
    {
        proof {
            assert(columns > 0) by (nonlinear_arith)
                requires
                    total == columns * height,
                    total > 0,
            ;
        }
        let x = i % columns;
        let y = i / columns;
        let level = table[(y % 8) * 8 + (x % 8)];
        let color = original[i];
        let moved = Pixel {
            r: shift_channel(color.r, level),
            g: shift_channel(color.g, level),
            b: shift_channel(color.b, level),
        };
        let chosen = match nearest_color(moved, palette) {
            Ok(found) => found,
            Err(_) => {
                proof {
                    assert(false);
                }
                color
            },
        };
        image.push(chosen);
        i += 1;
    }
    assert(image@ =~= ordered_image(original@, width as int, palette@));
    Ok(image)
}

/// Every threshold lies in 0..=63.
pub proof fn law_threshold_range(x: int, y: int)
    ensures
        0 <= threshold(x, y) <= 63,
{
    let at = (y % 8) * 8 + (x % 8);
    assert(0 <= at < 64);
    assert(forall|i: int| 0 <= i < 64 ==> #[trigger] threshold_table()[i] <= 63);
}

/// What ordered dithering gives to a pixel depends on the pixel's colour
/// and on its column and row modulo 8, and on nothing else in the image.
pub proof fn law_ordered_position(
    first: Seq<Rgb>,
    first_width: int,
    i: int,
    second: Seq<Rgb>,
    second_width: int,
    j: int,
    palette: Seq<Rgb>,
)
    requires
        first_width > 0,
        second_width > 0,
        0 <= i < first.len(),
        0 <= j < second.len(),
        first[i] == second[j],
        (i % first_width) % 8 == (j % second_width) % 8,
        (i / first_width) % 8 == (j / second_width) % 8,
    ensures
        ordered_image(first, first_width, palette)[i] == ordered_image(
            second,
            second_width,
            palette,
        )[j],
{
}

/// The pass is a function of what it is given: two runs on the same pixels,
/// width and palette give the same image.
pub proof fn law_ordered_repeatable(
    first: Seq<Rgb>,
    second: Seq<Rgb>,
    original: Seq<Rgb>,
    width: int,
    palette: Seq<Rgb>,
)
    requires
        first == ordered_image(original, width, palette),
        second == ordered_image(original, width, palette),
    ensures
        first == second,
{
}

/// With a palette that is not empty, every pixel of the image that ordered
/// dithering makes has a colour of the palette.
pub proof fn law_ordered_in_palette(original: Seq<Rgb>, width: int, palette: Seq<Rgb>, i: int)
    requires
        palette.len() > 0,
        0 <= i < original.len(),
    ensures
        palette.contains(ordered_image(original, width, palette)[i]),
{
    let moved = shifted(original[i], threshold(i % width, i / width));
    lemma_nearest_color(moved, palette);
    assert(palette[nearest_color_index(moved, palette)] == nearest_color_of(moved, palette));
}

} // verus!
