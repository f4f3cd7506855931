use palette_dither::color::{Pixel, Rgb};
use palette_dither::diffusion::{diffuse, truncate_all};
use palette_dither::error::DitherError;
use palette_dither::kernel::{Offset, Weight};
use palette_dither::ordered::{ordered_dither, threshold_matrix};

fn rgb(r: u8, g: u8, b: u8) -> Rgb {
    Rgb { r, g, b }
}

fn grey(v: u8) -> Rgb {
    Rgb { r: v, g: v, b: v }
}

fn px(r: i64, g: i64, b: i64) -> Pixel {
    Pixel { r, g, b }
}

fn entry(dx: i32, dy: i32, mantissa: i64, exponent: i32) -> Offset {
    Offset { dx, dy, weight: Weight { mantissa, exponent } }
}

fn black_and_white() -> Vec<Rgb> {
    vec![grey(0), grey(255)]
}

fn floyd_steinberg() -> Vec<Offset> {
    vec![entry(1, 0, 7, -4), entry(-1, 1, 3, -4), entry(0, 1, 5, -4), entry(1, 1, 1, -4)]
}

fn gradient(width: u32, height: u32) -> Vec<Rgb> {
    let mut pixels = Vec::new();
    for y in 0..height {
        for x in 0..width {
            pixels.push(rgb((x * 37 + y * 11) as u8, (x * 5 + y * 53) as u8, (x * 91 + y * 7) as u8));
        }
    }
    pixels
}

#[test]
fn threshold_matrix_is_the_bayer_pattern() {
    let table = threshold_matrix();
    assert_eq!(table.len(), 64);
    assert_eq!(&table[0..8], &[0, 32, 8, 40, 2, 34, 10, 42]);
    assert_eq!(&table[8..16], &[48, 16, 56, 24, 50, 18, 58, 26]);
    assert_eq!(&table[16..24], &[12, 44, 4, 36, 14, 46, 6, 38]);
    assert_eq!(&table[24..32], &[60, 28, 52, 20, 62, 30, 54, 22]);
    assert_eq!(&table[32..40], &[3, 35, 11, 43, 1, 33, 9, 41]);
    assert_eq!(&table[40..48], &[51, 19, 59, 27, 49, 17, 57, 25]);
    assert_eq!(&table[48..56], &[15, 47, 7, 39, 13, 45, 5, 37]);
    assert_eq!(&table[56..64], &[63, 31, 55, 23, 61, 29, 53, 21]);
    let mut seen = [false; 64];
    for v in table {
        seen[v as usize] = true;
    }
    assert!(seen.iter().all(|s| *s));
}

#[test]
fn two_by_two_scenario_ordered() {
    let image = vec![grey(10), grey(200), grey(10), grey(200)];
    let out = ordered_dither(&image, 2, 2, &black_and_white()).unwrap();
    assert_eq!(out, vec![grey(0), grey(255), grey(0), grey(255)]);
}

#[test]
fn two_by_two_scenario_diffusion() {
    let image = vec![grey(10), grey(200), grey(10), grey(200)];
    let kernel: Vec<Offset> = Vec::new();
    let work = diffuse(&image, 2, 2, &black_and_white(), &kernel).unwrap();
    assert_eq!(truncate_all(&work), vec![grey(0), grey(255), grey(0), grey(255)]);
    let work = diffuse(&image, 2, 2, &black_and_white(), &floyd_steinberg()).unwrap();
    assert_eq!(truncate_all(&work), vec![grey(0), grey(255), grey(0), grey(255)]);
}

#[test]
fn single_entry_palette_one_by_one() {
    let palette = vec![grey(5)];
    for v in [0u8, 5, 77, 255] {
        let image = vec![rgb(v, 255 - v, v / 2)];
        assert_eq!(ordered_dither(&image, 1, 1, &palette), Ok(vec![grey(5)]));
        let work = diffuse(&image, 1, 1, &palette, &floyd_steinberg()).unwrap();
        assert_eq!(work, vec![px(5, 5, 5)]);
        assert_eq!(truncate_all(&work), vec![grey(5)]);
    }
}

#[test]
fn ordered_threshold_decides_mid_grey() {
    // 128 + 0 - 32 = 96 is nearer to black; 128 + 60 - 32 = 156 is nearer to white
    let image = vec![grey(128); 4];
    let out = ordered_dither(&image, 1, 4, &black_and_white()).unwrap();
    // column 0 of rows 0..4 has the thresholds 0, 48, 12, 60
    assert_eq!(out, vec![grey(0), grey(255), grey(0), grey(255)]);
    let out = ordered_dither(&image, 4, 1, &black_and_white()).unwrap();
    // row 0 of columns 0..4 has the thresholds 0, 32, 8, 40: 96, 128, 104, 136
    assert_eq!(out, vec![grey(0), grey(255), grey(0), grey(255)]);
}

#[test]
fn ordered_shift_is_clamped() {
    // 250 + 62 - 32 would be 280 and 3 + 0 - 32 would be -29
    let palette = vec![grey(0), grey(255), grey(24)];
    let image = vec![grey(3), grey(250)];
    let out = ordered_dither(&image, 1, 2, &palette).unwrap();
    // row 0: 3 - 32 clamps to 0; row 1 (threshold 48): 250 + 16 clamps to 255
    assert_eq!(out, vec![grey(0), grey(255)]);
}

#[test]
fn ordered_is_repeatable_and_position_stable() {
    let palette = vec![grey(0), grey(85), grey(170), grey(255), rgb(200, 30, 30), rgb(20, 40, 220)];
    let image = gradient(19, 21);
    let first = ordered_dither(&image, 19, 21, &palette).unwrap();
    let second = ordered_dither(&image, 19, 21, &palette).unwrap();
    assert_eq!(first, second);
    // the same colour at places that agree modulo 8 gets the same result,
    // whatever surrounds it
    let flat = vec![rgb(120, 130, 140); 17 * 17];
    let out = ordered_dither(&flat, 17, 17, &palette).unwrap();
    for y in 0..17usize {
        for x in 0..17usize {
            assert_eq!(out[y * 17 + x], out[(y % 8) * 17 + (x % 8)]);
        }
    }
    let mut other = gradient(9, 9);
    other[8 * 9 + 8] = rgb(120, 130, 140);
    let out_other = ordered_dither(&other, 9, 9, &palette).unwrap();
    assert_eq!(out_other[8 * 9 + 8], out[0]);
}

#[test]
fn ordered_output_uses_palette_colours_only() {
    let palette = vec![rgb(1, 2, 3), rgb(250, 128, 0), rgb(0, 99, 199)];
    let out = ordered_dither(&gradient(13, 7), 13, 7, &palette).unwrap();
    assert_eq!(out.len(), 91);
    assert!(out.iter().all(|c| palette.contains(c)));
}

#[test]
fn diffusion_hands_error_to_the_interior() {
    // 3 by 3 greys of 100; the pixel left of the centre hands half of its
    // error (100) to the centre, which then holds 150 and becomes white.
    let image = vec![grey(100); 9];
    let kernel = vec![entry(1, 0, 1, -1)];
    let work = diffuse(&image, 3, 3, &black_and_white(), &kernel).unwrap();
    let mut expected = vec![px(0, 0, 0); 9];
    expected[4] = px(255, 255, 255);
    assert_eq!(work, expected);
}

#[test]
fn diffusion_backwards_offset_leaves_error_in_the_output() {
    // The pixel right of the centre is visited after the centre and hands
    // three times its error (100) back to it: the centre ends at 0 + 300,
    // which is 44 once cut down to 8 bits.
    let image = vec![grey(100); 9];
    let kernel = vec![entry(-1, 0, 3, 0)];
    let work = diffuse(&image, 3, 3, &black_and_white(), &kernel).unwrap();
    let mut expected = vec![px(0, 0, 0); 9];
    expected[4] = px(300, 300, 300);
    assert_eq!(work, expected);
    assert_eq!(truncate_all(&work)[4], grey(44));
}

#[test]
fn diffusion_entries_apply_in_order_and_may_overlap() {
    // Both entries point from the pixel above the centre to the centre.
    let image = vec![grey(0), grey(40), grey(0), grey(0), grey(0), grey(0), grey(0), grey(0), grey(0)];
    let kernel = vec![entry(0, 1, 1, 0), entry(0, 1, 1, -1)];
    let palette = vec![grey(0), grey(255)];
    let work = diffuse(&image, 3, 3, &palette, &kernel).unwrap();
    // centre receives 40 + 20 = 60, is matched to black, and hands its
    // error of 60 to the bottom row, which is border and takes nothing
    assert_eq!(work, vec![px(0, 0, 0); 9]);
    let none: Vec<Offset> = Vec::new();
    let work = diffuse(&image, 3, 3, &vec![grey(0), grey(90)], &kernel).unwrap();
    let mut expected = vec![px(0, 0, 0); 9];
    expected[1] = px(0, 0, 0);
    expected[4] = px(90, 90, 90);
    assert_eq!(work, expected);
    let plain = diffuse(&image, 3, 3, &vec![grey(0), grey(90)], &none).unwrap();
    let mut expected = vec![px(0, 0, 0); 9];
    expected[1] = px(0, 0, 0);
    assert_eq!(plain, expected);
}

#[test]
fn diffusion_is_repeatable() {
    let palette = vec![grey(0), grey(85), grey(170), grey(255), rgb(200, 30, 30), rgb(20, 40, 220)];
    let image = gradient(16, 12);
    let first = diffuse(&image, 16, 12, &palette, &floyd_steinberg()).unwrap();
    let second = diffuse(&image, 16, 12, &palette, &floyd_steinberg()).unwrap();
    assert_eq!(first, second);
    assert_eq!(truncate_all(&first), truncate_all(&second));
}

#[test]
fn border_pixels_receive_no_error() {
    let palette = vec![grey(0), grey(85), grey(170), grey(255), rgb(200, 30, 30), rgb(20, 40, 220)];
    let image = gradient(11, 9);
    let mut kernel = floyd_steinberg();
    kernel.push(entry(-2, -1, 1, 0));
    kernel.push(entry(3, 2, -3, -1));
    let with_kernel = diffuse(&image, 11, 9, &palette, &kernel).unwrap();
    let none: Vec<Offset> = Vec::new();
    let without = diffuse(&image, 11, 9, &palette, &none).unwrap();
    let mut interior_differs = false;
    for y in 0..9usize {
        for x in 0..11usize {
            let i = y * 11 + x;
            if x == 0 || x == 10 || y == 0 || y == 8 {
                // a border pixel holds the colour matched to what it held at first
                assert_eq!(with_kernel[i], without[i]);
                assert!(palette.contains(&with_kernel[i].truncate()));
            } else if with_kernel[i] != without[i] {
                interior_differs = true;
            }
        }
    }
    assert!(interior_differs);
}

#[test]
fn images_without_interior_are_matched_pixel_by_pixel() {
    let palette = black_and_white();
    for (w, h) in [(1u32, 6u32), (6, 1), (2, 5), (5, 2), (2, 2)] {
        let image = gradient(w, h);
        let with_kernel = diffuse(&image, w, h, &palette, &floyd_steinberg()).unwrap();
        let none: Vec<Offset> = Vec::new();
        assert_eq!(with_kernel, diffuse(&image, w, h, &palette, &none).unwrap());
    }
}

#[test]
fn empty_image_gives_empty_output() {
    let image: Vec<Rgb> = Vec::new();
    assert_eq!(ordered_dither(&image, 0, 0, &black_and_white()), Ok(Vec::new()));
    assert_eq!(ordered_dither(&image, 0, 7, &black_and_white()), Ok(Vec::new()));
    assert_eq!(diffuse(&image, 5, 0, &black_and_white(), &floyd_steinberg()), Ok(Vec::new()));
}

#[test]
fn passes_refuse_an_empty_palette() {
    let palette: Vec<Rgb> = Vec::new();
    let image = vec![grey(1); 4];
    assert_eq!(ordered_dither(&image, 2, 2, &palette), Err(DitherError::InvalidPalette));
    assert_eq!(diffuse(&image, 2, 2, &palette, &floyd_steinberg()), Err(DitherError::InvalidPalette));
    // also where the size is wrong, and where there is no pixel to match
    assert_eq!(ordered_dither(&image, 3, 2, &palette), Err(DitherError::InvalidPalette));
    let empty: Vec<Rgb> = Vec::new();
    assert_eq!(diffuse(&empty, 0, 0, &palette, &floyd_steinberg()), Err(DitherError::InvalidPalette));
}

#[test]
fn passes_refuse_a_wrong_size() {
    let image = vec![grey(1); 6];
    assert_eq!(ordered_dither(&image, 2, 2, &black_and_white()), Err(DitherError::DimensionMismatch));
    assert_eq!(ordered_dither(&image, 7, 1, &black_and_white()), Err(DitherError::DimensionMismatch));
    assert_eq!(
        diffuse(&image, 4, 2, &black_and_white(), &floyd_steinberg()),
        Err(DitherError::DimensionMismatch)
    );
    assert_eq!(
        diffuse(&image, u32::MAX, u32::MAX, &black_and_white(), &floyd_steinberg()),
        Err(DitherError::DimensionMismatch)
    );
    assert!(ordered_dither(&image, 3, 2, &black_and_white()).is_ok());
    assert!(ordered_dither(&image, 2, 3, &black_and_white()).is_ok());
}

#[test]
fn floyd_steinberg_on_a_grey_field() {
    // 4 by 4 greys of 128 against black and white, worked out by hand:
    // only the four interior pixels can receive error.
    let image = vec![grey(128); 16];
    let work = diffuse(&image, 4, 4, &black_and_white(), &floyd_steinberg()).unwrap();
    // 128 is one nearer to white (127 away) than to black (128 away)
    let w = px(255, 255, 255);
    let b = px(0, 0, 0);
    // row 0 and (0,1): each is white with error -127.
    // (1,1) receives from (0,0) 1/16: -8, from (1,0) 5/16: -40, from (2,0) 3/16: -24,
    // from (0,1) 7/16: -56; it holds 128 - 128 = 0, is black, error 0.
    // (2,1) receives from (1,0): -8, (2,0): -40, (3,0): -24, (1,1): 0; holds 56, black, error 56.
    // (3,1) is border: white.
    // (0,2) is border: white, error -127.
    // (1,2) receives from (0,1): -8, (1,1): 0, (2,1) 3/16 of 56: 11 (10.5 rounds up),
    // (0,2) 7/16: -56; holds 128 - 8 + 11 - 56 = 75, black, error 75.
    // (2,2) receives from (1,1): 0, (2,1) 5/16 of 56: 18 (17.5), (3,1) 3/16 of -127: -24,
    // (1,2) 7/16 of 75: 33 (32.8); holds 128 + 18 - 24 + 33 = 155, white.
    let expected = vec![w, w, w, w, w, b, b, w, w, b, w, w, w, w, w, w];
    assert_eq!(work, expected);
}
