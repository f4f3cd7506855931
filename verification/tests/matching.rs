use palette_dither::color::{channel_to_byte, Pixel, Rgb};
use palette_dither::error::DitherError;
use palette_dither::hsv::{hsv_nearer, rgb_to_hsv};
use palette_dither::matcher::{distance, nearest_color, nearest_color_position, nearest_index};

fn rgb(r: u8, g: u8, b: u8) -> Rgb {
    Rgb { r, g, b }
}

fn px(r: i64, g: i64, b: i64) -> Pixel {
    Pixel { r, g, b }
}

#[test]
fn single_entry_palette_always_wins() {
    let palette = vec![rgb(5, 5, 5)];
    for p in [px(0, 0, 0), px(255, 255, 255), px(-4000, 17, 90000), px(5, 5, 5)] {
        assert_eq!(nearest_color(p, &palette), Ok(rgb(5, 5, 5)));
        assert_eq!(nearest_index(p, &palette), Ok(0));
    }
}

#[test]
fn exact_match_is_selected() {
    let palette = vec![rgb(0, 0, 0), rgb(12, 200, 7), rgb(255, 255, 255), rgb(12, 200, 8)];
    let p = px(12, 200, 7);
    assert_eq!(distance(p, palette[1]), 0);
    assert_eq!(nearest_color(p, &palette), Ok(rgb(12, 200, 7)));
    assert_eq!(nearest_index(p, &palette), Ok(1));
}

#[test]
fn exact_match_with_duplicates_gives_first_index() {
    let palette = vec![rgb(9, 9, 9), rgb(1, 2, 3), rgb(1, 2, 3)];
    assert_eq!(nearest_index(px(1, 2, 3), &palette), Ok(1));
    assert_eq!(nearest_color_position(px(1, 2, 3), &palette), Ok(1));
}

#[test]
fn empty_palette_is_invalid() {
    let palette: Vec<Rgb> = Vec::new();
    assert_eq!(nearest_color(px(1, 2, 3), &palette), Err(DitherError::InvalidPalette));
    assert_eq!(nearest_index(px(1, 2, 3), &palette), Err(DitherError::InvalidPalette));
    assert_eq!(nearest_color_position(px(1, 2, 3), &palette), Err(DitherError::InvalidPalette));
}

#[test]
fn distance_is_sum_of_squares() {
    assert_eq!(distance(px(5, 5, 5), rgb(0, 0, 0)), 75);
    assert_eq!(distance(px(5, 5, 5), rgb(10, 10, 10)), 75);
    assert_eq!(distance(px(-3, 300, 0), rgb(1, 255, 2)), 16 + 2025 + 4);
}

#[test]
fn distance_of_extreme_pixel_does_not_overflow() {
    let d = distance(px(i64::MIN, i64::MAX, 0), rgb(255, 0, 0));
    let a = (1u128 << 63) + 255;
    let b = (1u128 << 63) - 1;
    assert_eq!(d, a * a + b * b);
}

#[test]
fn equidistant_achromatic_tie_goes_to_first() {
    // Both entries lie 75 away and differ from the pixel by the same
    // amount of value, so the first entry wins.
    let palette = vec![rgb(0, 0, 0), rgb(10, 10, 10)];
    assert_eq!(nearest_color(px(5, 5, 5), &palette), Ok(rgb(0, 0, 0)));
    assert_eq!(nearest_index(px(5, 5, 5), &palette), Ok(0));
    let swapped = vec![rgb(10, 10, 10), rgb(0, 0, 0)];
    assert_eq!(nearest_color(px(5, 5, 5), &swapped), Ok(rgb(10, 10, 10)));
    assert!(!hsv_nearer(px(5, 5, 5), rgb(0, 0, 0), rgb(10, 10, 10)));
    assert!(!hsv_nearer(px(5, 5, 5), rgb(10, 10, 10), rgb(0, 0, 0)));
}

#[test]
fn tie_is_broken_by_hue_saturation_value() {
    // Black and (20, 0, 0) both lie 100 away from (10, 0, 0). The red entry
    // shares hue and saturation with the pixel, black does not.
    let palette = vec![rgb(0, 0, 0), rgb(20, 0, 0)];
    assert_eq!(nearest_color(px(10, 0, 0), &palette), Ok(rgb(20, 0, 0)));
    assert_eq!(nearest_color_position(px(10, 0, 0), &palette), Ok(1));
    assert_eq!(nearest_index(px(10, 0, 0), &palette), Ok(0));
    assert!(hsv_nearer(px(10, 0, 0), rgb(20, 0, 0), rgb(0, 0, 0)));
    assert!(!hsv_nearer(px(10, 0, 0), rgb(0, 0, 0), rgb(20, 0, 0)));
}

#[test]
fn tie_break_sees_differences_below_one() {
    // (12,8,8) and (12,12,12) both lie 12 away from (10,10,10), and neither
    // differs from it in hue. The grey entry has the pixel's saturation, the
    // other is a third away, so the grey entry wins though it comes second.
    let palette = vec![rgb(12, 8, 8), rgb(12, 12, 12)];
    assert_eq!(distance(px(10, 10, 10), palette[0]), 12);
    assert_eq!(distance(px(10, 10, 10), palette[1]), 12);
    assert_eq!(nearest_color(px(10, 10, 10), &palette), Ok(rgb(12, 12, 12)));
    assert_eq!(nearest_index(px(10, 10, 10), &palette), Ok(0));
}

#[test]
fn full_tie_goes_to_the_first_of_the_nearest() {
    // (0,0,3) and (0,3,0) both lie 9 away from (0,3,3) and 60 degrees of
    // hue to either side of it; (3,0,0) lies 27 away.
    let palette = vec![rgb(3, 0, 0), rgb(0, 0, 3), rgb(0, 3, 0)];
    assert_eq!(nearest_color(px(0, 3, 3), &palette), Ok(rgb(0, 0, 3)));
    assert_eq!(nearest_color_position(px(0, 3, 3), &palette), Ok(1));
    assert_eq!(nearest_index(px(0, 3, 3), &palette), Ok(1));
}

fn float_hsv(p: (f64, f64, f64)) -> (f64, f64, f64) {
    let (r, g, b) = (p.0 / 255.0, p.1 / 255.0, p.2 / 255.0);
    let max = r.max(g).max(b);
    let min = r.min(g).min(b);
    let delta = max - min;
    let h = if delta == 0.0 {
        0.0
    } else if max == r {
        60.0 * ((g - b) / delta % 6.0)
    } else if max == g {
        60.0 * ((b - r) / delta + 2.0)
    } else {
        60.0 * ((r - g) / delta + 4.0)
    };
    let s = if max == 0.0 { 0.0 } else { delta / max };
    (h, s, max)
}

fn float_distance(a: (f64, f64, f64), b: (f64, f64, f64)) -> f64 {
    let (x, y) = (float_hsv(a), float_hsv(b));
    (x.0 - y.0).powi(2) + (x.1 - y.1).powi(2) + (x.2 - y.2).powi(2)
}

#[test]
fn tie_break_agrees_with_floating_point_where_that_is_clear() {
    let colors = [
        rgb(200, 10, 10),
        rgb(10, 200, 10),
        rgb(10, 10, 200),
        rgb(90, 80, 70),
        rgb(0, 0, 0),
        rgb(255, 255, 255),
        rgb(255, 0, 128),
        rgb(17, 230, 99),
    ];
    let pixels = [px(120, 33, 7), px(-40, 300, 20), px(5, 5, 5), px(250, 0, 251), px(-9, -8, -7)];
    for p in pixels {
        for a in colors {
            for b in colors {
                let pf = (p.r as f64, p.g as f64, p.b as f64);
                let da = float_distance(pf, (a.r as f64, a.g as f64, a.b as f64));
                let db = float_distance(pf, (b.r as f64, b.g as f64, b.b as f64));
                if (da - db).abs() > 1e-9 * (da + db) {
                    assert_eq!(hsv_nearer(p, a, b), da < db);
                }
            }
        }
    }
}

#[test]
fn hsv_of_black_and_white() {
    let black = rgb_to_hsv(px(0, 0, 0));
    assert_eq!(black.hue.num, 0);
    assert_eq!(black.saturation.num, 0);
    assert_eq!(black.value.num, 0);
    assert!(black.hue.den > 0 && black.saturation.den > 0 && black.value.den > 0);
    let white = rgb_to_hsv(px(255, 255, 255));
    assert_eq!(white.saturation.num, 0);
    assert_eq!(white.value.num, white.value.den);
    assert_eq!(white.hue.num, 0);
}

#[test]
fn hue_follows_the_sector_of_the_largest_channel() {
    // red largest, green below blue: the hue is negative
    let h = rgb_to_hsv(px(255, 0, 128));
    assert_eq!((h.hue.num, h.hue.den), (60 * -128, 255));
    assert_eq!((h.saturation.num, h.saturation.den), (255, 255));
    assert_eq!((h.value.num, h.value.den), (255, 255));
    // green largest: 60 * ((b - r) / delta + 2)
    let h = rgb_to_hsv(px(0, 255, 0));
    assert_eq!((h.hue.num, h.hue.den), (120 * 255, 255));
    let h = rgb_to_hsv(px(10, 50, 30));
    assert_eq!((h.hue.num, h.hue.den), (60 * (20 + 80), 40));
    assert_eq!((h.saturation.num, h.saturation.den), (40, 50));
    assert_eq!((h.value.num, h.value.den), (50, 255));
    // blue largest: 60 * ((r - g) / delta + 4)
    let h = rgb_to_hsv(px(0, 0, 255));
    assert_eq!((h.hue.num, h.hue.den), (240 * 255, 255));
    // red and green equal and largest: the red rule applies
    let h = rgb_to_hsv(px(9, 9, 1));
    assert_eq!((h.hue.num, h.hue.den), (60 * 8, 8));
}

#[test]
fn hsv_of_a_pixel_outside_the_colour_range() {
    let h = rgb_to_hsv(px(-10, -20, -30));
    assert_eq!((h.value.num, h.value.den), (-10, 255));
    // delta / max with a negative max, written with a positive denominator
    assert_eq!((h.saturation.num, h.saturation.den), (-20, 10));
    assert_eq!((h.hue.num, h.hue.den), (60 * 10, 20));
}

#[test]
fn channels_wrap_when_cut_to_eight_bits() {
    assert_eq!(channel_to_byte(0), 0);
    assert_eq!(channel_to_byte(255), 255);
    assert_eq!(channel_to_byte(256), 0);
    assert_eq!(channel_to_byte(300), 44);
    assert_eq!(channel_to_byte(-1), 255);
    assert_eq!(channel_to_byte(-256), 0);
    assert_eq!(channel_to_byte(-257), 255);
    assert_eq!(px(300, -1, 17).truncate(), rgb(44, 255, 17));
    assert_eq!(rgb(1, 2, 3).to_pixel(), px(1, 2, 3));
}
