//! Hue, saturation and value of a pixel as exact fractions, and the distance
//! between two pixels in that space.

use vstd::prelude::*;
use crate::color::{Pixel, Rgb};
use crate::natural::Natural;

verus! {

/// A fraction of two integers. The denominator of a fraction that stands for
/// a number is positive.
pub struct Fraction {
    pub num: int,
    pub den: int,
}

/// Hue in degrees, saturation and value, each as a fraction.
pub struct HsvValue {
    pub hue: Fraction,
    pub saturation: Fraction,
    pub value: Fraction,
}

/// A fraction of two machine integers with a positive denominator.
#[derive(Clone, Copy, Debug, PartialEq, Eq, Structural)]
pub struct Ratio {
    pub num: i128,
    pub den: i128,
}

/// Hue in degrees, saturation and value of a pixel.
#[derive(Clone, Copy, Debug, PartialEq, Eq, Structural)]
pub struct Hsv {
    pub hue: Ratio,
    pub saturation: Ratio,
    pub value: Ratio,
}

impl View for Ratio {
    type V = Fraction;

    open spec fn view(&self) -> Fraction {
        Fraction { num: self.num as int, den: self.den as int }
    }
}

impl View for Hsv {
    type V = HsvValue;

    open spec fn view(&self) -> HsvValue {
        HsvValue { hue: self.hue@, saturation: self.saturation@, value: self.value@ }
    }
}

/// The fraction `num / den` for a denominator other than zero, written with
/// a positive denominator.
pub open spec fn fraction(num: int, den: int) -> Fraction {
    if den < 0 {
        Fraction { num: -num, den: -den }
    } else {
        Fraction { num, den }
    }
}

/// The difference of two fractions.
pub open spec fn frac_sub(a: Fraction, b: Fraction) -> Fraction {
    Fraction { num: a.num * b.den - b.num * a.den, den: a.den * b.den }
}

/// The sum of two fractions.
pub open spec fn frac_add(a: Fraction, b: Fraction) -> Fraction {
    Fraction { num: a.num * b.den + b.num * a.den, den: a.den * b.den }
}

/// The square of a fraction.
pub open spec fn frac_square(a: Fraction) -> Fraction {
    Fraction { num: a.num * a.num, den: a.den * a.den }
}

/// Whether the number `a` is smaller than the number `b`, for two fractions
/// with positive denominators.
pub open spec fn frac_lt(a: Fraction, b: Fraction) -> bool {
    a.num * b.den < b.num * a.den
}

/// The remainder of `a` by a positive `m` with the sign of `a`.
pub open spec fn truncated_rem(a: int, m: int) -> int {
    if a >= 0 {
        a % m
    } else {
        -((-a) % m)
    }
}

/// The largest of three integers.
pub open spec fn max3(a: int, b: int, c: int) -> int {
    if a >= b && a >= c {
        a
    } else if b >= c {
        b
    } else {
        c
    }
}

/// The smallest of three integers.
pub open spec fn min3(a: int, b: int, c: int) -> int {
    if a <= b && a <= c {
        a
    } else if b <= c {
        b
    } else {
        c
    }
}

/// The hue of a pixel in degrees. With the channels scaled by 1/255, `max`
/// their largest and `delta` the spread between largest and smallest:
/// zero where `delta` is zero; `60 * (((g - b) / delta) rem 6)` where red is
/// largest, the remainder taking the sign of `g - b`;
/// `60 * ((b - r) / delta + 2)` where green is; `60 * ((r - g) / delta + 4)`
/// where blue is. The scale cancels in each quotient.
pub open spec fn hue_of(p: (int, int, int)) -> Fraction {
    let max = max3(p.0, p.1, p.2);
    let delta = max - min3(p.0, p.1, p.2);
    if delta == 0 {
        Fraction { num: 0, den: 1 }
    } else if max == p.0 {
        Fraction { num: 60 * truncated_rem(p.1 - p.2, 6 * delta), den: delta }
    } else if max == p.1 {
        Fraction { num: 60 * ((p.2 - p.0) + 2 * delta), den: delta }
    } else {
        Fraction { num: 60 * ((p.0 - p.1) + 4 * delta), den: delta }
    }
}

/// The saturation of a pixel: zero where the largest channel is zero, else
/// the spread of the channels over the largest channel.
pub open spec fn saturation_of(p: (int, int, int)) -> Fraction {
    let max = max3(p.0, p.1, p.2);
    let delta = max - min3(p.0, p.1, p.2);
    if max == 0 {
        Fraction { num: 0, den: 1 }
    } else {
        fraction(delta, max)
    }
}

/// The value of a pixel: its largest channel over 255.
pub open spec fn value_of(p: (int, int, int)) -> Fraction {
    Fraction { num: max3(p.0, p.1, p.2), den: 255 }
}

/// Hue, saturation and value of a pixel.
pub open spec fn hsv_of(p: (int, int, int)) -> HsvValue {
    HsvValue { hue: hue_of(p), saturation: saturation_of(p), value: value_of(p) }
}

/// The squared distance of two points in hue, saturation and value: the sum
/// of the squares of the three differences.
pub open spec fn hsv_distance(a: HsvValue, b: HsvValue) -> Fraction {
    frac_add(
        frac_add(frac_square(frac_sub(a.hue, b.hue)), frac_square(frac_sub(a.saturation, b.saturation))),
        frac_square(frac_sub(a.value, b.value)),
    )
}

/// The squared distance in hue, saturation and value between a pixel and a colour.
pub open spec fn tone_distance(p: (int, int, int), c: Rgb) -> Fraction {
    hsv_distance(hsv_of(p), hsv_of(c@))
}

/// Whether the components of `h` stay within what a pixel gives whose
/// largest channel and whose spread are at most `limit` in size.
pub open spec fn hsv_within(h: HsvValue, limit: int) -> bool {
    &&& 0 < h.hue.den <= limit
    &&& -300 * limit <= h.hue.num <= 300 * limit
    &&& 0 < h.saturation.den <= limit
    &&& -limit <= h.saturation.num <= limit
    &&& h.value.den == 255
    &&& -limit <= h.value.num <= limit
}

/// The hue, saturation and value of a pixel.
pub fn rgb_to_hsv(pixel: Pixel) -> (hsv: Hsv)
    ensures
        hsv@ == hsv_of(pixel@),
        hsv_within(hsv@, 0x1_0000_0000_0000_0000),
        0 <= pixel.r <= 255 && 0 <= pixel.g <= 255 && 0 <= pixel.b <= 255 ==> hsv_within(
            hsv@,
            255,
        ),
{
    let r: i128 = pixel.r as i128;
    let g: i128 = pixel.g as i128;
    let b: i128 = pixel.b as i128;
    let max: i128 = if r >= g && r >= b {
        r
    } else if g >= b {
        g
    } else {
        b
    };
    let min: i128 = if r <= g && r <= b {
        r
    } else if g <= b {
        g
    } else {
        b
    };
    let delta: i128 = max - min;
    let hue = if delta == 0 {
        Ratio { num: 0, den: 1 }
    } else if max == r {
        proof {
            let d = (g - b) as int;
            if d >= 0 {
                assert(d % (6 * delta as int) == d) by (nonlinear_arith)
                    requires
                        0 <= d <= delta,
                        delta > 0,
                ;
            } else {
                assert((-d) % (6 * delta as int) == -d) by (nonlinear_arith)
                    requires
                        0 <= -d <= delta,
                        delta > 0,
                ;
            }
        }
        Ratio { num: 60 * (g - b), den: delta }
    } else if max == g {
        Ratio { num: 60 * ((b - r) + 2 * delta), den: delta }
    } else {
        Ratio { num: 60 * ((r - g) + 4 * delta), den: delta }
    };
    let saturation = if max == 0 {
        Ratio { num: 0, den: 1 }
    } else if max < 0 {
        Ratio { num: -delta, den: -max }
    } else {
        Ratio { num: delta, den: max }
    };
    Hsv { hue, saturation, value: Ratio { num: max, den: 255 } }
}

/// The size of an integer.
fn magnitude(x: i128) -> (m: u128)
    requires
        x > i128::MIN,
    ensures
        m == if x < 0 { -x } else { x as int },
{
    if x < 0 {
        (-x) as u128
    } else {
        x as u128
    }
}

/// The difference of a component of a pixel and the same component of a colour.
fn ratio_sub(a: Ratio, b: Ratio, scale: i128) -> (d: Ratio)
    requires
        1 <= scale <= 300,
        0 < a.den <= 0x1_0000_0000_0000_0000,
        -scale * 0x1_0000_0000_0000_0000 <= a.num <= scale * 0x1_0000_0000_0000_0000,
        0 < b.den <= 255,
        -scale * 255 <= b.num <= scale * 255,
    ensures
        d@ == frac_sub(a@, b@),
        d.den > 0,
        d.num > i128::MIN,
{
    let limit: i128 = 0x1_0000_0000_0000_0000;
    assert(-300 * limit * 255 <= a.num * b.den <= 300 * limit * 255) by (nonlinear_arith)
        requires
            -300 * limit <= a.num <= 300 * limit,
            0 < b.den <= 255,
            limit > 0,
    ;
    assert(-300 * 255 * limit <= b.num * a.den <= 300 * 255 * limit) by (nonlinear_arith)
        requires
            -300 * 255 <= b.num <= 300 * 255,
            0 < a.den <= limit,
    ;
    assert(0 < a.den * b.den <= limit * 255) by (nonlinear_arith)
        requires
            0 < a.den <= limit,
            0 < b.den <= 255,
    ;
    Ratio { num: a.num * b.den - b.num * a.den, den: a.den * b.den }
}

/// The square of a fraction, as a pair of numerator and denominator.
fn ratio_square(a: Ratio) -> (sq: (Natural, Natural))
    requires
        a.den > 0,
        a.num > i128::MIN,
    ensures
        sq.0@ == frac_square(a@).num,
        sq.1@ == frac_square(a@).den,
        sq.1@ > 0,
{
    let n = Natural::from_u128(magnitude(a.num));
    let d = Natural::from_u128(magnitude(a.den));
    proof {
        let x = a.num as int;
        let y = a.den as int;
        assert((-x) * (-x) == x * x) by (nonlinear_arith);
        assert(y * y > 0) by (nonlinear_arith)
            requires
                y > 0,
        ;
    }
    (n.mul(&n), d.mul(&d))
}

/// The sum of two fractions, each a pair of numerator and denominator.
fn pair_add(a: &(Natural, Natural), b: &(Natural, Natural)) -> (sum: (Natural, Natural))
    requires
        a.1@ > 0,
        b.1@ > 0,
    ensures
        sum.0@ == a.0@ * b.1@ + b.0@ * a.1@,
        sum.1@ == a.1@ * b.1@,
        sum.1@ > 0,
{
    let left = a.0.mul(&b.1);
    let right = b.0.mul(&a.1);
    proof {
        assert(a.1@ * b.1@ > 0) by (nonlinear_arith)
            requires
                a.1@ > 0,
                b.1@ > 0,
        ;
    }
    (left.add(&right), a.1.mul(&b.1))
}

/// The squared distance of a pixel's `p` and a colour's `c`, as a pair of
/// numerator and denominator.
fn distance_pair(p: &Hsv, c: &Hsv) -> (dist: (Natural, Natural))
    requires
        hsv_within(p@, 0x1_0000_0000_0000_0000),
        hsv_within(c@, 255),
    ensures
        dist.0@ == hsv_distance(p@, c@).num,
        dist.1@ == hsv_distance(p@, c@).den,
        dist.1@ > 0,
{
    let hue = ratio_square(ratio_sub(p.hue, c.hue, 300));
    let saturation = ratio_square(ratio_sub(p.saturation, c.saturation, 1));
    let value = ratio_square(ratio_sub(p.value, c.value, 1));
    let first = pair_add(&hue, &saturation);
    pair_add(&first, &value)
}

/// Whether colour `a` lies nearer to the pixel than colour `b` does, by the
/// squared distance in hue, saturation and value.
pub fn hsv_nearer(pixel: Pixel, a: Rgb, b: Rgb) -> (nearer: bool)
    ensures
        nearer == frac_lt(tone_distance(pixel@, a), tone_distance(pixel@, b)),
{
    let p = rgb_to_hsv(pixel);
    let to_a = distance_pair(&p, &rgb_to_hsv(a.to_pixel()));
    let to_b = distance_pair(&p, &rgb_to_hsv(b.to_pixel()));
    let left = to_a.0.mul(&to_b.1);
    let right = to_b.0.mul(&to_a.1);
    left.lt(&right)
}

/// The denominator of a distance in hue, saturation and value is positive.
pub proof fn lemma_tone_distance_positive(p: (int, int, int), c: Rgb)
    ensures
        tone_distance(p, c).den > 0,
        tone_distance(p, c).num >= 0,
{
    let a = hsv_of(p);
    let b = hsv_of(c@);
    let h = frac_sub(a.hue, b.hue);
    let s = frac_sub(a.saturation, b.saturation);
    let v = frac_sub(a.value, b.value);
    lemma_sub_den_positive(a.hue, b.hue);
    lemma_sub_den_positive(a.saturation, b.saturation);
    lemma_sub_den_positive(a.value, b.value);
    lemma_square_sign(h);
    lemma_square_sign(s);
    lemma_square_sign(v);
    lemma_add_sign(frac_square(h), frac_square(s));
    lemma_add_sign(frac_add(frac_square(h), frac_square(s)), frac_square(v));
}

/// The difference of two fractions with positive denominators has a positive denominator.
proof fn lemma_sub_den_positive(a: Fraction, b: Fraction)
    requires
        a.den > 0,
        b.den > 0,
    ensures
        frac_sub(a, b).den > 0,
{
    assert(a.den * b.den > 0) by (nonlinear_arith)
        requires
            a.den > 0,
            b.den > 0,
    ;
}

/// A square has a positive denominator and a numerator that is not negative.
proof fn lemma_square_sign(a: Fraction)
    requires
        a.den > 0,
    ensures
        frac_square(a).den > 0,
        frac_square(a).num >= 0,
{
    assert(a.den * a.den > 0) by (nonlinear_arith)
        requires
            a.den > 0,
    ;
    assert(a.num * a.num >= 0) by (nonlinear_arith);
}

/// The sum of two fractions that are not negative is not negative.
proof fn lemma_add_sign(a: Fraction, b: Fraction)
    requires
        a.den > 0,
        b.den > 0,
        a.num >= 0,
        b.num >= 0,
    ensures
        frac_add(a, b).den > 0,
        frac_add(a, b).num >= 0,
{
    assert(a.den * b.den > 0 && a.num * b.den + b.num * a.den >= 0) by (nonlinear_arith)
        requires
            a.den > 0,
            b.den > 0,
            a.num >= 0,
            b.num >= 0,
    ;
}

} // verus!
