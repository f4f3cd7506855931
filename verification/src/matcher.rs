//! Matching a pixel to the nearest entry of a palette.

use vstd::prelude::*;
use crate::color::{Pixel, Rgb};
use crate::error::DitherError;
use crate::hsv::{frac_lt, hsv_nearer, lemma_tone_distance_positive, tone_distance, Fraction};

verus! {

/// The squared distance between a pixel and a colour: the sum of the squares
/// of the differences of the three channels.
pub open spec fn rgb_distance(p: (int, int, int), c: Rgb) -> int {
    (p.0 - c.r) * (p.0 - c.r) + (p.1 - c.g) * (p.1 - c.g) + (p.2 - c.b) * (p.2 - c.b)
}

/// Whether entry `i` of the palette is as near to the pixel as any entry is.
pub open spec fn is_candidate(p: (int, int, int), palette: Seq<Rgb>, i: int) -> bool {
    &&& 0 <= i < palette.len()
    &&& forall|j: int|
        0 <= j < palette.len() ==> rgb_distance(p, palette[i]) <= #[trigger] rgb_distance(
            p,
            palette[j],
        )
}

/// Whether `i` is the index that the index lookup gives: the first entry
/// among those nearest to the pixel.
pub open spec fn is_nearest_index(p: (int, int, int), palette: Seq<Rgb>, i: int) -> bool {
    &&& is_candidate(p, palette, i)
    &&& forall|j: int| 0 <= j < i ==> !#[trigger] is_candidate(p, palette, j)
}

/// Whether `i` is the index that the colour lookup gives. Among the entries
/// nearest to the pixel, it is one of those nearest to it in hue, saturation
/// and value, and of these the first.
pub open spec fn is_nearest_color_index(p: (int, int, int), palette: Seq<Rgb>, i: int) -> bool {
    &&& is_candidate(p, palette, i)
    &&& forall|j: int| #[trigger]
        is_candidate(p, palette, j) ==> !frac_lt(
            tone_distance(p, palette[j]),
            tone_distance(p, palette[i]),
        )
    &&& forall|j: int|
        j < i && #[trigger] is_candidate(p, palette, j) ==> frac_lt(
            tone_distance(p, palette[i]),
            tone_distance(p, palette[j]),
        )
}

/// Whether colour `a` goes before colour `b` for the pixel: it is nearer,
/// or as near and nearer in hue, saturation and value.
pub open spec fn prefers(p: (int, int, int), a: Rgb, b: Rgb) -> bool {
    rgb_distance(p, a) < rgb_distance(p, b) || (rgb_distance(p, a) == rgb_distance(p, b)
        && frac_lt(tone_distance(p, a), tone_distance(p, b)))
}

/// The first of the nearest entries among the first `n` of the palette.
pub open spec fn first_nearest(p: (int, int, int), palette: Seq<Rgb>, n: int) -> int
    decreases n,
{
    if n <= 1 {
        0
    } else {
        let best = first_nearest(p, palette, n - 1);
        if rgb_distance(p, palette[n - 1]) < rgb_distance(p, palette[best]) {
            n - 1
        } else {
            best
        }
    }
}

/// The entry that the colour lookup picks among the first `n` of the palette.
pub open spec fn preferred(p: (int, int, int), palette: Seq<Rgb>, n: int) -> int
    decreases n,
{
    if n <= 1 {
        0
    } else {
        let best = preferred(p, palette, n - 1);
        if prefers(p, palette[n - 1], palette[best]) {
            n - 1
        } else {
            best
        }
    }
}

/// The index that the index lookup gives for a pixel and a palette that is not empty.
pub open spec fn nearest_index_of(p: (int, int, int), palette: Seq<Rgb>) -> int {
    first_nearest(p, palette, palette.len() as int)
}

/// The index that the colour lookup gives for a pixel and a palette that is not empty.
pub open spec fn nearest_color_index(p: (int, int, int), palette: Seq<Rgb>) -> int {
    preferred(p, palette, palette.len() as int)
}

/// The colour that the colour lookup gives for a pixel and a palette that is not empty.
pub open spec fn nearest_color_of(p: (int, int, int), palette: Seq<Rgb>) -> Rgb {
    palette[nearest_color_index(p, palette)]
}

/// If `a` is smaller than `b` and `c` is not, then `a` is smaller than `c`.
proof fn lemma_lt_chain(a: Fraction, b: Fraction, c: Fraction)
    requires
        a.den > 0,
        b.den > 0,
        c.den > 0,
        frac_lt(a, b),
        !frac_lt(c, b),
    ensures
        frac_lt(a, c),
{
    let left = a.num * c.den;
    let right = c.num * a.den;
    assert(a.num * b.den * c.den < b.num * a.den * c.den) by (nonlinear_arith)
        requires
            a.num * b.den < b.num * a.den,
            c.den > 0,
    ;
    assert(b.num * c.den * a.den <= c.num * b.den * a.den) by (nonlinear_arith)
        requires
            b.num * c.den <= c.num * b.den,
            a.den > 0,
    ;
    assert(a.num * b.den * c.den == left * b.den) by (nonlinear_arith)
        requires
            left == a.num * c.den,
    ;
    assert(b.num * a.den * c.den == b.num * c.den * a.den) by (nonlinear_arith);
    assert(c.num * b.den * a.den == right * b.den) by (nonlinear_arith)
        requires
            right == c.num * a.den,
    ;
    assert(left < right) by (nonlinear_arith)
        requires
            left * b.den < right * b.den,
            b.den > 0,
    ;
}

/// Among the first `n` entries, `first_nearest` is the first of the nearest.
proof fn lemma_first_nearest(p: (int, int, int), palette: Seq<Rgb>, n: int)
    requires
        1 <= n <= palette.len(),
    ensures
        is_nearest_index(p, palette.take(n), first_nearest(p, palette, n)),
    decreases n,
{
    let part = palette.take(n);
    let best = first_nearest(p, palette, n);
    if n > 1 {
        lemma_first_nearest(p, palette, n - 1);
        let before = palette.take(n - 1);
        let old_best = first_nearest(p, palette, n - 1);
        assert(forall|j: int| 0 <= j < n - 1 ==> before[j] == part[j]);
        assert forall|j: int| 0 <= j < n implies rgb_distance(p, part[best])
            <= #[trigger] rgb_distance(p, part[j]) by {
            if j < n - 1 {
                assert(rgb_distance(p, before[old_best]) <= rgb_distance(p, before[j]));
            }
        }
        assert forall|j: int| 0 <= j < best implies !#[trigger] is_candidate(p, part, j) by {
            if j < old_best {
                assert(!is_candidate(p, before, j));
                if is_candidate(p, part, j) {
                    assert forall|k: int| 0 <= k < n - 1 implies rgb_distance(p, before[j])
                        <= #[trigger] rgb_distance(p, before[k]) by {
                        assert(rgb_distance(p, part[j]) <= rgb_distance(p, part[k]));
                    }
                }
            } else {
                assert(rgb_distance(p, before[old_best]) <= rgb_distance(p, before[j]));
                assert(rgb_distance(p, part[best]) < rgb_distance(p, part[j]));
            }
        }
    } else {
        assert(rgb_distance(p, part[0]) <= rgb_distance(p, part[0]));
    }
}

/// What holds of the entry that the colour lookup has picked among the first `n`.
spec fn leads(p: (int, int, int), palette: Seq<Rgb>, n: int, best: int) -> bool {
    &&& 0 <= best < n
    &&& forall|j: int|
        0 <= j < n ==> rgb_distance(p, palette[best]) <= #[trigger] rgb_distance(p, palette[j])
    &&& forall|j: int|
        0 <= j < n && #[trigger] rgb_distance(p, palette[j]) == rgb_distance(p, palette[best])
            ==> !frac_lt(tone_distance(p, palette[j]), tone_distance(p, palette[best]))
    &&& forall|j: int|
        0 <= j < best && #[trigger] rgb_distance(p, palette[j]) == rgb_distance(
            p,
            palette[best],
        ) ==> frac_lt(tone_distance(p, palette[best]), tone_distance(p, palette[j]))
}

/// Among the first `n` entries, `preferred` is the one that the colour lookup gives.
proof fn lemma_preferred(p: (int, int, int), palette: Seq<Rgb>, n: int)
    requires
        1 <= n <= palette.len(),
    ensures
        leads(p, palette, n, preferred(p, palette, n)),
    decreases n,
{
    let best = preferred(p, palette, n);
    if n > 1 {
        lemma_preferred(p, palette, n - 1);
        let old_best = preferred(p, palette, n - 1);
        let last = n - 1;
        let to_last = tone_distance(p, palette[last]);
        let to_old = tone_distance(p, palette[old_best]);
        lemma_tone_distance_positive(p, palette[last]);
        lemma_tone_distance_positive(p, palette[old_best]);
        if best == last && rgb_distance(p, palette[last]) == rgb_distance(p, palette[old_best]) {
            assert forall|j: int|
                0 <= j < n && #[trigger] rgb_distance(p, palette[j]) == rgb_distance(
                    p,
                    palette[best],
                ) implies !frac_lt(tone_distance(p, palette[j]), to_last) by {
                if j < last {
                    lemma_tone_distance_positive(p, palette[j]);
                    if frac_lt(tone_distance(p, palette[j]), to_last) {
                        lemma_lt_chain(to_last, to_old, tone_distance(p, palette[j]));
                    }
                }
            }
            assert forall|j: int|
                0 <= j < best && #[trigger] rgb_distance(p, palette[j]) == rgb_distance(
                    p,
                    palette[best],
                ) implies frac_lt(to_last, tone_distance(p, palette[j])) by {
                lemma_tone_distance_positive(p, palette[j]);
                lemma_lt_chain(to_last, to_old, tone_distance(p, palette[j]));
            }
        }
    }
}

/// For a palette that is not empty, the index lookup's result is the first
/// of the nearest entries, and no other index is.
pub proof fn lemma_nearest_index(p: (int, int, int), palette: Seq<Rgb>)
    requires
        palette.len() > 0,
    ensures
        is_nearest_index(p, palette, nearest_index_of(p, palette)),
        forall|i: int| is_nearest_index(p, palette, i) ==> i == nearest_index_of(p, palette),
{
    lemma_first_nearest(p, palette, palette.len() as int);
    assert(palette.take(palette.len() as int) =~= palette);
    let best = nearest_index_of(p, palette);
    assert forall|i: int| is_nearest_index(p, palette, i) implies i == best by {
        if i < best {
            assert(!is_candidate(p, palette, i));
        }
        if best < i {
            assert(!is_candidate(p, palette, best));
        }
    }
}

/// For a palette that is not empty, the colour lookup's result is the entry
/// that its rule describes, and no other index is.
pub proof fn lemma_nearest_color(p: (int, int, int), palette: Seq<Rgb>)
    requires
        palette.len() > 0,
    ensures
        is_nearest_color_index(p, palette, nearest_color_index(p, palette)),
        forall|i: int|
            is_nearest_color_index(p, palette, i) ==> i == nearest_color_index(p, palette),
{
    let n = palette.len() as int;
    let best = nearest_color_index(p, palette);
    lemma_preferred(p, palette, n);
    assert(is_candidate(p, palette, best));
    assert forall|j: int| #[trigger] is_candidate(p, palette, j) implies !frac_lt(
        tone_distance(p, palette[j]),
        tone_distance(p, palette[best]),
    ) by {
        assert(rgb_distance(p, palette[j]) <= rgb_distance(p, palette[best]));
        assert(rgb_distance(p, palette[best]) <= rgb_distance(p, palette[j]));
    }
    assert forall|j: int| j < best && #[trigger] is_candidate(p, palette, j) implies frac_lt(
        tone_distance(p, palette[best]),
        tone_distance(p, palette[j]),
    ) by {
        assert(rgb_distance(p, palette[j]) <= rgb_distance(p, palette[best]));
        assert(rgb_distance(p, palette[best]) <= rgb_distance(p, palette[j]));
    }
    assert forall|i: int| is_nearest_color_index(p, palette, i) implies i == best by {
        if i < best {
            assert(is_candidate(p, palette, i));
        }
        if best < i {
            assert(is_candidate(p, palette, best));
        }
    }
}

/// The squared distance between a pixel and a colour.
pub fn distance(pixel: Pixel, color: Rgb) -> (d: u128)
    ensures
        d == rgb_distance(pixel@, color),
{
    let dr: i128 = pixel.r as i128 - color.r as i128;
    let dg: i128 = pixel.g as i128 - color.g as i128;
    let db: i128 = pixel.b as i128 - color.b as i128;
    let bound: i128 = 0x8000_0000_0000_0000 + 255;
    assert(0 <= dr * dr <= bound * bound) by (nonlinear_arith)
        requires
            -bound <= dr <= bound,
    ;
    assert(0 <= dg * dg <= bound * bound) by (nonlinear_arith)
        requires
            -bound <= dg <= bound,
    ;
    assert(0 <= db * db <= bound * bound) by (nonlinear_arith)
        requires
            -bound <= db <= bound,
    ;
    (dr * dr) as u128 + (dg * dg) as u128 + (db * db) as u128
}

/// Index lookup: the index of the palette entry nearest to the pixel, the
/// first of them where several are equally near. An empty palette is refused.
pub fn nearest_index(pixel: Pixel, palette: &Vec<Rgb>) -> (found: Result<usize, DitherError>)
    ensures
        palette.len() == 0 ==> found == Err::<usize, DitherError>(DitherError::InvalidPalette),
        palette.len() > 0 ==> found is Ok,
        found matches Ok(i) ==> i == nearest_index_of(pixel@, palette@) && is_nearest_index(
            pixel@,
            palette@,
            i as int,
        ),
{
    if palette.len() == 0 {
        return Err(DitherError::InvalidPalette);
    }
    let mut best: usize = 0;
    let mut least: u128 = distance(pixel, palette[0]);
    let mut n: usize = 1;
    while n < palette.len()
        invariant
            1 <= n <= palette.len(),
            best == first_nearest(pixel@, palette@, n as int),
            0 <= best < n,
            least == rgb_distance(pixel@, palette@[best as int]),
        decreases palette.len() - n,
    {
        let d = distance(pixel, palette[n]);
        if d < least {
            best = n;
            least = d;
        }
        n += 1;
    }
    proof {
        lemma_nearest_index(pixel@, palette@);
    }
    Ok(best)
}

/// The index of the palette entry that the colour lookup picks.
pub fn nearest_color_position(pixel: Pixel, palette: &Vec<Rgb>) -> (found: Result<
    usize,
    DitherError,
>)
    ensures
        palette.len() == 0 ==> found == Err::<usize, DitherError>(DitherError::InvalidPalette),
        palette.len() > 0 ==> found is Ok,
        found matches Ok(i) ==> i == nearest_color_index(pixel@, palette@)
            && is_nearest_color_index(pixel@, palette@, i as int),
{
    if palette.len() == 0 {
        return Err(DitherError::InvalidPalette);
    }
    let mut best: usize = 0;
    let mut least: u128 = distance(pixel, palette[0]);
    let mut n: usize = 1;
    while n < palette.len()
        invariant
            1 <= n <= palette.len(),
            best == preferred(pixel@, palette@, n as int),
            0 <= best < n,
            least == rgb_distance(pixel@, palette@[best as int]),
        decreases palette.len() - n,
    {
        let d = distance(pixel, palette[n]);
        if d < least || (d == least && hsv_nearer(pixel, palette[n], palette[best])) {
            best = n;
            least = d;
        }
        n += 1;
    }
    proof {
        lemma_nearest_color(pixel@, palette@);
    }
    Ok(best)
}

/// Colour lookup: the palette entry nearest to the pixel. Where several are
/// equally near, the one nearest in hue, saturation and value; where that
/// ties as well, the first in the palette. An empty palette is refused.
pub fn nearest_color(pixel: Pixel, palette: &Vec<Rgb>) -> (found: Result<Rgb, DitherError>)
    ensures
        palette.len() == 0 ==> found == Err::<Rgb, DitherError>(DitherError::InvalidPalette),
        palette.len() > 0 ==> found == Ok::<Rgb, DitherError>(
            nearest_color_of(pixel@, palette@),
        ),
        found matches Ok(c) ==> exists|i: int|
            is_nearest_color_index(pixel@, palette@, i) && palette@[i] == c,
{
    match nearest_color_position(pixel, palette) {
        Ok(i) => Ok(palette[i]),
        Err(e) => Err(e),
    }
}

/// With a palette of one entry, both lookups give that entry for every pixel.
pub proof fn law_single_entry(p: (int, int, int), palette: Seq<Rgb>)
    requires
        palette.len() == 1,
    ensures
        nearest_index_of(p, palette) == 0,
        nearest_color_index(p, palette) == 0,
        nearest_color_of(p, palette) == palette[0],
{
}

/// A squared distance is never negative, and it is zero only between a
/// pixel and the colour with the same channels.
pub proof fn law_distance_zero(p: (int, int, int), c: Rgb)
    ensures
        rgb_distance(p, c) >= 0,
        rgb_distance(p, c) == 0 <==> p == c@,
{
    let dr = p.0 - c.r;
    let dg = p.1 - c.g;
    let db = p.2 - c.b;
    assert(dr * dr >= 0 && (dr * dr == 0 <==> dr == 0)) by (nonlinear_arith);
    assert(dg * dg >= 0 && (dg * dg == 0 <==> dg == 0)) by (nonlinear_arith);
    assert(db * db >= 0 && (db * db == 0 <==> db == 0)) by (nonlinear_arith);
}

/// A pixel that equals a palette entry is at distance zero from it, and both
/// lookups give that colour.
pub proof fn law_exact_match(p: (int, int, int), palette: Seq<Rgb>, k: int)
    requires
        0 <= k < palette.len(),
        p == palette[k]@,
    ensures
        rgb_distance(p, palette[k]) == 0,
        palette[nearest_index_of(p, palette)] == palette[k],
        nearest_color_of(p, palette) == palette[k],
{
    law_distance_zero(p, palette[k]);
    lemma_nearest_index(p, palette);
    lemma_nearest_color(p, palette);
    let i = nearest_index_of(p, palette);
    let j = nearest_color_index(p, palette);
    law_distance_zero(p, palette[i]);
    law_distance_zero(p, palette[j]);
    assert(rgb_distance(p, palette[i]) <= rgb_distance(p, palette[k]));
    assert(rgb_distance(p, palette[j]) <= rgb_distance(p, palette[k]));
}

} // verus!
