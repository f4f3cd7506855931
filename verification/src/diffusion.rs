//! Error diffusion: each pixel is matched to the palette in turn, and what
//! the match got wrong is handed on to other pixels as the kernel says.

use vstd::prelude::*;
use vstd::arithmetic::div_mod::{
    lemma_fundamental_div_mod_converse_div,
    lemma_fundamental_div_mod_converse_mod,
};
use crate::color::{truncated, Pixel, Rgb};
use crate::error::DitherError;
use crate::kernel::{share, share_of, Offset, Weight};
use crate::matcher::{nearest_color, nearest_color_of};

verus! {

/// The channels of a row of working pixels.
pub open spec fn tones(pixels: Seq<Pixel>) -> Seq<(int, int, int)> {
    Seq::new(pixels.len(), |i: int| pixels[i]@)
}

/// The channels of a row of colours.
pub open spec fn color_tones(colors: Seq<Rgb>) -> Seq<(int, int, int)> {
    Seq::new(colors.len(), |i: int| colors[i]@)
}

/// Whether `(x, y)` lies inside the image with one pixel to spare on every
/// side. Only such pixels receive error.
pub open spec fn interior(width: int, height: int, x: int, y: int) -> bool {
    1 <= x <= width - 2 && 1 <= y <= height - 2
}

/// A pixel after it has received its share of an error.
pub open spec fn with_share(p: (int, int, int), error: (int, int, int), weight: Weight) -> (
    int,
    int,
    int,
) {
    (p.0 + share(error.0, weight), p.1 + share(error.1, weight), p.2 + share(error.2, weight))
}

/// The working pixels after one kernel entry has handed on the error of the
/// pixel at `(x, y)`.
pub open spec fn spread_entry(
    work: Seq<(int, int, int)>,
    width: int,
    height: int,
    x: int,
    y: int,
    error: (int, int, int),
    entry: Offset,
) -> Seq<(int, int, int)> {
    let tx = x + entry.dx;
    let ty = y + entry.dy;
    if interior(width, height, tx, ty) {
        work.update(ty * width + tx, with_share(work[ty * width + tx], error, entry.weight))
    } else {
        work
    }
}

/// The working pixels after the first `k` kernel entries, in their order,
/// have handed on the error of the pixel at `(x, y)`.
pub open spec fn spread(
    work: Seq<(int, int, int)>,
    width: int,
    height: int,
    x: int,
    y: int,
    error: (int, int, int),
    kernel: Seq<Offset>,
    k: int,
) -> Seq<(int, int, int)>
    decreases k,
{
    if k <= 0 {
        work
    } else {
        spread_entry(
            spread(work, width, height, x, y, error, kernel, k - 1),
            width,
            height,
            x,
            y,
            error,
            kernel[k - 1],
        )
    }
}

/// The working pixels after pixel `i` has been dealt with: it takes the
/// nearest palette colour, and the difference between what it held and that
/// colour is handed on through the kernel.
pub open spec fn settle(
    work: Seq<(int, int, int)>,
    width: int,
    height: int,
    palette: Seq<Rgb>,
    kernel: Seq<Offset>,
    i: int,
) -> Seq<(int, int, int)> {
    let before = work[i];
    let chosen = nearest_color_of(before, palette)@;
    let error = (before.0 - chosen.0, before.1 - chosen.1, before.2 - chosen.2);
    spread(
        work.update(i, chosen),
        width,
        height,
        i % width,
        i / width,
        error,
        kernel,
        kernel.len() as int,
    )
}

/// The working pixels after the first `n` pixels have been dealt with, row
/// by row from the top and from left to right within a row.
pub open spec fn diffused(
    work: Seq<(int, int, int)>,
    width: int,
    height: int,
    palette: Seq<Rgb>,
    kernel: Seq<Offset>,
    n: int,
) -> Seq<(int, int, int)>
    decreases n,
{
    if n <= 0 {
        work
    } else {
        settle(
            diffused(work, width, height, palette, kernel, n - 1),
            width,
            height,
            palette,
            kernel,
            n - 1,
        )
    }
}

/// The image that error diffusion makes of `original`: every working pixel
/// after the whole pass, each channel cut down to 8 bits.
pub open spec fn diffusion_image(
    original: Seq<Rgb>,
    width: int,
    height: int,
    palette: Seq<Rgb>,
    kernel: Seq<Offset>,
) -> Seq<Rgb> {
    let work = diffused(
        color_tones(original),
        width,
        height,
        palette,
        kernel,
        original.len() as int,
    );
    Seq::new(original.len(), |i: int| truncated(work[i]))
}

/// The most shares that one pass may hand on: the number of pixels times
/// the number of kernel entries.
pub open spec fn share_limit() -> int {
    0x8000_0000
}

/// Whether every channel of every pixel lies within `-cap..=cap`.
spec fn bounded(pixels: Seq<Pixel>, cap: int) -> bool {
    forall|i: int|
        0 <= i < pixels.len() ==> {
            &&& -cap <= (#[trigger] pixels[i]).r <= cap
            &&& -cap <= pixels[i].g <= cap
            &&& -cap <= pixels[i].b <= cap
        }
}

/// Hands the error of the pixel at `(x, y)` on through every kernel entry.
fn spread_error(
    work: &mut Vec<Pixel>,
    width: usize,
    height: usize,
    x: usize,
    y: usize,
    error: Pixel,
    kernel: &Vec<Offset>,
    Ghost(cap): Ghost<int>,
)
    requires
        old(work).len() == width * height,
        x < width,
        y < height,
        bounded(old(work)@, cap),
        0 <= cap,
        cap + kernel.len() * 0x8000_0000 <= 0x4000_0000_0000_0000 + 255,
    ensures
        final(work).len() == old(work).len(),
        tones(final(work)@) == spread(
            tones(old(work)@),
            width as int,
            height as int,
            x as int,
            y as int,
            error@,
            kernel@,
            kernel.len() as int,
        ),
        bounded(final(work)@, cap + kernel.len() * 0x8000_0000),
{
    let ghost start = tones(work@);
    let mut k: usize = 0;
    while k < kernel.len()
        invariant
            k <= kernel.len(),
            work.len() == width * height,
            x < width,
            y < height,
            0 <= cap,
            cap + kernel.len() * 0x8000_0000 <= 0x4000_0000_0000_0000 + 255,
            bounded(work@, cap + k * 0x8000_0000),
            tones(work@) == spread(
                start,
                width as int,
                height as int,
                x as int,
                y as int,
                error@,
                kernel@,
                k as int,
            ),
        decreases kernel.len() - k,
    {
        let entry = kernel[k];
        let tx: i128 = x as i128 + entry.dx as i128;
        let ty: i128 = y as i128 + entry.dy as i128;
        let ghost before = tones(work@);
        if tx >= 1 && tx <= width as i128 - 2 && ty >= 1 && ty <= height as i128 - 2 {
            assert(0 <= ty * width + tx < width * height) by (nonlinear_arith)
                requires
                    1 <= tx <= width - 2,
                    1 <= ty <= height - 2,
            ;
            let target: usize = ty as usize * width + tx as usize;
            let held = work[target];
            let moved = Pixel {
                r: held.r + share_of(error.r, entry.weight),
                g: held.g + share_of(error.g, entry.weight),
                b: held.b + share_of(error.b, entry.weight),
            };
            work.set(target, moved);
            assert(tones(work@) =~= before.update(
                target as int,
                with_share(before[target as int], error@, entry.weight),
            ));
        }
        assert(tones(work@) == spread_entry(
            before,
            width as int,
            height as int,
            x as int,
            y as int,
            error@,
            entry,
        ));
        k += 1;
    }
}

/// Error diffusion over the pixels of an image, given row by row. The
/// result holds the working pixels after the whole pass, before they are
/// cut down to 8 bits. An empty palette is refused, and so is a row of
/// pixels that is not `width * height` long.
pub fn diffuse(
    original: &Vec<Rgb>,
    width: u32,
    height: u32,
    palette: &Vec<Rgb>,
    kernel: &Vec<Offset>,
) -> (done: Result<Vec<Pixel>, DitherError>)
    requires
        original.len() * kernel.len() <= share_limit(),
    ensures
        palette.len() == 0 ==> done == Err::<Vec<Pixel>, DitherError>(
            DitherError::InvalidPalette,
        ),
        palette.len() > 0 && original.len() != width * height ==> done == Err::<
            Vec<Pixel>,
            DitherError,
        >(DitherError::DimensionMismatch),
        palette.len() > 0 && original.len() == width * height ==> done is Ok,
        done matches Ok(work) ==> work.len() == original.len() && tones(work@) == diffused(
            color_tones(original@),
            width as int,
            height as int,
            palette@,
            kernel@,
            original.len() as int,
        ),
{
    if palette.len() == 0 {
        return Err(DitherError::InvalidPalette);
    }
    assert(width * height <= 0xFFFF_FFFF * 0xFFFF_FFFF) by (nonlinear_arith)
        requires
            width <= 0xFFFF_FFFF,
            height <= 0xFFFF_FFFF,
    ;
    if original.len() as u128 != width as u128 * height as u128 {
        return Err(DitherError::DimensionMismatch);
    }
    let total = original.len();
    let columns = width as usize;
    let rows = height as usize;
    let mut work: Vec<Pixel> = Vec::new();
    let mut c: usize = 0;
    while c < total
        invariant
            c <= total,
            total == original.len(),
            work.len() == c,
            forall|j: int| 0 <= j < c ==> (#[trigger] work@[j])@ == original@[j]@,
        decreases total - c,
    {
        work.push(original[c].to_pixel());
        c += 1;
    }
    let ghost start = color_tones(original@);
    assert(tones(work@) =~= start);
    let ghost per_pixel = kernel.len() * 0x8000_0000;
    let mut i: usize = 0;
    while i < total
        invariant
            i <= total,
            total == original.len(),
            total == columns * rows,
            columns == width,
            rows == height,
            palette.len() > 0,
            work.len() == total,
            per_pixel == kernel.len() * 0x8000_0000,
            total * kernel.len() <= share_limit(),
            bounded(work@, 255 + i * per_pixel),
            tones(work@) == diffused(
                start,
                width as int,
                height as int,
                palette@,
                kernel@,
                i as int,
            ),
        decreases total - i,
    {
        let ghost cap = 255 + i * per_pixel;
        proof {
            assert(0 <= i * per_pixel && (i + 1) * per_pixel == i * per_pixel + per_pixel && (i
                + 1) * per_pixel <= share_limit() * 0x8000_0000) by (nonlinear_arith)
                requires
                    0 <= i < total,
                    per_pixel == kernel.len() * 0x8000_0000,
                    total * kernel.len() <= share_limit(),
            ;
            assert(columns > 0) by (nonlinear_arith)
                requires
                    total == columns * rows,
                    total > 0,
            ;
        }
        let x = i % columns;
        let y = i / columns;
        proof {
            assert(y < rows) by (nonlinear_arith)
                requires
                    i < columns * rows,
                    columns > 0,
                    y == i / columns,
            ;
        }
        let before = work[i];
        let ghost held = tones(work@);
        let chosen = match nearest_color(before, palette) {
            Ok(color) => color,
            Err(_) => {
                proof {
                    assert(false);
                }
                Rgb { r: 0, g: 0, b: 0 }
            },
        };
        let error = Pixel {
            r: before.r - chosen.r as i64,
            g: before.g - chosen.g as i64,
            b: before.b - chosen.b as i64,
        };
        work.set(i, chosen.to_pixel());
        assert(tones(work@) =~= held.update(i as int, chosen@));
        assert(bounded(work@, cap));
        spread_error(&mut work, columns, rows, x, y, error, kernel, Ghost(cap));
        i += 1;
    }
    Ok(work)
}

/// Cuts every working pixel down to a colour with 8-bit channels.
pub fn truncate_all(work: &Vec<Pixel>) -> (image: Vec<Rgb>)
    ensures
        image@ == Seq::new(work@.len(), |i: int| truncated(work@[i]@)),
{
    let mut image: Vec<Rgb> = Vec::new();
    let mut i: usize = 0;
    while i < work.len()
        invariant
            i <= work.len(),
            image.len() == i,
            forall|j: int| 0 <= j < i ==> #[trigger] image@[j] == truncated(work@[j]@),
        decreases work.len() - i,
    {
        image.push(work[i].truncate());
        i += 1;
    }
    assert(image@ =~= Seq::new(work@.len(), |i: int| truncated(work@[i]@)));
    image
}

/// Whether pixel `i` lies in the first or last row or column of the image.
pub open spec fn on_border(width: int, height: int, i: int) -> bool {
    let x = i % width;
    let y = i / width;
    x == 0 || x == width - 1 || y == 0 || y == height - 1
}

/// Handing on an error keeps the number of pixels and leaves every border pixel as it was.
proof fn lemma_spread_keeps_border(
    work: Seq<(int, int, int)>,
    width: int,
    height: int,
    x: int,
    y: int,
    error: (int, int, int),
    kernel: Seq<Offset>,
    k: int,
    j: int,
)
    requires
        width > 0,
        work.len() == width * height,
        0 <= j < work.len(),
        on_border(width, height, j),
        k <= kernel.len(),
    ensures
        spread(work, width, height, x, y, error, kernel, k).len() == work.len(),
        spread(work, width, height, x, y, error, kernel, k)[j] == work[j],
    decreases k,
{
    if k > 0 {
        lemma_spread_keeps_border(work, width, height, x, y, error, kernel, k - 1, j);
        let entry = kernel[k - 1];
        let tx = x + entry.dx;
        let ty = y + entry.dy;
        if interior(width, height, tx, ty) {
            let target = ty * width + tx;
            lemma_fundamental_div_mod_converse_mod(target, width, ty, tx);
            lemma_fundamental_div_mod_converse_div(target, width, ty, tx);
            assert(0 <= target < width * height) by (nonlinear_arith)
                requires
                    1 <= tx <= width - 2,
                    1 <= ty <= height - 2,
                    target == ty * width + tx,
            ;
        }
    }
}

/// A pixel in the first or last row or column never receives error. Until
/// its turn comes it holds what it held at the start, and from then on the
/// palette colour nearest to that.
pub proof fn law_border_untouched(
    work: Seq<(int, int, int)>,
    width: int,
    height: int,
    palette: Seq<Rgb>,
    kernel: Seq<Offset>,
    n: int,
    j: int,
)
    requires
        width > 0,
        work.len() == width * height,
        0 <= n <= work.len(),
        0 <= j < work.len(),
        on_border(width, height, j),
    ensures
        diffused(work, width, height, palette, kernel, n).len() == work.len(),
        diffused(work, width, height, palette, kernel, n)[j] == if j < n {
            nearest_color_of(work[j], palette)@
        } else {
            work[j]
        },
    decreases n,
{
    if n > 0 {
        let i = n - 1;
        let earlier = diffused(work, width, height, palette, kernel, i);
        law_border_untouched(work, width, height, palette, kernel, i, j);
        let chosen = nearest_color_of(earlier[i], palette)@;
        let error = (earlier[i].0 - chosen.0, earlier[i].1 - chosen.1, earlier[i].2 - chosen.2);
        lemma_spread_keeps_border(
            earlier.update(i, chosen),
            width,
            height,
            i % width,
            i / width,
            error,
            kernel,
            kernel.len() as int,
            j,
        );
    }
}

/// The pass is a function of what it is given: two runs on the same pixels,
/// size, palette and kernel give the same working pixels and the same image.
pub proof fn law_diffusion_repeatable(
    first: Seq<Pixel>,
    second: Seq<Pixel>,
    original: Seq<Rgb>,
    width: int,
    height: int,
    palette: Seq<Rgb>,
    kernel: Seq<Offset>,
)
    requires
        tones(first) == diffused(
            color_tones(original),
            width,
            height,
            palette,
            kernel,
            original.len() as int,
        ),
        tones(second) == diffused(
            color_tones(original),
            width,
            height,
            palette,
            kernel,
            original.len() as int,
        ),
    ensures
        first == second,
{
    assert(first.len() == tones(first).len());
    assert(second.len() == tones(second).len());
    assert forall|i: int| 0 <= i < first.len() implies first[i] == second[i] by {
        assert(tones(first)[i] == first[i]@);
        assert(tones(second)[i] == second[i]@);
    }
    assert(first =~= second);
}

} // verus!
