//! The text form of a quantized image: its size and the palette index of
//! every pixel in lower-case hexadecimal.

use vstd::prelude::*;
use vstd::string::StringExecFns;
use crate::color::Rgb;
use crate::error::DitherError;
use crate::matcher::{nearest_index, nearest_index_of};

verus! {

/// The character that stands for a digit below 16.
pub open spec fn digit_char(d: int) -> char {
    seq!['0', '1', '2', '3', '4', '5', '6', '7', '8', '9', 'a', 'b', 'c', 'd', 'e', 'f'][d]
}

/// `n` in decimal, without leading zeros; one digit for zero.
pub open spec fn decimal(n: nat) -> Seq<char>
    decreases n,
{
    if n < 10 {
        seq![digit_char(n as int)]
    } else {
        decimal(n / 10).push(digit_char((n % 10) as int))
    }
}

/// `n` in lower-case hexadecimal, without leading zeros; one digit for zero.
pub open spec fn hexadecimal(n: nat) -> Seq<char>
    decreases n,
{
    if n < 16 {
        seq![digit_char(n as int)]
    } else {
        hexadecimal(n / 16).push(digit_char((n % 16) as int))
    }
}

/// A palette index in hexadecimal, with a leading zero where it has one digit.
pub open spec fn hex_pair(index: nat) -> Seq<char> {
    if index < 16 {
        seq!['0'] + hexadecimal(index)
    } else {
        hexadecimal(index)
    }
}

/// The palette indices of the first `n` pixels, one after the other.
pub open spec fn index_text(pixels: Seq<Rgb>, palette: Seq<Rgb>, n: int) -> Seq<char>
    decreases n,
{
    if n <= 0 {
        Seq::<char>::empty()
    } else {
        index_text(pixels, palette, n - 1) + hex_pair(
            nearest_index_of(pixels[n - 1]@, palette) as nat,
        )
    }
}

/// The text form of an image: `userdata("u8", W, H, "I")`, where `W` and `H`
/// are the width and the height in decimal and `I` holds the palette index
/// of every pixel, row by row.
pub open spec fn userdata_of(width: nat, height: nat, pixels: Seq<Rgb>, palette: Seq<Rgb>) -> Seq<
    char,
> {
    "userdata(\"u8\", "@ + decimal(width) + ", "@ + decimal(height) + ", \""@ + index_text(
        pixels,
        palette,
        pixels.len() as int,
    ) + "\")"@
}

/// Appends the character of one digit.
fn push_digit(text: &mut String, d: u8)
    requires
        d < 16,
    ensures
        final(text)@ == old(text)@.push(digit_char(d as int)),
{
    proof {
        reveal_strlit("0");
        reveal_strlit("1");
        reveal_strlit("2");
        reveal_strlit("3");
        reveal_strlit("4");
        reveal_strlit("5");
        reveal_strlit("6");
        reveal_strlit("7");
        reveal_strlit("8");
        reveal_strlit("9");
        reveal_strlit("a");
        reveal_strlit("b");
        reveal_strlit("c");
        reveal_strlit("d");
        reveal_strlit("e");
        reveal_strlit("f");
    }
    let ghost before = text@;
    let digit = match d {
        0 => "0",
        1 => "1",
        2 => "2",
        3 => "3",
        4 => "4",
        5 => "5",
        6 => "6",
        7 => "7",
        8 => "8",
        9 => "9",
        10 => "a",
        11 => "b",
        12 => "c",
        13 => "d",
        14 => "e",
        _ => "f",
    };
    text.append(digit);
    assert(text@ =~= before.push(digit_char(d as int)));
}

/// Appends `n` in decimal.
fn push_decimal(text: &mut String, n: u32)
    ensures
        final(text)@ == old(text)@ + decimal(n as nat),
    decreases n,
{
    let ghost before = text@;
    if n >= 10 {
        push_decimal(text, n / 10);
    }
    push_digit(text, (n % 10) as u8);
    assert(text@ =~= before + decimal(n as nat));
}

/// Appends `n` in hexadecimal.
fn push_hexadecimal(text: &mut String, n: usize)
    ensures
        final(text)@ == old(text)@ + hexadecimal(n as nat),
    decreases n,
{
    let ghost before = text@;
    if n >= 16 {
        push_hexadecimal(text, n / 16);
    }
    push_digit(text, (n % 16) as u8);
    assert(text@ =~= before + hexadecimal(n as nat));
}

/// The text form of an image whose pixels are given row by row: its size,
/// and for every pixel the index of the nearest palette entry. An empty
/// palette is refused, and so is a row of pixels that is not
/// `width * height` long.
pub fn userdata_text(width: u32, height: u32, pixels: &Vec<Rgb>, palette: &Vec<Rgb>) -> (text:
    Result<String, DitherError>)
    ensures
        palette.len() == 0 ==> text == Err::<String, DitherError>(DitherError::InvalidPalette),
        palette.len() > 0 && pixels.len() != width * height ==> text == Err::<
            String,
            DitherError,
        >(DitherError::DimensionMismatch),
        palette.len() > 0 && pixels.len() == width * height ==> text is Ok,
        text matches Ok(s) ==> s@ == userdata_of(
            width as nat,
            height as nat,
            pixels@,
            palette@,
        ),
{
    if palette.len() == 0 {
        return Err(DitherError::InvalidPalette);
    }
    assert(width * height <= 0xFFFF_FFFF * 0xFFFF_FFFF) by (nonlinear_arith)
        requires
            width <= 0xFFFF_FFFF,
            height <= 0xFFFF_FFFF,
    ;
    if pixels.len() as u128 != width as u128 * height as u128 {
        return Err(DitherError::DimensionMismatch);
    }
    let mut indices = String::new();
    let mut i: usize = 0;
    while i < pixels.len()
        invariant
            i <= pixels.len(),
            palette.len() > 0,
            indices@ == index_text(pixels@, palette@, i as int),
        decreases pixels.len() - i,
    {
        let index = match nearest_index(pixels[i].to_pixel(), palette) {
            Ok(found) => found,
            Err(_) => {
                proof {
                    assert(false);
                }
                0
            },
        };
        let ghost before = indices@;
        if index < 16 {
            push_digit(&mut indices, 0);
        }
        push_hexadecimal(&mut indices, index);
        assert(indices@ =~= before + hex_pair(index as nat));
        i += 1;
    }
    let mut text = String::from_str("userdata(\"u8\", ");
    push_decimal(&mut text, width);
    text.append(", ");
    push_decimal(&mut text, height);
    text.append(", \"");
    text.append(indices.as_str());
    text.append("\")");
    Ok(text)
}

} // verus!
