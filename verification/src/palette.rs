//! Colors that tell samples (and the patterns that play them) apart
//! everywhere in the interface.

use vstd::prelude::*;

verus! {

/// A color as red, green and blue.
#[derive(Debug, Clone, Copy, PartialEq, Eq, Structural)]
pub struct Rgb {
    pub r: u8,
    pub g: u8,
    pub b: u8,
}

/// How many colors there are before they repeat.
pub const SAMPLE_COLOR_COUNT: usize = 8;

/// The `i`-th color of the palette (`i` below 8): blue, orange, green,
/// pink, purple, yellow, teal, red.
pub open spec fn palette_color(i: int) -> Rgb {
    if i == 0 {
        Rgb { r: 86, g: 156, b: 214 }
    } else if i == 1 {
        Rgb { r: 220, g: 140, b: 70 }
    } else if i == 2 {
        Rgb { r: 110, g: 190, b: 120 }
    } else if i == 3 {
        Rgb { r: 200, g: 100, b: 160 }
    } else if i == 4 {
        Rgb { r: 170, g: 140, b: 220 }
    } else if i == 5 {
        Rgb { r: 210, g: 190, b: 80 }
    } else if i == 6 {
        Rgb { r: 80, g: 190, b: 190 }
    } else {
        Rgb { r: 200, g: 100, b: 100 }
    }
}

/// The color of the `index`-th sample: the palette, cycling.
pub fn sample_color(index: usize) -> (r: Rgb)
    ensures
        r == palette_color((index % 8) as int),
{
    let i = index % SAMPLE_COLOR_COUNT;
    if i == 0 {
        Rgb { r: 86, g: 156, b: 214 }
    } else if i == 1 {
        Rgb { r: 220, g: 140, b: 70 }
    } else if i == 2 {
        Rgb { r: 110, g: 190, b: 120 }
    } else if i == 3 {
        Rgb { r: 200, g: 100, b: 160 }
    } else if i == 4 {
        Rgb { r: 170, g: 140, b: 220 }
    } else if i == 5 {
        Rgb { r: 210, g: 190, b: 80 }
    } else if i == 6 {
        Rgb { r: 80, g: 190, b: 190 }
    } else {
        Rgb { r: 200, g: 100, b: 100 }
    }
}

/// Eight samples in a row get eight different colors.
pub proof fn lemma_palette_colors_differ(a: int, b: int)
    requires
        0 <= a < 8,
        0 <= b < 8,
        a != b,
    ensures
        palette_color(a) != palette_color(b),
{
}

/// The color of a sample is the color of the sample eight places on.
pub proof fn lemma_colors_cycle(index: nat)
    ensures
        palette_color((index % 8) as int) == palette_color(((index + 8) % 8) as int),
{
    assert((index + 8) % 8 == index % 8) by (nonlinear_arith);
}

} // verus!
