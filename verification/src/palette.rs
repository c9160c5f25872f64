//! The palettes by their short names.

use crate::color::palette::{
    cga0, cga0i, cga1, cga1i, ega0, palette_of, spec_cga0, spec_cga0i, spec_cga1, spec_cga1i,
    spec_ega0,
};
use crate::color::Color;
use crate::terminal::{spec_cga_chars, spec_ega_chars};
use crate::text::same_text;
use vstd::prelude::*;

verus! {

pub type Palette<T> = Vec<T>;

pub type ColorPalette = Vec<Color>;

pub type CharPalette = Vec<char>;

pub type CGAColorPalette = [Color; 4];

pub type CGACharPalette = [char; 4];

pub type EGAColorPalette = [Color; 16];

pub type EGACharPalette = [char; 16];

/// The palette that a short name selects. Every name but the four others
/// selects CGA palette 1.
pub open spec fn palette_abbreviated(name: Seq<char>) -> Seq<Color> {
    if name == "e"@ {
        spec_ega0()
    } else if name == "0"@ {
        spec_cga0()
    } else if name == "0i"@ {
        spec_cga0i()
    } else if name == "1i"@ {
        spec_cga1i()
    } else {
        spec_cga1()
    }
}

/// The palette that `name` selects: `e`, `0`, `0i`, `1i`, or, for every
/// other name, CGA palette 1.
pub fn palette_from_abbr(name: &str) -> (palette: ColorPalette)
    ensures
        palette@ == palette_abbreviated(name@),
{
    if same_text(name, "e") {
        palette_of(ega0())
    } else if same_text(name, "0") {
        palette_of(cga0())
    } else if same_text(name, "0i") {
        palette_of(cga0i())
    } else if same_text(name, "1i") {
        palette_of(cga1i())
    } else {
        palette_of(cga1())
    }
}

pub fn cga_char_palette() -> (chars: Palette<char>)
    ensures
        chars@ == spec_cga_chars(),
{
    crate::terminal::cga_char_palette()
}

pub fn ega_char_palette() -> (chars: Palette<char>)
    ensures
        chars@ == spec_ega_chars(),
{
    crate::terminal::ega_char_palette()
}

} // verus!
