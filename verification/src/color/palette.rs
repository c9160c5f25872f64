//! The palettes that an image can be shown in.

use crate::color::Color;
use crate::text::same_text;
use vstd::prelude::*;

verus! {

pub type Palette<T> = Vec<T>;

pub type ColorPalette = Vec<Color>;

pub type CGAColorPalette = [Color; 4];

pub type EGAColorPalette = [Color; 16];

/// CGA palette 0 as this program shows it: black, bright cyan, bright
/// magenta, white.
pub open spec fn spec_cga0() -> Seq<Color> {
    seq![Color::Black(false), Color::Cyan(true), Color::Magenta(true), Color::White(true)]
}

/// Black, bright green, bright red, yellow.
pub open spec fn spec_cga0i() -> Seq<Color> {
    seq![Color::Black(false), Color::Green(true), Color::Red(true), Color::Brown(true)]
}

/// Black, cyan, magenta, light gray.
pub open spec fn spec_cga1() -> Seq<Color> {
    seq![Color::Black(false), Color::Cyan(false), Color::Magenta(false), Color::White(false)]
}

/// Black, bright cyan, bright magenta, white.
pub open spec fn spec_cga1i() -> Seq<Color> {
    seq![Color::Black(false), Color::Cyan(true), Color::Magenta(true), Color::White(true)]
}

/// The sixteen colours of the EGA: the eight dark ones in the order blue,
/// green, red of their bits, then the eight bright ones.
pub open spec fn spec_ega0() -> Seq<Color> {
    seq![
        Color::Black(false),
        Color::Blue(false),
        Color::Green(false),
        Color::Cyan(false),
        Color::Red(false),
        Color::Magenta(false),
        Color::Brown(false),
        Color::White(false),
        Color::Black(true),
        Color::Blue(true),
        Color::Green(true),
        Color::Cyan(true),
        Color::Red(true),
        Color::Magenta(true),
        Color::Brown(true),
        Color::White(true),
    ]
}

/// The palette that a name selects. Every name but the four others
/// selects `cga1`.
pub open spec fn palette_named(name: Seq<char>) -> Seq<Color> {
    if name == "ega"@ {
        spec_ega0()
    } else if name == "cga0"@ {
        spec_cga0()
    } else if name == "cga0i"@ {
        spec_cga0i()
    } else if name == "cga1i"@ {
        spec_cga1i()
    } else {
        spec_cga1()
    }
}

pub fn cga0() -> (palette: CGAColorPalette)
    ensures
        palette@ == spec_cga0(),
{
    let palette: CGAColorPalette = [
        Color::Black(false),
        Color::Cyan(true),
        Color::Magenta(true),
        Color::White(true),
    ];
    assert(palette@ =~= spec_cga0());
    palette
}

pub fn cga0i() -> (palette: CGAColorPalette)
    ensures
        palette@ == spec_cga0i(),
{
    let palette: CGAColorPalette = [
        Color::Black(false),
        Color::Green(true),
        Color::Red(true),
        Color::Brown(true),
    ];
    assert(palette@ =~= spec_cga0i());
    palette
}

pub fn cga1() -> (palette: CGAColorPalette)
    ensures
        palette@ == spec_cga1(),
{
    let palette: CGAColorPalette = [
        Color::Black(false),
        Color::Cyan(false),
        Color::Magenta(false),
        Color::White(false),
    ];
    assert(palette@ =~= spec_cga1());
    palette
}

pub fn cga1i() -> (palette: CGAColorPalette)
    ensures
        palette@ == spec_cga1i(),
{
    let palette: CGAColorPalette = [
        Color::Black(false),
        Color::Cyan(true),
        Color::Magenta(true),
        Color::White(true),
    ];
    assert(palette@ =~= spec_cga1i());
    palette
}

pub fn ega0() -> (palette: EGAColorPalette)
    ensures
        palette@ == spec_ega0(),
{
    let palette: EGAColorPalette = [
        Color::Black(false),
        Color::Blue(false),
        Color::Green(false),
        Color::Cyan(false),
        Color::Red(false),
        Color::Magenta(false),
        Color::Brown(false),
        Color::White(false),
        Color::Black(true),
        Color::Blue(true),
        Color::Green(true),
        Color::Cyan(true),
        Color::Red(true),
        Color::Magenta(true),
        Color::Brown(true),
        Color::White(true),
    ];
    assert(palette@ =~= spec_ega0());
    palette
}

/// The colours of an array, in a vector.
pub fn palette_of<const N: usize>(colors: [Color; N]) -> (palette: ColorPalette)
    ensures
        palette@ == colors@,
{
    let mut palette: Vec<Color> = Vec::new();
    let mut i: usize = 0;
    while i < N
        invariant
            i <= N,
            palette@ == colors@.take(i as int),
        decreases N - i,
    {
        palette.push(colors[i]);
        assert(colors@.take(i + 1) =~= colors@.take(i as int).push(colors@[i as int]));
        i += 1;
    }
    assert(colors@.take(N as int) =~= colors@);
    palette
}

/// The palette that `name` selects: `ega`, `cga0`, `cga0i`, `cga1i`, or,
/// for every other name, `cga1`.
pub fn palette_from_abbr(name: &str) -> (palette: ColorPalette)
    ensures
        palette@ == palette_named(name@),
{
    if same_text(name, "ega") {
        palette_of(ega0())
    } else if same_text(name, "cga0") {
        palette_of(cga0())
    } else if same_text(name, "cga0i") {
        palette_of(cga0i())
    } else if same_text(name, "cga1i") {
        palette_of(cga1i())
    } else {
        palette_of(cga1())
    }
}

} // verus!
