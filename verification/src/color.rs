//! The sixteen colours of the CGA and EGA palettes.

use vstd::prelude::*;

pub mod palette;

verus! {

/// One of the eight hues, dark (`false`) or bright (`true`).
#[derive(Debug, Clone, Copy, PartialEq, Eq, Structural)]
pub enum Color {
    /// Black, or dark gray when bright.
    Black(bool),
    Blue(bool),
    Green(bool),
    Cyan(bool),
    Red(bool),
    Magenta(bool),
    /// Brown, or yellow when bright.
    Brown(bool),
    /// Light gray, or white when bright.
    White(bool),
}

impl Color {
    /// Whether the colour is the bright one of its hue.
    pub open spec fn bright(&self) -> bool {
        match self {
            Color::Black(b) => *b,
            Color::Blue(b) => *b,
            Color::Green(b) => *b,
            Color::Cyan(b) => *b,
            Color::Red(b) => *b,
            Color::Magenta(b) => *b,
            Color::Brown(b) => *b,
            Color::White(b) => *b,
        }
    }

    /// Whether the hue has red in it.
    pub open spec fn has_red(&self) -> bool {
        self is Red || self is Magenta || self is Brown || self is White
    }

    /// Whether the hue has green in it.
    pub open spec fn has_green(&self) -> bool {
        self is Green || self is Cyan || self is Brown || self is White
    }

    /// Whether the hue has blue in it.
    pub open spec fn has_blue(&self) -> bool {
        self is Blue || self is Cyan || self is Magenta || self is White
    }

    /// The number of the hue in ANSI escape codes: red counts 1, green 2
    /// and blue 4.
    pub open spec fn ansi_hue(&self) -> int {
        (if self.has_red() { 1int } else { 0 }) + (if self.has_green() { 2int } else { 0 }) + (
        if self.has_blue() { 4int } else { 0 })
    }

    /// The ANSI code that selects the colour for the text: 30 to 37 for the
    /// dark colours, 90 to 97 for the bright ones.
    pub open spec fn spec_ansi_fg(&self) -> int {
        30 + self.ansi_hue() + (if self.bright() { 60int } else { 0 })
    }

    /// One channel of the 24-bit colour: two thirds of full strength where
    /// the hue has the channel, and one third more for a bright colour.
    pub open spec fn channel(on: bool, bright: bool) -> int {
        (if on { 0xAAint } else { 0 }) + (if bright { 0x55int } else { 0 })
    }

    /// The colour as `0xRRGGBB`. Dark brown has half of its green taken
    /// away, as on the monitors of the time.
    pub open spec fn spec_rgb24(&self) -> int {
        if *self == Color::Brown(false) {
            0xAA5500
        } else {
            0x10000 * Self::channel(self.has_red(), self.bright()) + 0x100 * Self::channel(
                self.has_green(),
                self.bright(),
            ) + Self::channel(self.has_blue(), self.bright())
        }
    }

    pub fn ansi_fg(&self) -> (code: u8)
        ensures
            code == self.spec_ansi_fg(),
    {
        match self {
            Color::Black(false) => 30,
            Color::Red(false) => 31,
            Color::Green(false) => 32,
            Color::Brown(false) => 33,
            Color::Blue(false) => 34,
            Color::Magenta(false) => 35,
            Color::Cyan(false) => 36,
            Color::White(false) => 37,
            Color::Black(true) => 90,
            Color::Red(true) => 91,
            Color::Green(true) => 92,
            Color::Brown(true) => 93,
            Color::Blue(true) => 94,
            Color::Magenta(true) => 95,
            Color::Cyan(true) => 96,
            Color::White(true) => 97,
        }
    }

    /// The ANSI code that selects the colour for the background.
    pub fn ansi_bg(&self) -> (code: u8)
        ensures
            code == self.spec_ansi_fg() + 10,
    {
        self.ansi_fg() + 10
    }

    pub fn rgb24(&self) -> (rgb: u32)
        ensures
            rgb == self.spec_rgb24(),
    {
        match self {
            Color::Black(true) => 0x555555,
            Color::Blue(true) => 0x5555FF,
            Color::Green(true) => 0x55FF55,
            Color::Cyan(true) => 0x55FFFF,
            Color::Red(true) => 0xFF5555,
            Color::Magenta(true) => 0xFF55FF,
            Color::Brown(true) => 0xFFFF55,
            Color::White(true) => 0xFFFFFF,
            Color::Black(false) => 0x000000,
            Color::Blue(false) => 0x0000AA,
            Color::Green(false) => 0x00AA00,
            Color::Cyan(false) => 0x00AAAA,
            Color::Red(false) => 0xAA0000,
            Color::Magenta(false) => 0xAA00AA,
            Color::Brown(false) => 0xAA5500,
            Color::White(false) => 0xAAAAAA,
        }
    }

    /// The red, green and blue channels of the colour, in this order.
    pub open spec fn spec_channels(&self) -> Seq<u8> {
        seq![
            (self.spec_rgb24() / 0x10000) as u8,
            ((self.spec_rgb24() / 0x100) % 0x100) as u8,
            (self.spec_rgb24() % 0x100) as u8,
        ]
    }

    /// The red, green and blue channels of the colour.
    pub fn to_rgb(&self) -> (rgb: [u8; 3])
        ensures
            rgb@ == self.spec_channels(),
            0x10000 * rgb[0] + 0x100 * rgb[1] + rgb[2] == self.spec_rgb24(),
    {
        let all: u32 = self.rgb24();
        let rgb: [u8; 3] = [
            (all / 0x10000) as u8,
            ((all / 0x100) % 0x100) as u8,
            (all % 0x100) as u8,
        ];
        assert(rgb@ =~= self.spec_channels());
        rgb
    }
}

} // verus!
