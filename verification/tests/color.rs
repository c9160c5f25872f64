use cega::color::palette::{cga0, cga0i, cga1, cga1i, ega0, palette_from_abbr};
use cega::color::Color;

#[test]
fn test_ansi_fg() {
    assert_eq!(Color::Black(false).ansi_fg(), 30);
    assert_eq!(Color::Brown(false).ansi_fg(), 33);
    assert_eq!(Color::Black(true).ansi_fg(), 90);
    assert_eq!(Color::Brown(true).ansi_fg(), 93);
}

#[test]
fn ansi_codes_of_all_colors() {
    let dark = [
        Color::Black(false),
        Color::Red(false),
        Color::Green(false),
        Color::Brown(false),
        Color::Blue(false),
        Color::Magenta(false),
        Color::Cyan(false),
        Color::White(false),
    ];
    for (i, color) in dark.iter().enumerate() {
        assert_eq!(color.ansi_fg(), 30 + i as u8);
        assert_eq!(color.ansi_bg(), 40 + i as u8);
    }
    let bright = [
        Color::Black(true),
        Color::Red(true),
        Color::Green(true),
        Color::Brown(true),
        Color::Blue(true),
        Color::Magenta(true),
        Color::Cyan(true),
        Color::White(true),
    ];
    for (i, color) in bright.iter().enumerate() {
        assert_eq!(color.ansi_fg(), 90 + i as u8);
        assert_eq!(color.ansi_bg(), 100 + i as u8);
    }
}

#[test]
fn rgb_of_all_colors() {
    assert_eq!(Color::Black(false).rgb24(), 0x000000);
    assert_eq!(Color::Blue(false).rgb24(), 0x0000AA);
    assert_eq!(Color::Green(false).rgb24(), 0x00AA00);
    assert_eq!(Color::Cyan(false).rgb24(), 0x00AAAA);
    assert_eq!(Color::Red(false).rgb24(), 0xAA0000);
    assert_eq!(Color::Magenta(false).rgb24(), 0xAA00AA);
    assert_eq!(Color::Brown(false).rgb24(), 0xAA5500);
    assert_eq!(Color::White(false).rgb24(), 0xAAAAAA);
    assert_eq!(Color::Black(true).rgb24(), 0x555555);
    assert_eq!(Color::Blue(true).rgb24(), 0x5555FF);
    assert_eq!(Color::Green(true).rgb24(), 0x55FF55);
    assert_eq!(Color::Cyan(true).rgb24(), 0x55FFFF);
    assert_eq!(Color::Red(true).rgb24(), 0xFF5555);
    assert_eq!(Color::Magenta(true).rgb24(), 0xFF55FF);
    assert_eq!(Color::Brown(true).rgb24(), 0xFFFF55);
    assert_eq!(Color::White(true).rgb24(), 0xFFFFFF);
}

#[test]
fn rgb_channels() {
    assert_eq!(Color::Brown(false).to_rgb(), [0xAA, 0x55, 0x00]);
    assert_eq!(Color::Cyan(true).to_rgb(), [0x55, 0xFF, 0xFF]);
    assert_eq!(Color::Black(false).to_rgb(), [0, 0, 0]);
}

#[test]
fn palettes_by_name() {
    assert_eq!(palette_from_abbr("ega"), ega0().to_vec());
    assert_eq!(palette_from_abbr("cga0"), cga0().to_vec());
    assert_eq!(palette_from_abbr("cga0i"), cga0i().to_vec());
    assert_eq!(palette_from_abbr("cga1i"), cga1i().to_vec());
    assert_eq!(palette_from_abbr("cga1"), cga1().to_vec());
    assert_eq!(palette_from_abbr("anything else"), cga1().to_vec());
}

#[test]
fn palette_contents() {
    assert_eq!(
        palette_from_abbr("cga0"),
        vec![
            Color::Black(false),
            Color::Cyan(true),
            Color::Magenta(true),
            Color::White(true)
        ]
    );
    assert_eq!(
        palette_from_abbr("cga1"),
        vec![
            Color::Black(false),
            Color::Cyan(false),
            Color::Magenta(false),
            Color::White(false)
        ]
    );
    assert_eq!(
        palette_from_abbr("cga0i"),
        vec![
            Color::Black(false),
            Color::Green(true),
            Color::Red(true),
            Color::Brown(true)
        ]
    );
    let ega = palette_from_abbr("ega");
    assert_eq!(ega.len(), 16);
    assert_eq!(ega[1], Color::Blue(false));
    assert_eq!(ega[6], Color::Brown(false));
    assert_eq!(ega[14], Color::Brown(true));
    assert_eq!(ega[15], Color::White(true));
}
