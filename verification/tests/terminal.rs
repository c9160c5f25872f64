use cega::color::palette::palette_from_abbr;
use cega::color::Color;
use cega::terminal::args::parse_asci_param;
use cega::terminal::{cga_char_palette, ega_char_palette, TerminalMode, TerminalPalette};

#[test]
fn char_palettes() {
    assert_eq!(cga_char_palette(), vec![' ', '*', '+', '▒']);
    assert_eq!(
        ega_char_palette(),
        vec![' ', '.', ':', '-', '=', '+', '*', '▒', '▓', '•', '#', '‖', '%', '@', '⁌', '█']
    );
}

#[test]
fn modes_by_letter() {
    assert_eq!(TerminalMode::from_short("a"), Ok(TerminalMode::Ascii));
    assert_eq!(TerminalMode::from_short("c"), Ok(TerminalMode::ColoredAscii));
    assert_eq!(TerminalMode::from_short("p"), Ok(TerminalMode::Pixels));
    assert_eq!(TerminalMode::from_short("h"), Ok(TerminalMode::HorizontalHalf));
    assert_eq!(
        TerminalMode::from_short("v"),
        Err("possible values: a, c, p, h".to_string())
    );
    assert_eq!(
        TerminalMode::from_short(""),
        Err("possible values: a, c, p, h".to_string())
    );
}

#[test]
fn ansi_codes_text() {
    assert_eq!(TerminalPalette::ansi_codes(31, 'x'), "\x1b[31mx\x1b[0m");
    assert_eq!(TerminalPalette::ansi_codes(107, ' '), "\x1b[107m \x1b[0m");
    assert_eq!(TerminalPalette::ansi_codes(0, '▒'), "\x1b[0m▒\x1b[0m");
    assert_eq!(TerminalPalette::ansi_codes(255, 'a'), "\x1b[255ma\x1b[0m");
    assert_eq!(TerminalPalette::ansi_codes(9, 'a'), "\x1b[9ma\x1b[0m");
    assert_eq!(TerminalPalette::ansi_codes(200, 'a'), "\x1b[200ma\x1b[0m");
}

#[test]
fn half_ansi_codes_text() {
    assert_eq!(
        TerminalPalette::half_ansi_codes(36, 46, '▌'),
        ["\x1b[36;".to_string(), "46m▌\x1b[0m".to_string()]
    );
}

#[test]
fn adjusted_index() {
    assert_eq!(TerminalPalette::hhalf_adjusted_index(0, 0), 0);
    assert_eq!(TerminalPalette::hhalf_adjusted_index(0, 1), 1);
    assert_eq!(TerminalPalette::hhalf_adjusted_index(3, 4), 6);
    assert_eq!(TerminalPalette::hhalf_adjusted_index(3, 7), 7);
}

#[test]
fn ascii_palette() {
    let palette = TerminalPalette::new(TerminalMode::Ascii, Some(" .x#"), palette_from_abbr("cga0"));
    assert_eq!(palette.mode, TerminalMode::Ascii);
    assert_eq!(palette.terminal, vec![" ", ".", "x", "#"]);
    let default = TerminalPalette::new(TerminalMode::Ascii, None, palette_from_abbr("cga0"));
    assert_eq!(default.terminal.len(), 16);
    assert_eq!(default.terminal[7], "▒");
}

#[test]
fn colored_ascii_palette() {
    let palette = TerminalPalette::new(
        TerminalMode::ColoredAscii,
        Some(" *+#"),
        vec![Color::Black(false), Color::Cyan(true), Color::Red(false)],
    );
    assert_eq!(
        palette.terminal,
        vec!["\x1b[30m \x1b[0m", "\x1b[96m*\x1b[0m", "\x1b[31m+\x1b[0m"]
    );
    let short = TerminalPalette::new(
        TerminalMode::ColoredAscii,
        Some("ab"),
        palette_from_abbr("ega"),
    );
    assert_eq!(short.terminal, vec!["\x1b[30ma\x1b[0m", "\x1b[34mb\x1b[0m"]);
}

#[test]
fn pixel_palette() {
    let palette = TerminalPalette::new(
        TerminalMode::Pixels,
        None,
        vec![Color::Black(false), Color::White(true)],
    );
    assert_eq!(palette.terminal, vec!["\x1b[40m \x1b[0m", "\x1b[107m \x1b[0m"]);
}

#[test]
fn half_block_palettes() {
    let colors = vec![Color::Black(false), Color::Magenta(true)];
    let horizontal = TerminalPalette::new(TerminalMode::HorizontalHalf, None, colors.clone());
    assert_eq!(
        horizontal.terminal,
        vec!["\x1b[30;", "40m▌\x1b[0m", "\x1b[95;", "105m▌\x1b[0m"]
    );
    let vertical = TerminalPalette::new(TerminalMode::VerticalHalf, None, colors);
    assert_eq!(
        vertical.terminal,
        vec!["\x1b[30;", "40m▀\x1b[0m", "\x1b[95;", "105m▀\x1b[0m"]
    );
}

#[test]
fn image_as_ascii() {
    let palette = TerminalPalette::new(TerminalMode::Ascii, Some(" .x#"), palette_from_abbr("cga0"));
    assert_eq!(
        palette.output_image_string(vec![vec![0, 1, 2], vec![3, 3, 0]]),
        "\x1b[?7l .x\n## \x1b[?7h"
    );
    assert_eq!(palette.output_image_string(vec![]), "\x1b[?7l\x1b[?7h");
    assert_eq!(
        palette.output_image_string(vec![vec![], vec![1], vec![]]),
        "\x1b[?7l\n.\n\x1b[?7h"
    );
}

#[test]
fn image_as_colored_pixels() {
    let palette = TerminalPalette::new(
        TerminalMode::Pixels,
        None,
        vec![Color::Black(false), Color::Red(false)],
    );
    assert_eq!(
        palette.output_image_string(vec![vec![1, 0]]),
        "\x1b[?7l\x1b[41m \x1b[0m\x1b[40m \x1b[0m\x1b[?7h"
    );
}

#[test]
fn image_as_horizontal_halves() {
    let palette = TerminalPalette::new(
        TerminalMode::HorizontalHalf,
        None,
        vec![Color::Black(false), Color::Red(false)],
    );
    assert_eq!(
        palette.output_image_string(vec![vec![1, 0], vec![0, 1]]),
        "\x1b[?7l\x1b[31;40m▌\x1b[0m\n\x1b[30;41m▌\x1b[0m\x1b[?7h"
    );
}

#[test]
fn custom_ascii_lengths() {
    assert_eq!(parse_asci_param(" +%0"), Ok(" +%0".to_string()));
    assert_eq!(parse_asci_param(""), Ok("".to_string()));
    assert_eq!(
        parse_asci_param("0123456789abcdef"),
        Ok("0123456789abcdef".to_string())
    );
    assert_eq!(
        parse_asci_param("abc"),
        Err("requires a 4 or 16 character string like: -a \" +%0\"".to_string())
    );
    // Counted in bytes: two characters of two bytes each are accepted.
    assert_eq!(parse_asci_param("éé"), Ok("éé".to_string()));
}

#[test]
fn default_characters() {
    assert_eq!(
        cega::terminal::default_char_palette(cega::ImageType::CGA),
        cga_char_palette()
    );
    assert_eq!(
        cega::terminal::default_char_palette(cega::ImageType::EGA),
        ega_char_palette()
    );
}

#[test]
fn palette_covers_an_image() {
    let palette = TerminalPalette::new(TerminalMode::Ascii, Some(" .x#"), palette_from_abbr("cga0"));
    assert!(palette.covers_image(&vec![vec![0, 3], vec![], vec![2]]));
    assert!(!palette.covers_image(&vec![vec![0, 3], vec![4]]));
    let halves = TerminalPalette::new(
        TerminalMode::HorizontalHalf,
        None,
        vec![Color::Black(false), Color::Red(false)],
    );
    assert!(halves.covers_image(&vec![vec![1, 1, 0]]));
    assert!(!halves.covers_image(&vec![vec![2]]));
}

fn arguments(palette: Option<&str>, tile_height: Option<usize>, quiet: bool) -> cega::terminal::args::Args {
    cega::terminal::args::Args {
        image: "image.bin".to_string(),
        ascii_preview: None,
        palette: palette.map(|name| name.to_string()),
        image_parser: "cga".to_string(),
        custom_ascii: None,
        width: 320,
        max_width: None,
        output_file: None,
        ga_file: None,
        tile_height,
        sdl: false,
        quiet,
    }
}

#[test]
fn palette_of_the_arguments() {
    assert_eq!(arguments(None, None, false).palette_name(cega::ImageType::CGA), "cga1");
    assert_eq!(
        arguments(Some("cga0i"), None, false).palette_name(cega::ImageType::CGA),
        "cga0i"
    );
    assert_eq!(
        arguments(Some("cga0i"), None, false).palette_name(cega::ImageType::EGA),
        "ega"
    );
    assert_eq!(arguments(None, None, false).palette_name(cega::ImageType::EGA), "ega");
}

#[test]
fn suggestions_of_the_arguments() {
    assert!(arguments(None, None, false).wants_suggestions());
    assert!(!arguments(None, None, true).wants_suggestions());
    assert!(!arguments(None, Some(16), false).wants_suggestions());
    assert!(!arguments(None, Some(16), true).wants_suggestions());
}

#[test]
fn numbers_as_text() {
    let mut text = String::from("n = ");
    cega::text::push_number(&mut text, 0);
    text.push(' ');
    cega::text::push_number(&mut text, 7);
    text.push(' ');
    cega::text::push_number(&mut text, 64_000);
    text.push(' ');
    cega::text::push_number(&mut text, u64::MAX);
    assert_eq!(text, "n = 0 7 64000 18446744073709551615");
    let mut short = String::new();
    cega::text::push_number(&mut short, 255);
    cega::text::push_number(&mut short, 10);
    cega::text::push_number(&mut short, 100);
    assert_eq!(short, "25510100");
}

#[test]
fn lists_as_text() {
    let mut text = String::new();
    cega::text::push_list(&mut text, &vec![]);
    cega::text::push_list(&mut text, &vec![5]);
    cega::text::push_list(&mut text, &vec![2, 4, 8]);
    cega::text::push_list(&mut text, &vec![-1, 0, i64::MIN, i64::MAX]);
    assert_eq!(
        text,
        "[][5][2, 4, 8][-1, 0, -9223372036854775808, 9223372036854775807]"
    );
    assert_eq!(format!("{:?}", vec![-1, 0, i64::MIN, i64::MAX]), "[-1, 0, -9223372036854775808, 9223372036854775807]");
    assert!(cega::text::same_text("abc", "abc"));
    assert!(!cega::text::same_text("abc", "abd"));
    assert_eq!(cega::text::chars_of("a▒c"), vec!['a', '▒', 'c']);
}
