//! Images as text for a terminal: characters, ANSI colour codes, or both.

use crate::color::palette::ColorPalette;
use crate::color::Color;
use crate::text::{chars_of, decimal, push_number, same_text};
use vstd::prelude::*;

pub mod args;

verus! {

pub type CharPalette = Vec<char>;

pub type CGACharPalette = [char; 4];

pub type EGACharPalette = [char; 16];

/// Opens an ANSI escape sequence.
pub const ANSIOPEN: &'static str = "\x1b[";

/// Resets colours and attributes.
pub const ANSIRESET: &'static str = "\x1b[0m";

/// Makes the terminal cut long lines off instead of wrapping them.
pub const DISABLEWRAPPING: &'static str = "\x1b[?7l";

/// Makes the terminal wrap long lines again.
pub const ENABLEWRAPPING: &'static str = "\x1b[?7h";

/// The left half block, for two cells in one character.
pub const LEFT_HALF_BLOCK: char = '\u{258c}';

/// The upper half block, for two cells in one character.
pub const UPPER_HALF_BLOCK: char = '\u{2580}';

/// The characters for the four indices of the 4-colour formats, from
/// empty to dense.
pub open spec fn spec_cga_chars() -> Seq<char> {
    seq![' ', '*', '+', '\u{2592}']
}

/// The characters for the sixteen indices of the 16-colour formats, from
/// empty to dense.
pub open spec fn spec_ega_chars() -> Seq<char> {
    seq![
        ' ',
        '.',
        ':',
        '-',
        '=',
        '+',
        '*',
        '\u{2592}',
        '\u{2593}',
        '\u{2022}',
        '#',
        '\u{2016}',
        '%',
        '@',
        '\u{204c}',
        '\u{2588}',
    ]
}

pub fn cga_char_palette() -> (chars: CharPalette)
    ensures
        chars@ == spec_cga_chars(),
{
    let chars: Vec<char> = vec![' ', '*', '+', '\u{2592}'];
    assert(chars@ =~= spec_cga_chars());
    chars
}

pub fn ega_char_palette() -> (chars: CharPalette)
    ensures
        chars@ == spec_ega_chars(),
{
    let chars: Vec<char> = vec![
        ' ',
        '.',
        ':',
        '-',
        '=',
        '+',
        '*',
        '\u{2592}',
        '\u{2593}',
        '\u{2022}',
        '#',
        '\u{2016}',
        '%',
        '@',
        '\u{204c}',
        '\u{2588}',
    ];
    assert(chars@ =~= spec_ega_chars());
    chars
}

/// The characters that stand for the indices of an image of the given
/// colour depth where the caller has none of their own.
pub fn default_char_palette(image_type: crate::ImageType) -> (chars: CharPalette)
    ensures
        chars@ == (match image_type {
            crate::ImageType::CGA => spec_cga_chars(),
            crate::ImageType::EGA => spec_ega_chars(),
        }),
{
    match image_type {
        crate::ImageType::CGA => cga_char_palette(),
        crate::ImageType::EGA => ega_char_palette(),
    }
}

/// How an image is shown on a terminal.
#[derive(Clone, Copy, Debug, PartialEq, Eq, Structural)]
pub enum TerminalMode {
    /// One character for each cell, without colour.
    Ascii,
    /// One character for each cell, in the cell's colour.
    ColoredAscii,
    /// One space for each cell, on the cell's colour.
    Pixels,
    /// Half blocks, left and right, for twice as many cells in a line.
    HorizontalHalf,
    /// Half blocks, upper and lower, for twice as many cells in a column.
    VerticalHalf,
}

/// The mode that a letter selects, if it selects one.
pub open spec fn mode_named(short: Seq<char>) -> Option<TerminalMode> {
    if short == "a"@ {
        Some(TerminalMode::Ascii)
    } else if short == "c"@ {
        Some(TerminalMode::ColoredAscii)
    } else if short == "p"@ {
        Some(TerminalMode::Pixels)
    } else if short == "h"@ {
        Some(TerminalMode::HorizontalHalf)
    } else {
        None
    }
}

/// What `from_short` answers to a letter that selects no mode.
pub const POSSIBLE_MODES: &'static str = "possible values: a, c, p, h";

impl TerminalMode {
    /// The mode that a letter selects: `a`, `c`, `p` or `h`.
    pub fn from_short(short: &str) -> (result: Result<TerminalMode, String>)
        ensures
            match result {
                Ok(mode) => mode_named(short@) == Some(mode),
                Err(message) => mode_named(short@) is None && message@ == POSSIBLE_MODES@,
            },
    {
        if same_text(short, "a") {
            Ok(TerminalMode::Ascii)
        } else if same_text(short, "c") {
            Ok(TerminalMode::ColoredAscii)
        } else if same_text(short, "p") {
            Ok(TerminalMode::Pixels)
        } else if same_text(short, "h") {
            Ok(TerminalMode::HorizontalHalf)
        } else {
            Err(String::from_str(POSSIBLE_MODES))
        }
    }
}

/// A character with the ANSI code `code` in front of it and a reset behind
/// it.
pub open spec fn ansi_text(code: nat, ch: char) -> Seq<char> {
    ANSIOPEN@ + decimal(code) + seq!['m', ch] + ANSIRESET@
}

/// The first half of a character with two ANSI codes in front of it: up to
/// the semicolon between the codes.
pub open spec fn half_ansi_head(fg: nat) -> Seq<char> {
    ANSIOPEN@ + decimal(fg) + seq![';']
}

/// The second half of a character with two ANSI codes in front of it: from
/// the second code on.
pub open spec fn half_ansi_tail(bg: nat, ch: char) -> Seq<char> {
    decimal(bg) + seq!['m', ch] + ANSIRESET@
}

/// The text that stands for each index of an image in a given mode, made
/// of the characters and colours of a palette.
pub open spec fn terminal_entries(mode: TerminalMode, chars: Seq<char>, colors: Seq<Color>) -> Seq<
    Seq<char>,
> {
    match mode {
        TerminalMode::Ascii => Seq::new(chars.len(), |i: int| seq![chars[i]]),
        TerminalMode::ColoredAscii => Seq::new(
            if chars.len() <= colors.len() {
                chars.len()
            } else {
                colors.len()
            },
            |i: int| ansi_text(colors[i].spec_ansi_fg() as nat, chars[i]),
        ),
        TerminalMode::Pixels => Seq::new(
            colors.len(),
            |i: int| ansi_text((colors[i].spec_ansi_fg() + 10) as nat, ' '),
        ),
        TerminalMode::HorizontalHalf => half_entries(colors, LEFT_HALF_BLOCK),
        TerminalMode::VerticalHalf => half_entries(colors, UPPER_HALF_BLOCK),
    }
}

/// Two entries for each colour: the head and the tail of the half block
/// `ch` in that colour on that colour.
pub open spec fn half_entries(colors: Seq<Color>, ch: char) -> Seq<Seq<char>> {
    Seq::new(
        2 * colors.len(),
        |k: int|
            if k % 2 == 0 {
                half_ansi_head(colors[k / 2].spec_ansi_fg() as nat)
            } else {
                half_ansi_tail((colors[k / 2].spec_ansi_fg() + 10) as nat, ch)
            },
    )
}

/// The entry of a palette that stands for the cell in column `column`
/// with the index `index`: in the mode of left and right half blocks the
/// columns take turns between the two entries of a colour.
pub open spec fn entry_index(mode: TerminalMode, index: nat, column: nat) -> nat {
    if mode == TerminalMode::HorizontalHalf {
        index * 2 + column % 2
    } else {
        index
    }
}

/// The text of the first `upto` cells of a row.
pub open spec fn row_text(
    entries: Seq<Seq<char>>,
    mode: TerminalMode,
    row: Seq<u8>,
    upto: nat,
) -> Seq<char>
    decreases upto,
{
    if upto == 0 {
        Seq::empty()
    } else {
        row_text(entries, mode, row, (upto - 1) as nat) + entries[entry_index(
            mode,
            row[upto - 1] as nat,
            (upto - 1) as nat,
        ) as int]
    }
}

/// The text of the first `upto` rows of an image, with a line feed between
/// one row and the next.
pub open spec fn rows_text(
    entries: Seq<Seq<char>>,
    mode: TerminalMode,
    rows: Seq<Seq<u8>>,
    upto: nat,
) -> Seq<char>
    decreases upto,
{
    if upto == 0 {
        Seq::empty()
    } else if upto == 1 {
        row_text(entries, mode, rows[0], rows[0].len())
    } else {
        rows_text(entries, mode, rows, (upto - 1) as nat) + seq!['\n'] + row_text(
            entries,
            mode,
            rows[upto - 1],
            rows[upto - 1].len(),
        )
    }
}

/// Whether a palette has an entry for every cell of an image.
pub open spec fn covers(entries: Seq<Seq<char>>, mode: TerminalMode, rows: Seq<Seq<u8>>) -> bool {
    forall|r: int, c: int|
        0 <= r < rows.len() && 0 <= c < rows[r].len() ==> entry_index(
            mode,
            #[trigger] rows[r][c] as nat,
            c as nat,
        ) < entries.len()
}

/// The text that stands for each index of an image on a terminal.
#[allow(dead_code)]
pub struct TerminalPalette {
    pub mode: TerminalMode,
    pub terminal: Vec<String>,
}

impl TerminalPalette {
    /// The entries of the palette as sequences of characters.
    pub open spec fn entries(&self) -> Seq<Seq<char>> {
        Seq::new(self.terminal@.len(), |i: int| self.terminal@[i]@)
    }

    /// Makes the palette of a mode from characters and colours. Without
    /// characters of the caller's, those of the 16-colour formats are
    /// used.
    pub fn new(mode: TerminalMode, chars: Option<&str>, colors: ColorPalette) -> (palette: Self)
        ensures
            palette.mode == mode,
            palette.entries() == terminal_entries(
                mode,
                match chars {
                    Some(text) => text@,
                    None => spec_ega_chars(),
                },
                colors@,
            ),
    {
        let chars: Vec<char> = match chars {
            Some(text) => chars_of(text),
            None => ega_char_palette(),
        };
        let mut term: Vec<String> = Vec::new();
        match mode {
            TerminalMode::Ascii => {
                let mut i: usize = 0;
                while i < chars.len()
                    invariant
                        i <= chars@.len(),
                        term@.len() == i,
                        forall|j: int| 0 <= j < i ==> (#[trigger] term@[j])@ == seq![chars@[j]],
                    decreases chars@.len() - i,
                {
                    let mut entry: String = String::new();
                    entry.push(chars[i]);
                    assert(entry@ =~= seq![chars@[i as int]]);
                    term.push(entry);
                    i += 1;
                }
            },
            TerminalMode::ColoredAscii => {
                let mut i: usize = 0;
                while i < chars.len() && i < colors.len()
                    invariant
                        i <= chars@.len(),
                        i <= colors@.len(),
                        term@.len() == i,
                        forall|j: int|
                            0 <= j < i ==> (#[trigger] term@[j])@ == ansi_text(
                                colors@[j].spec_ansi_fg() as nat,
                                chars@[j],
                            ),
                    decreases chars@.len() - i,
                {
                    term.push(Self::ansi_codes(colors[i].ansi_fg(), chars[i]));
                    i += 1;
                }
            },
            TerminalMode::Pixels => {
                let mut i: usize = 0;
                while i < colors.len()
                    invariant
                        i <= colors@.len(),
                        term@.len() == i,
                        forall|j: int|
                            0 <= j < i ==> (#[trigger] term@[j])@ == ansi_text(
                                (colors@[j].spec_ansi_fg() + 10) as nat,
                                ' ',
                            ),
                    decreases colors@.len() - i,
                {
                    term.push(Self::ansi_codes(colors[i].ansi_bg(), ' '));
                    i += 1;
                }
            },
            TerminalMode::HorizontalHalf => {
                term = Self::half_palette(&colors, LEFT_HALF_BLOCK);
            },
            TerminalMode::VerticalHalf => {
                term = Self::half_palette(&colors, UPPER_HALF_BLOCK);
            },
        }
        let palette = Self { mode: mode, terminal: term };
        assert(palette.entries() =~= terminal_entries(
            mode,
            chars@,
            colors@,
        ));
        palette
    }

    /// The entries of a mode of half blocks: two for each colour.
    fn half_palette(colors: &ColorPalette, ch: char) -> (term: Vec<String>)
        ensures
            Seq::new(term@.len(), |i: int| term@[i]@) == half_entries(colors@, ch),
    {
        let mut term: Vec<String> = Vec::new();
        let mut i: usize = 0;
        while i < colors.len()
            invariant
                i <= colors@.len(),
                term@.len() == 2 * i,
                forall|k: int|
                    0 <= k < 2 * i ==> (#[trigger] term@[k])@ == half_entries(colors@, ch)[k],
            decreases colors@.len() - i,
        {
            let halves: [String; 2] = Self::half_ansi_codes(
                colors[i].ansi_fg(),
                colors[i].ansi_bg(),
                ch,
            );
            term.push(halves[0].clone());
            term.push(halves[1].clone());
            i += 1;
        }
        assert(Seq::new(term@.len(), |i: int| term@[i]@) =~= half_entries(colors@, ch));
        term
    }

    /// A character with two ANSI codes in front of it and a reset behind
    /// it, cut in two behind the semicolon between the codes.
    pub fn half_ansi_codes(fg: u8, bg: u8, ch: char) -> (halves: [String; 2])
        ensures
            halves[0]@ == half_ansi_head(fg as nat),
            halves[1]@ == half_ansi_tail(bg as nat, ch),
    {
        let mut head: String = String::from_str(ANSIOPEN);
        push_number(&mut head, fg as u64);
        head.push(';');
        let mut tail: String = String::new();
        push_number(&mut tail, bg as u64);
        tail.push('m');
        tail.push(ch);
        tail.append(ANSIRESET);
        assert(head@ =~= half_ansi_head(fg as nat));
        assert(tail@ =~= half_ansi_tail(bg as nat, ch));
        [head, tail]
    }

    /// A character with the ANSI code `co` in front of it and a reset
    /// behind it.
    pub fn ansi_codes(co: u8, ch: char) -> (text: String)
        ensures
            text@ == ansi_text(co as nat, ch),
    {
        let mut text: String = String::from_str(ANSIOPEN);
        push_number(&mut text, co as u64);
        text.push('m');
        text.push(ch);
        text.append(ANSIRESET);
        assert(text@ =~= ansi_text(co as nat, ch));
        text
    }

    /// Whether the palette has an entry for every cell of an image.
    pub fn covers_image(&self, image_data: &Vec<Vec<u8>>) -> (covered: bool)
        ensures
            covered == covers(self.entries(), self.mode, crate::grid::grid_view(*image_data)),
    {
        let ghost rows = crate::grid::grid_view(*image_data);
        let ghost entries = self.entries();
        let entry_count: usize = self.terminal.len();
        let mut r: usize = 0;
        while r < image_data.len()
            invariant
                r <= image_data@.len(),
                rows == crate::grid::grid_view(*image_data),
                entries == self.entries(),
                entry_count == entries.len(),
                forall|q: int, c: int|
                    0 <= q < r && 0 <= c < rows[q].len() ==> entry_index(
                        self.mode,
                        #[trigger] rows[q][c] as nat,
                        c as nat,
                    ) < entries.len(),
            decreases image_data@.len() - r,
        {
            let row: &Vec<u8> = &image_data[r];
            let mut c: usize = 0;
            while c < row.len()
                invariant
                    c <= row@.len(),
                    r < rows.len(),
                    rows == crate::grid::grid_view(*image_data),
                    entries == self.entries(),
                    entry_count == entries.len(),
                    row@ == rows[r as int],
                    forall|d: int|
                        0 <= d < c ==> entry_index(self.mode, #[trigger] row@[d] as nat, d as nat)
                            < entries.len(),
                decreases row@.len() - c,
            {
                let index: usize = row[c] as usize;
                let fits: bool = match self.mode {
                    TerminalMode::HorizontalHalf => index * 2 + c % 2 < entry_count,
                    _ => index < entry_count,
                };
                if !fits {
                    assert(!(entry_index(self.mode, rows[r as int][c as int] as nat, c as nat)
                        < entries.len()));
                    assert(!covers(entries, self.mode, rows));
                    return false;
                }
                c += 1;
            }
            r += 1;
        }
        true
    }

    /// The image as text: line wrapping switched off, the rows with a line
    /// feed between one and the next, each cell as its entry of the
    /// palette, and line wrapping switched on again. The palette must have
    /// an entry for every cell.
    pub fn output_image_string(&self, image_data: Vec<Vec<u8>>) -> (text: String)
        requires
            covers(self.entries(), self.mode, crate::grid::grid_view(image_data)),
        ensures
            text@ == DISABLEWRAPPING@ + rows_text(
                self.entries(),
                self.mode,
                crate::grid::grid_view(image_data),
                image_data@.len() as nat,
            ) + ENABLEWRAPPING@,
    {
        let ghost rows = crate::grid::grid_view(image_data);
        let ghost entries = self.entries();
        let mut buffer: String = String::from_str(DISABLEWRAPPING);
        let mut r: usize = 0;
        while r < image_data.len()
            invariant
                r <= image_data@.len(),
                rows == crate::grid::grid_view(image_data),
                entries == self.entries(),
                covers(entries, self.mode, rows),
                buffer@ == DISABLEWRAPPING@ + rows_text(entries, self.mode, rows, r as nat),
            decreases image_data@.len() - r,
        {
            if r > 0 {
                buffer.push('\n');
            }
            let ghost before = buffer@;
            let row: &Vec<u8> = &image_data[r];
            let mut c: usize = 0;
            while c < row.len()
                invariant
                    c <= row@.len(),
                    r < rows.len(),
                    row@ == rows[r as int],
                    entries == self.entries(),
                    covers(entries, self.mode, rows),
                    buffer@ == before + row_text(entries, self.mode, row@, c as nat),
                decreases row@.len() - c,
            {
                let index: usize = row[c] as usize;
                assert(entry_index(self.mode, rows[r as int][c as int] as nat, c as nat)
                    < entries.len());
                let ind: usize = match self.mode {
                    TerminalMode::HorizontalHalf => Self::hhalf_adjusted_index(index, c),
                    _ => index,
                };
                buffer.append(self.terminal[ind].as_str());
                assert(buffer@ =~= before + row_text(entries, self.mode, row@, (c + 1) as nat));
                c += 1;
            }
            assert(buffer@ =~= DISABLEWRAPPING@ + rows_text(entries, self.mode, rows, (r + 1) as nat));
            r += 1;
        }
        buffer.append(ENABLEWRAPPING);
        buffer
    }

    /// The entry for the cell in column `i` with the index `index` in the
    /// mode of left and right half blocks.
    pub fn hhalf_adjusted_index(index: usize, i: usize) -> (entry: usize)
        requires
            index * 2 + 1 <= usize::MAX,
        ensures
            entry == entry_index(TerminalMode::HorizontalHalf, index as nat, i as nat),
    {
        (index * 2) + (i % 2)
    }
}

} // verus!
