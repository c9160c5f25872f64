//! Checks on what is given on the command line.

use crate::terminal::TerminalMode;
use crate::ImageType;
use vstd::prelude::*;
use vstd::string::StringSliceAdditionalSpecFns;

verus! {

/// What was asked for on the command line.
#[derive(Debug, Clone)]
pub struct Args {
    /// The path of the raw image file.
    pub image: String,
    /// The mode of the preview on the terminal, if one is wanted.
    pub ascii_preview: Option<TerminalMode>,
    /// The name of the palette.
    pub palette: Option<String>,
    /// The name of the format of the file.
    pub image_parser: String,
    /// The characters that stand for the indices in the preview.
    pub custom_ascii: Option<String>,
    /// The width of the image, in pixels.
    pub width: usize,
    /// The width that the mosaic of tiles may have.
    pub max_width: Option<usize>,
    /// The path of the PNG file to write.
    pub output_file: Option<String>,
    /// The path of the file to write in the packed 4-colour format.
    pub ga_file: Option<String>,
    /// The height of the tiles that the image holds.
    pub tile_height: Option<usize>,
    /// Whether to show the image in a window.
    pub sdl: bool,
    /// Whether to keep hints back.
    pub quiet: bool,
}

/// The name of the palette to show an image in: `ega` for a 16-colour
/// image, whatever was asked for; else the palette asked for; else `cga1`.
pub open spec fn chosen_palette(image_type: ImageType, palette: Option<Seq<char>>) -> Seq<char> {
    if image_type == ImageType::EGA {
        "ega"@
    } else {
        match palette {
            Some(name) => name,
            None => "cga1"@,
        }
    }
}

impl Args {
    /// The name of the palette to show an image of the given colour depth
    /// in.
    pub fn palette_name(&self, image_type: ImageType) -> (name: String)
        ensures
            name@ == chosen_palette(
                image_type,
                match self.palette {
                    Some(name) => Some(name@),
                    None => None,
                },
            ),
    {
        match image_type {
            ImageType::EGA => String::from_str("ega"),
            ImageType::CGA => match &self.palette {
                Some(name) => name.clone(),
                None => String::from_str("cga1"),
            },
        }
    }

    /// Whether hints on the width and the tile height are wanted: unless
    /// they are kept back, or the image is re-tiled already.
    pub fn wants_suggestions(&self) -> (wanted: bool)
        ensures
            wanted == (!self.quiet && self.tile_height is None),
    {
        !self.quiet && self.tile_height.is_none()
    }
}

/// What `parse_asci_param` answers to a string of another length.
pub const CUSTOM_ASCII_HELP: &'static str =
    "requires a 4 or 16 character string like: -a \" +%0\"";

/// Whether a string is as long, in bytes, as a palette of characters may
/// be: empty, or 4 or 16 bytes.
pub open spec fn palette_length(arg: &str) -> bool {
    arg.spec_bytes().len() == 0 || arg.spec_bytes().len() == 4 || arg.spec_bytes().len() == 16
}

/// Accepts the characters that stand for the indices of an image: none,
/// or as many bytes as a 4-colour or a 16-colour palette has entries.
pub fn parse_asci_param(arg: &str) -> (result: Result<String, String>)
    ensures
        match result {
            Ok(chars) => chars@ == arg@ && palette_length(arg),
            Err(message) => message@ == CUSTOM_ASCII_HELP@ && !palette_length(arg),
        },
{
    let n: usize = arg.as_bytes().len();
    if n == 0 || n == 4 || n == 16 {
        Ok(String::from_str(arg))
    } else {
        Err(String::from_str(CUSTOM_ASCII_HELP))
    }
}

} // verus!
