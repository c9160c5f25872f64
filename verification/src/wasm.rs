//! What a page in a browser shows of an uploaded file: the file as a PNG
//! image in a data URL, and previews of it at other widths.

use crate::color::palette::{cga0, palette_of, spec_cga0};
use crate::file_data::Raw;
use crate::grid::{grid_view, is_grid};
use crate::image::Image;
use crate::parser::{decode_cga, DecodeError, ParserType};
use crate::png::{can_convert, convertible, png_file, write_to};
use crate::RawGrid;
use base64::engine::general_purpose::STANDARD;
use base64::Engine;
use vstd::prelude::*;

verus! {

/// A file that was uploaded.
#[derive(Clone, PartialEq)]
pub struct FileUpload {
    pub name: String,
    pub mime_type: String,
    pub data: Vec<u8>,
}

/// The view of one uploaded file, at the width that was chosen for it.
pub struct ImageComponent {
    width: usize,
}

/// What every data URL of this module starts with.
pub const DATA_URL_PREFIX: &'static str = "data:application/png;base64,";

/// The width that a file is shown at until another is chosen.
pub const DEFAULT_WIDTH: usize = 320;

/// Why a file has no image to show.
#[derive(Debug, Clone, Copy, PartialEq, Eq, Structural)]
pub enum SrcError {
    /// The file does not decode at the chosen width.
    Decode(DecodeError),
    /// The bytes to show are more than a data URL can be made of.
    TooLarge,
}

/// The base64 text of some bytes, in the standard alphabet and with
/// padding, as the `base64` crate writes it.
pub uninterp spec fn base64_text(data: Seq<u8>) -> Seq<char>;

/// Whether `needle` stands somewhere in `haystack`.
pub open spec fn has_text(haystack: Seq<char>, needle: Seq<char>) -> bool {
    exists|i: int|
        0 <= i <= haystack.len() - needle.len() && #[trigger] haystack.subrange(
            i,
            i + needle.len(),
        ) == needle
}

/// The data URL of some bytes.
pub open spec fn data_url_text(data: Seq<u8>) -> Seq<char> {
    DATA_URL_PREFIX@ + base64_text(data)
}

/// The PNG file that shows a grid in CGA palette 0, where the codec makes
/// one.
pub open spec fn cga_png(rows: Seq<Seq<u8>>) -> Option<Seq<u8>> {
    png_file(rows, spec_cga0())
}

/// The bytes that are shown for a grid: those of its PNG file in CGA
/// palette 0. They are none where the grid cannot be shown as a raster in
/// that palette (it has no pixels, its sides or its pixels cannot be
/// counted, or it has an index above 3), and where the codec makes no
/// file of the raster.
pub open spec fn shown_png(rows: Seq<Seq<u8>>) -> Seq<u8> {
    if can_convert(rows, spec_cga0()) {
        match cga_png(rows) {
            Some(file) => file,
            None => Seq::empty(),
        }
    } else {
        Seq::empty()
    }
}

/// What is shown for a grid: the data URL of the bytes that are shown for
/// it.
pub open spec fn shows(url: Seq<char>, rows: Seq<Seq<u8>>) -> bool {
    url == data_url_text(shown_png(rows))
}

/// The previews of a file at the first `upto` of some widths, in the order
/// of the widths: for each width at which the file decodes in the packed
/// 4-colour format, the width and the data URL of what is shown for the
/// grid, unless the bytes to show are more than a data URL can be made of.
pub open spec fn preview_entries(data: Seq<u8>, widths: Seq<i64>, upto: nat) -> Seq<
    (usize, Seq<char>),
>
    decreases upto,
{
    if upto == 0 {
        Seq::empty()
    } else {
        let before = preview_entries(data, widths, (upto - 1) as nat);
        let width = widths[upto - 1];
        match decode_cga(data, width as nat) {
            Ok(rows) => if shown_png(rows).len() <= usize::MAX / 2 {
                before.push((width as usize, data_url_text(shown_png(rows))))
            } else {
                before
            },
            Err(_) => before,
        }
    }
}

/// The previews of a file: none for a file whose type has `image` in its
/// name; for every other file those at the widths from 5 to 80 that
/// divide the number of its pixels in the packed 4-colour format, in
/// rising order.
pub open spec fn previews_of(mime_type: Seq<char>, data: Seq<u8>) -> Seq<(usize, Seq<char>)> {
    if has_text(mime_type, "image"@) {
        Seq::empty()
    } else {
        let widths = crate::divisor_list((data.len() * 4) as int, 5, 80);
        preview_entries(data, widths, widths.len())
    }
}

/// A list of previews with each data URL as a sequence of characters.
pub open spec fn entries_view(list: Seq<(usize, String)>) -> Seq<(usize, Seq<char>)> {
    Seq::new(list.len(), |i: int| (list[i].0, list[i].1@))
}

/// What is shown for a file in the packed 4-colour format at a width at
/// which it decodes.
pub open spec fn shows_decoded(url: Seq<char>, data: Seq<u8>, width: nat) -> bool {
    decode_cga(data, width) matches Ok(rows) && shows(url, rows)
}

/// Encodes bytes with `Engine::encode` of the `STANDARD` engine of the
/// `base64` crate, which fails only where the length of the text cannot be
/// counted.
#[verifier::external_body]
fn encode_base64(data: &[u8]) -> (text: String)
    requires
        data@.len() <= usize::MAX / 2,
    ensures
        text@ == base64_text(data@),
{
    STANDARD.encode(data)
}

/// `str::contains` with a string as the pattern: whether the pattern
/// matches a part of the string.
#[verifier::external_body]
fn contains_text(haystack: &str, needle: &str) -> (found: bool)
    ensures
        found == has_text(haystack@, needle@),
{
    haystack.contains(needle)
}

/// The data URL of some bytes, unless they are too many.
pub fn data_url(data: &[u8]) -> (url: Option<String>)
    ensures
        match url {
            Some(text) => data@.len() <= usize::MAX / 2 && text@ == data_url_text(data@),
            None => data@.len() > usize::MAX / 2,
        },
{
    if data.len() <= usize::MAX / 2 {
        Some(String::from_str(DATA_URL_PREFIX).concat(encode_base64(data).as_str()))
    } else {
        None
    }
}

/// The bytes of the PNG file that shows an image in CGA palette 0. They
/// are empty where the image has no pixels, where its sides or its pixels
/// cannot be counted, where it has an index above 3, and where the codec
/// refuses it.
pub fn png_of(image_data: RawGrid) -> (bytes: Vec<u8>)
    requires
        image_data@.len() > 0 ==> is_grid(grid_view(image_data), grid_view(image_data)[0].len()),
    ensures
        bytes@ == shown_png(grid_view(image_data)),
{
    let mut bytes: Vec<u8> = Vec::new();
    let palette: Vec<crate::color::Color> = palette_of(cga0());
    if !convertible(&image_data, &palette) {
        assert(bytes@ =~= shown_png(grid_view(image_data)));
        return bytes;
    }
    let _ = write_to(&mut bytes, image_data, palette);
    assert(bytes@ =~= shown_png(grid_view(image_data)));
    bytes
}

impl ImageComponent {
    /// The view of a file at the default width.
    pub fn create() -> (component: Self)
        ensures
            component.spec_width() == DEFAULT_WIDTH,
    {
        Self { width: DEFAULT_WIDTH }
    }

    pub closed spec fn spec_width(&self) -> usize {
        self.width
    }

    pub fn width(&self) -> (width: usize)
        ensures
            width == self.spec_width(),
    {
        self.width
    }

    /// Chooses another width.
    pub fn set_width(&mut self, width: usize)
        ensures
            final(self).spec_width() == width,
    {
        self.width = width;
    }

    /// The data URL that shows a file. A file whose type has `image` in
    /// its name is shown as it is. Every other file is decoded in the
    /// packed 4-colour format at the chosen width and shown as a PNG file
    /// in CGA palette 0. The pixels of the file must be countable.
    pub fn src(&self, file: &FileUpload) -> (result: Result<String, SrcError>)
        requires
            file.data@.len() * 4 <= usize::MAX,
        ensures
            match result {
                Ok(url) => if has_text(file.mime_type@, "image"@) {
                    url@ == data_url_text(file.data@)
                } else {
                    shows_decoded(url@, file.data@, self.spec_width() as nat)
                },
                Err(SrcError::Decode(e)) => !has_text(file.mime_type@, "image"@) && decode_cga(
                    file.data@,
                    self.spec_width() as nat,
                ) == Err::<Seq<Seq<u8>>, DecodeError>(e),
                Err(SrcError::TooLarge) => has_text(file.mime_type@, "image"@) ==> file.data@.len()
                    > usize::MAX / 2,
            },
            has_text(file.mime_type@, "image"@) && file.data@.len() <= usize::MAX / 2
                ==> result is Ok,
    {
        if contains_text(file.mime_type.as_str(), "image") {
            match data_url(file.data.as_slice()) {
                Some(url) => Ok(url),
                None => Err(SrcError::TooLarge),
            }
        } else {
            match Raw::new(file.data.as_slice()).parse(ParserType::CGA, self.width) {
                Ok(image) => {
                    let bytes: Vec<u8> = Self::png_of_image(&image);
                    match data_url(bytes.as_slice()) {
                        Some(url) => Ok(url),
                        None => Err(SrcError::TooLarge),
                    }
                },
                Err(e) => Err(SrcError::Decode(e)),
            }
        }
    }

    /// The bytes of the PNG file that shows an image in CGA palette 0, or
    /// no bytes where there is no such file.
    fn png_of_image(image: &Image) -> (bytes: Vec<u8>)
        ensures
            bytes@ == shown_png(image@),
    {
        if image.height() == 0 {
            let bytes: Vec<u8> = Vec::new();
            assert(bytes@ =~= shown_png(image@));
            bytes
        } else {
            let _ = image.width();
            png_of(image.data())
        }
    }

    /// The previews of a file: for each width from 5 to 80 at which its
    /// bytes fill whole rows in the packed 4-colour format, in rising
    /// order, that width and the data URL that shows the file at it. A
    /// width is left out where the bytes to show are more than a data URL
    /// can be made of. A file whose type has `image` in its name has no
    /// previews. The pixels of the file must be countable, also as a
    /// signed number of 64 bits.
    pub fn previews(&self, file: &FileUpload) -> (list: Vec<(usize, String)>)
        requires
            file.data@.len() * 4 <= usize::MAX,
            file.data@.len() * 4 <= i64::MAX,
        ensures
            entries_view(list@) == previews_of(file.mime_type@, file.data@),
    {
        let mut list: Vec<(usize, String)> = Vec::new();
        if contains_text(file.mime_type.as_str(), "image") {
            assert(entries_view(list@) =~= previews_of(file.mime_type@, file.data@));
            return list;
        }
        let raw: Raw = Raw::new(file.data.as_slice());
        let images: Vec<Image> = raw.previews();
        let ghost widths = crate::divisor_list((file.data@.len() * 4) as int, 5, 80);
        assert(entries_view(list@) =~= preview_entries(file.data@, widths, 0));
        let mut i: usize = 0;
        while i < images.len()
            invariant
                i <= images@.len(),
                images@.len() == widths.len(),
                crate::is_divisor_list(widths, (file.data@.len() * 4) as int, 5, 80),
                forall|j: int|
                    0 <= j < images@.len() ==> decode_cga(file.data@, widths[j] as nat) == Ok::<
                        Seq<Seq<u8>>,
                        DecodeError,
                    >((#[trigger] images@[j])@),
                forall|j: int| 0 <= j < images@.len() ==> (#[trigger] images@[j])@.len() > 0,
                entries_view(list@) == preview_entries(file.data@, widths, i as nat),
            decreases images@.len() - i,
        {
            let image: &Image = &images[i];
            let ghost before = list@;
            proof {
                let w = widths[i as int];
                assert(crate::divisor_in(w as int, (file.data@.len() * 4) as int, 5, 80));
                assert(decode_cga(file.data@, w as nat) == Ok::<Seq<Seq<u8>>, DecodeError>(
                    images@[i as int]@,
                ));
                crate::parser::lemma_decode_cga_grid(file.data@, w as nat);
                assert(image@.len() > 0);
                assert(image@[0].len() == w);
            }
            if image.height() > 0 {
                let width: usize = image.width();
                let bytes: Vec<u8> = Self::png_of_image(image);
                match data_url(bytes.as_slice()) {
                    Some(url) => {
                        let ghost text = url@;
                        list.push((width, url));
                        assert(entries_view(list@) =~= entries_view(before).push((width, text)));
                    },
                    None => {},
                }
            }
            i += 1;
        }
        list
    }
}

} // verus!
