//! Images as 24-bit rasters, and rasters as PNG files in memory.

use crate::color::palette::ColorPalette;
use crate::color::Color;
use crate::grid::{chunked, grid_view, is_grid, lemma_flatten_grid, within_palette};
use crate::parser::{flatten_rows, split_rows};
use crate::RawGrid;
use image::io::Reader;
use image::{ImageFormat, RgbImage};
use std::io::Cursor;
use vstd::prelude::*;

verus! {

/// The error type of the `image` crate.
#[verifier::external_type_specification]
#[verifier::external_body]
pub struct ExImageError(image::ImageError);

/// Why a PNG file could not be written or read.
#[derive(Debug, Clone, PartialEq, Eq)]
pub struct PngError {
    /// What the PNG codec said.
    pub message: String,
}

/// What `process_input` says of a PNG file without pixels.
pub const NO_PIXELS: &'static str = "the image has no pixels";

/// An image of 24-bit pixels: `width * height` of them, row after row, each
/// as its red, green and blue byte.
#[derive(Debug, Clone, PartialEq, Eq)]
pub struct Raster {
    pub width: u32,
    pub height: u32,
    pub pixels: Vec<u8>,
}

impl Raster {
    /// The raster holds three bytes for each of its pixels.
    pub open spec fn wf(&self) -> bool {
        self.pixels@.len() == 3 * (self.width * self.height)
    }
}

/// The bytes of the pixels that a stream of palette indices stands for:
/// for each index the red, green and blue byte of its colour.
pub open spec fn rgb_bytes(cells: Seq<u8>, palette: Seq<Color>) -> Seq<u8> {
    Seq::new(3 * cells.len(), |k: int| palette[cells[k / 3] as int].spec_channels()[k % 3])
}

/// The index that a pixel of a PNG file stands for: 0 for black, 1 for
/// bright cyan, 2 for bright magenta, 3 for white, and 4 for every other
/// colour.
pub open spec fn index_of_rgb(red: u8, green: u8, blue: u8) -> u8 {
    if red == 0 && green == 0 && blue == 0 {
        0
    } else if red == 85 && green == 255 && blue == 255 {
        1
    } else if red == 255 && green == 85 && blue == 255 {
        2
    } else if red == 255 && green == 255 && blue == 255 {
        3
    } else {
        4
    }
}

/// The palette indices that the pixels of a raster stand for, in stream
/// order.
pub open spec fn indices_of_rgb(pixels: Seq<u8>) -> Seq<u8> {
    Seq::new(
        pixels.len() / 3,
        |i: int| index_of_rgb(pixels[3 * i], pixels[3 * i + 1], pixels[3 * i + 2]),
    )
}

/// Whether a grid can be shown with a palette as a raster: it has a row of
/// at least one cell, it is rectangular, its sides fit in 32 bits, the
/// bytes of its pixels can be counted, and every cell has a colour.
pub open spec fn can_convert(rows: Seq<Seq<u8>>, palette: Seq<Color>) -> bool {
    &&& rows.len() > 0
    &&& is_grid(rows, rows[0].len())
    &&& rows.len() <= u32::MAX
    &&& rows[0].len() <= u32::MAX
    &&& 3 * (rows.len() * rows[0].len()) <= usize::MAX
    &&& within_palette(rows, palette.len())
}

/// What the `image` crate makes of a raster when it is asked for a PNG
/// file: the bytes of the file, or nothing where its codec refuses the
/// raster.
pub uninterp spec fn png_encoding(width: u32, height: u32, pixels: Seq<u8>) -> Option<Seq<u8>>;

/// What the `image` crate makes of the bytes of a PNG file: the raster as
/// its width, its height and the bytes of its pixels, or nothing where its
/// codec refuses the bytes.
pub uninterp spec fn png_decoding(buffer: Seq<u8>) -> Option<(u32, u32, Seq<u8>)>;

/// The PNG file that shows a grid with a palette, where the codec makes
/// one of the raster of the grid.
pub open spec fn png_file(rows: Seq<Seq<u8>>, palette: Seq<Color>) -> Option<Seq<u8>> {
    png_encoding(rows[0].len() as u32, rows.len() as u32, rgb_bytes(rows.flatten(), palette))
}

/// The grid of palette indices that the bytes of a PNG file stand for,
/// where the codec reads a raster from them and the raster has pixels.
pub open spec fn png_grid(buffer: Seq<u8>) -> Option<Seq<Seq<u8>>> {
    match png_decoding(buffer) {
        Some(raster) => if raster.0 > 0 {
            Some(chunked(indices_of_rgb(raster.2), raster.0 as nat))
        } else {
            None
        },
        None => None,
    }
}

/// Writes a raster as a PNG file through the `image` crate: the bytes of
/// `ImageBuffer::write_to` with `ImageFormat::Png` on the image that
/// `ImageBuffer::from_raw` makes of the raster. The codec writes into
/// memory and takes nothing but the raster, so what it makes of a raster,
/// a file or an error, is the same each time.
#[verifier::external_body]
fn encode_png(raster: Raster) -> (result: Result<Vec<u8>, image::ImageError>)
    requires
        raster.wf(),
    ensures
        match result {
            Ok(bytes) => png_encoding(raster.width, raster.height, raster.pixels@) == Some(
                bytes@,
            ),
            Err(_) => png_encoding(raster.width, raster.height, raster.pixels@) is None,
        },
{
    let mut bytes: Vec<u8> = Vec::new();
    RgbImage::from_raw(raster.width, raster.height, raster.pixels)
        .expect("a raster holds three bytes for each pixel")
        .write_to(&mut Cursor::new(&mut bytes), ImageFormat::Png)?;
    Ok(bytes)
}

/// Reads a PNG file through the `image` crate: `Reader::decode` with the
/// format set to PNG and the limits that the crate sets by itself, and the
/// image as 8-bit RGB. The codec reads from memory and takes nothing but
/// the bytes, so what it makes of them, a raster or an error, is the same
/// each time. A raster that it gives holds three bytes for each pixel.
#[verifier::external_body]
fn decode_png(buffer: &[u8]) -> (result: Result<Raster, image::ImageError>)
    ensures
        match result {
            Ok(raster) => raster.wf() && png_decoding(buffer@) == Some(
                (raster.width, raster.height, raster.pixels@),
            ),
            Err(_) => png_decoding(buffer@) is None,
        },
{
    let mut reader = Reader::new(Cursor::new(buffer));
    reader.set_format(ImageFormat::Png);
    let image: RgbImage = reader.decode()?.to_rgb8();
    Ok(Raster { width: image.width(), height: image.height(), pixels: image.into_raw() })
}

/// What the `image` crate says of an error, in words.
#[verifier::external_body]
fn error_message(error: &image::ImageError) -> (message: String) {
    error.to_string()
}

/// Whether every cell of a grid is below `limit`.
pub fn all_below(image_data: &RawGrid, limit: usize) -> (all: bool)
    ensures
        all == within_palette(grid_view(*image_data), limit as nat),
{
    let ghost rows = grid_view(*image_data);
    let mut r: usize = 0;
    while r < image_data.len()
        invariant
            r <= image_data@.len(),
            rows == grid_view(*image_data),
            forall|q: int, c: int|
                0 <= q < r && 0 <= c < rows[q].len() ==> (#[trigger] rows[q][c]) < limit,
        decreases image_data@.len() - r,
    {
        let row: &Vec<u8> = &image_data[r];
        let mut c: usize = 0;
        while c < row.len()
            invariant
                c <= row@.len(),
                r < rows.len(),
                rows == grid_view(*image_data),
                row@ == rows[r as int],
                forall|d: int| 0 <= d < c ==> row@[d] < limit,
            decreases row@.len() - c,
        {
            if row[c] as usize >= limit {
                assert(!(rows[r as int][c as int] < limit));
                assert(!within_palette(rows, limit as nat));
                return false;
            }
            c += 1;
        }
        r += 1;
    }
    true
}

/// Whether a grid can be shown with a palette as a raster.
pub fn convertible(image_data: &RawGrid, palette: &ColorPalette) -> (fits: bool)
    requires
        image_data@.len() > 0 ==> is_grid(grid_view(*image_data), grid_view(*image_data)[0].len()),
    ensures
        fits == can_convert(grid_view(*image_data), palette@),
{
    let height: usize = image_data.len();
    if height == 0 || height > u32::MAX as usize {
        return false;
    }
    let width: usize = image_data[0].len();
    if width > u32::MAX as usize {
        return false;
    }
    let countable: bool = match height.checked_mul(width) {
        Some(pixels) => pixels <= usize::MAX / 3,
        None => false,
    };
    countable && all_below(image_data, palette.len())
}

/// The palette indices that the pixels of a raster stand for, row after
/// row.
pub fn palette_indices_of(raster: &Raster) -> (grid: RawGrid)
    requires
        raster.wf(),
        raster.width > 0,
    ensures
        grid_view(grid) == chunked(indices_of_rgb(raster.pixels@), raster.width as nat),
{
    let mut cells: Vec<u8> = Vec::new();
    let mut i: usize = 0;
    while raster.pixels.len() - i >= 3
        invariant
            i == 3 * cells@.len(),
            i <= raster.pixels@.len(),
            forall|j: int|
                0 <= j < cells@.len() ==> cells@[j] == index_of_rgb(
                    raster.pixels@[3 * j],
                    raster.pixels@[3 * j + 1],
                    raster.pixels@[3 * j + 2],
                ),
        decreases raster.pixels@.len() - i,
    {
        let red: u8 = raster.pixels[i];
        let green: u8 = raster.pixels[i + 1];
        let blue: u8 = raster.pixels[i + 2];
        let index: u8 = if red == 0 && green == 0 && blue == 0 {
            0
        } else if red == 85 && green == 255 && blue == 255 {
            1
        } else if red == 255 && green == 85 && blue == 255 {
            2
        } else if red == 255 && green == 255 && blue == 255 {
            3
        } else {
            4
        };
        cells.push(index);
        i += 3;
    }
    assert(cells@ =~= indices_of_rgb(raster.pixels@));
    split_rows(&cells, raster.width as usize)
}

/// The grid of palette indices of what was read from a PNG file: of a
/// raster that has pixels, the index that each pixel stands for; an error
/// for a raster without pixels and for what could not be read.
pub fn grid_of_decoded(decoded: Result<Raster, PngError>) -> (result: Result<RawGrid, PngError>)
    requires
        decoded matches Ok(raster) ==> raster.wf(),
    ensures
        match decoded {
            Ok(raster) => if raster.width > 0 {
                result matches Ok(grid) && grid_view(grid) == chunked(
                    indices_of_rgb(raster.pixels@),
                    raster.width as nat,
                )
            } else {
                result matches Err(e) && e.message@ == NO_PIXELS@
            },
            Err(error) => result == Err::<RawGrid, PngError>(error),
        },
{
    match decoded {
        Ok(raster) => {
            if raster.width == 0 {
                Err(PngError { message: String::from_str(NO_PIXELS) })
            } else {
                Ok(palette_indices_of(&raster))
            }
        },
        Err(error) => Err(error),
    }
}

/// Reads a PNG file into a grid of palette indices: 0 for a black pixel, 1
/// for bright cyan, 2 for bright magenta, 3 for white, 4 for every other
/// colour. The grid is given exactly where the codec reads a raster from
/// the bytes and the raster has pixels. A raster without pixels gives the
/// error `NO_PIXELS`; bytes that the codec refuses give what the codec
/// says of them.
pub fn process_input(buffer: &[u8]) -> (result: Result<RawGrid, PngError>)
    ensures
        match result {
            Ok(grid) => png_grid(buffer@) == Some(grid_view(grid)),
            Err(error) => png_grid(buffer@) is None && (png_decoding(buffer@) is Some
                ==> error.message@ == NO_PIXELS@),
        },
{
    let decoded: Result<Raster, PngError> = match decode_png(buffer) {
        Ok(raster) => Ok(raster),
        Err(error) => Err(PngError { message: error_message(&error) }),
    };
    grid_of_decoded(decoded)
}

/// The raster that shows a grid with a palette: each cell as the colour
/// that the palette has for it.
pub fn convert_image(image_data: RawGrid, palette: ColorPalette) -> (raster: Raster)
    requires
        can_convert(grid_view(image_data), palette@),
    ensures
        raster.wf(),
        raster.width == grid_view(image_data)[0].len(),
        raster.height == image_data@.len(),
        raster.pixels@ == rgb_bytes(grid_view(image_data).flatten(), palette@),
{
    let ghost rows = grid_view(image_data);
    let width: usize = image_data[0].len();
    let height: usize = image_data.len();
    let cells: Vec<u8> = flatten_rows(&image_data);
    proof {
        lemma_flatten_grid(rows, width as nat);
        assert forall|i: int| 0 <= i < cells@.len() implies (#[trigger] cells@[i]) < palette@.len() by {
            let r = i / (width as int);
            let c = i % (width as int);
            vstd::arithmetic::div_mod::lemma_fundamental_div_mod(i, width as int);
            assert(width * r == r * width) by (nonlinear_arith);
            assert(0 <= r < rows.len()) by (nonlinear_arith)
                requires
                    0 <= i < rows.len() * width,
                    r == i / (width as int),
                    width > 0,
            ;
            assert(rows[r][c] == rows.flatten()[r * width + c]);
        }
    }
    let mut pixels: Vec<u8> = Vec::new();
    let mut i: usize = 0;
    while i < cells.len()
        invariant
            i <= cells@.len(),
            pixels@.len() == 3 * i,
            forall|j: int| 0 <= j < cells@.len() ==> (#[trigger] cells@[j]) < palette@.len(),
            forall|k: int| 0 <= k < 3 * i ==> pixels@[k] == rgb_bytes(cells@, palette@)[k],
        decreases cells@.len() - i,
    {
        let rgb: [u8; 3] = palette[cells[i] as usize].to_rgb();
        pixels.push(rgb[0]);
        pixels.push(rgb[1]);
        pixels.push(rgb[2]);
        i += 1;
    }
    assert(pixels@ =~= rgb_bytes(cells@, palette@));
    assert(width * height == height * width) by (nonlinear_arith);
    Raster { width: width as u32, height: height as u32, pixels }
}

/// Puts what the codec made of a raster into `bytes`: a PNG file in place
/// of what they held; nothing, where the codec refused.
pub fn store_encoded(bytes: &mut Vec<u8>, encoded: Result<Vec<u8>, PngError>) -> (result: Result<
    (),
    PngError,
>)
    ensures
        match encoded {
            Ok(file) => result is Ok && final(bytes)@ == file@,
            Err(error) => result == Err::<(), PngError>(error) && final(bytes)@ == old(bytes)@,
        },
{
    match encoded {
        Ok(file) => {
            *bytes = file;
            Ok(())
        },
        Err(error) => Err(error),
    }
}

/// Writes a grid, shown with a palette, as a PNG file into `bytes`, in
/// place of what they held. It succeeds exactly where the codec makes a
/// file of the raster of the grid; where the codec refuses, `bytes` stay
/// as they were.
pub fn write_to(bytes: &mut Vec<u8>, image_data: RawGrid, palette: ColorPalette) -> (result: Result<
    (),
    PngError,
>)
    requires
        can_convert(grid_view(image_data), palette@),
    ensures
        match result {
            Ok(_) => png_file(grid_view(image_data), palette@) == Some(final(bytes)@),
            Err(_) => png_file(grid_view(image_data), palette@) is None && final(bytes)@ == old(
                bytes,
            )@,
        },
{
    let encoded: Result<Vec<u8>, PngError> = match encode_png(convert_image(image_data, palette)) {
        Ok(file) => Ok(file),
        Err(error) => Err(PngError { message: error_message(&error) }),
    };
    store_encoded(bytes, encoded)
}

} // verus!
