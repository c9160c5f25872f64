//! The decoders: raw bytes to grids of palette indices, and back.

use crate::bits::{
    field, lemma_field_bound, lemma_load_word, lemma_low_bits, lemma_pack_fields,
    lemma_store_word, load_field, pack_words, store_field,
};
use crate::grid::{
    chunked, grid_view, is_grid, lemma_chunked_cells, lemma_chunked_flatten, lemma_flatten_chunked,
    lemma_flatten_grid, lemma_row_bounds, within_palette,
};
use crate::ImageType;
use crate::RawGrid;
use crate::text::same_text;
use vstd::prelude::*;

verus! {

/// Why a buffer could not be decoded at the width asked for.
#[derive(Debug, Clone, Copy, PartialEq, Eq, Structural)]
pub enum DecodeError {
    /// The width is zero, or the format cannot lay out rows of it at all.
    InvalidWidth,
    /// The buffer's pixels do not fill a whole number of rows.
    DimensionMismatch { pixel_count: usize, width: usize },
    /// The row-planar format has no rows narrower than eight pixels.
    UnsupportedWidth,
}

/// The 16-colour format with one bit plane after the other in each row.
#[derive(Debug, Clone, Copy)]
pub struct EGARowPlanar;

/// The 4-colour format with four pixels packed into each byte.
#[derive(Debug, Clone, Copy)]
pub struct CGA;

/// The raw formats that can be chosen by name.
#[derive(Debug, Clone, Copy, PartialEq, Eq, Structural)]
pub enum ParserType {
    CGA,
    EGARowPlanar,
}

/// What a decoder returns, with the grid as a mathematical value.
pub open spec fn decoded(result: Result<RawGrid, DecodeError>) -> Result<Seq<Seq<u8>>, DecodeError> {
    match result {
        Ok(grid) => Ok(grid_view(grid)),
        Err(e) => Err(e),
    }
}

/// What holds of every grid that a buffer of `byte_count` bytes decodes to
/// at `width`: it is rectangular, it holds each pixel of the buffer once,
/// and each of its cells is an index into a palette of the image type.
pub open spec fn decoded_grid(
    rows: Seq<Seq<u8>>,
    byte_count: nat,
    width: nat,
    image_type: ImageType,
) -> bool {
    &&& width > 0
    &&& is_grid(rows, width)
    &&& rows.len() * width == image_type.spec_pixel_count(byte_count)
    &&& rows.len() == image_type.spec_pixel_count(byte_count) / width
    &&& within_palette(rows, image_type.spec_palette_length() as nat)
}

/// Pixel `k` of a buffer in the packed 4-colour format: each byte holds four
/// pixels of two bits, the first in its two highest bits.
pub open spec fn cga_pixel(buffer: Seq<u8>, k: int) -> u8 {
    field(buffer[k / 4], (2 * (k % 4)) as nat, (2 * (k % 4) + 2) as nat)
}

/// All pixels of a buffer in the packed 4-colour format, in stream order.
pub open spec fn cga_pixels(buffer: Seq<u8>) -> Seq<u8> {
    Seq::new(buffer.len() * 4, |k: int| cga_pixel(buffer, k))
}

/// The grid that a buffer in the packed 4-colour format decodes to at a
/// given width, or the reason why it has none.
pub open spec fn decode_cga(buffer: Seq<u8>, width: nat) -> Result<Seq<Seq<u8>>, DecodeError> {
    if width == 0 {
        Err(DecodeError::InvalidWidth)
    } else if (buffer.len() * 4) % width != 0 {
        Err(
            DecodeError::DimensionMismatch {
                pixel_count: (buffer.len() * 4) as usize,
                width: width as usize,
            },
        )
    } else {
        Ok(chunked(cga_pixels(buffer), width))
    }
}

/// Bit `x` of bit plane `plane` of one row block in the row-planar format.
/// The block holds four planes of equal length, and each byte of a plane
/// holds eight pixels' bits, the first pixel's in its highest bit.
pub open spec fn plane_bit(block: Seq<u8>, plane: int, x: int) -> u8 {
    field(block[plane * (block.len() / 4) + x / 8], (x % 8) as nat, (x % 8 + 1) as nat)
}

/// The number that the first `planes` planes of a row block spell for pixel
/// `x`, the first plane giving the most significant bit.
pub open spec fn planes_value(block: Seq<u8>, x: int, planes: nat) -> int
    decreases planes,
{
    if planes == 0 {
        0
    } else {
        2 * planes_value(block, x, (planes - 1) as nat) + plane_bit(block, planes - 1, x)
    }
}

/// Pixel `x` of one row block in the row-planar format.
pub open spec fn planar_pixel(block: Seq<u8>, x: int) -> u8 {
    planes_value(block, x, 4) as u8
}

/// The row of pixels that one row block in the row-planar format holds.
pub open spec fn planar_row(block: Seq<u8>) -> Seq<u8> {
    Seq::new(block.len() * 2, |x: int| planar_pixel(block, x))
}

/// The grid that a buffer in the row-planar 16-colour format decodes to at
/// a given width, or the reason why it has none. A row of `width` pixels
/// takes `width / 2` bytes: four planes of `width / 8` bytes each.
pub open spec fn decode_row_planar(buffer: Seq<u8>, width: nat) -> Result<
    Seq<Seq<u8>>,
    DecodeError,
> {
    if width < 8 {
        Err(DecodeError::UnsupportedWidth)
    } else if width % 8 != 0 {
        Err(DecodeError::InvalidWidth)
    } else if (buffer.len() * 2) % width != 0 {
        Err(
            DecodeError::DimensionMismatch {
                pixel_count: (buffer.len() * 2) as usize,
                width: width as usize,
            },
        )
    } else {
        Ok(
            Seq::new(
                buffer.len() * 2 / width,
                |r: int| planar_row(chunked(buffer, width / 2)[r]),
            ),
        )
    }
}

/// The first `planes` planes spell a number of as many bits.
pub proof fn lemma_planes_value_bound(block: Seq<u8>, x: int, planes: nat)
    requires
        planes <= 4,
        0 <= x < block.len() * 2,
        block.len() % 4 == 0,
    ensures
        0 <= planes_value(block, x, planes),
        planes == 0 ==> planes_value(block, x, planes) == 0,
        planes == 1 ==> planes_value(block, x, planes) < 2,
        planes == 2 ==> planes_value(block, x, planes) < 4,
        planes == 3 ==> planes_value(block, x, planes) < 8,
        planes == 4 ==> planes_value(block, x, planes) < 16,
    decreases planes,
{
    if planes > 0 {
        lemma_planes_value_bound(block, x, (planes - 1) as nat);
        let byte = block[(planes - 1) * (block.len() / 4) + x / 8];
        lemma_field_bound(byte, (x % 8) as nat, (x % 8 + 1) as nat);
    }
}

/// The packed 4-colour format decodes exactly when the width is positive
/// and divides the number of pixels, and then to a grid of that width which
/// holds every pixel: `4 * buffer.len() / width` rows of indices below 4.
pub proof fn lemma_decode_cga_grid(buffer: Seq<u8>, width: nat)
    ensures
        decode_cga(buffer, width) is Ok <==> width > 0 && (buffer.len() * 4) % width == 0,
        decode_cga(buffer, width) matches Ok(rows) ==> decoded_grid(
            rows,
            buffer.len(),
            width,
            ImageType::CGA,
        ),
{
    if decode_cga(buffer, width) is Ok {
        let flat = cga_pixels(buffer);
        let rows = chunked(flat, width);
        lemma_chunked_cells(flat, width);
        assert forall|r: int, c: int| 0 <= r < rows.len() && 0 <= c < rows[r].len() implies (
        #[trigger] rows[r][c]) < 4 by {
            lemma_row_bounds(r, width as int, rows.len() as int);
            let k = r * width + c;
            assert(rows[r][c] == flat[k]);
            lemma_field_bound(buffer[k / 4], (2 * (k % 4)) as nat, (2 * (k % 4) + 2) as nat);
        }
    }
}

/// A row of `width` pixels takes `width / 2` bytes in the row-planar format,
/// so a buffer fills whole rows exactly when it holds whole row blocks.
pub proof fn lemma_row_blocks(byte_count: nat, width: nat)
    requires
        width >= 8,
        width % 8 == 0,
    ensures
        ((byte_count * 2) % width == 0) <==> (byte_count % (width / 2) == 0),
        byte_count * 2 / width == byte_count / (width / 2),
{
    let half = (width / 2) as int;
    assert(width == 2 * half);
    vstd::arithmetic::div_mod::lemma_truncate_middle(byte_count as int, 2, half);
    if byte_count > 0 {
        vstd::arithmetic::div_mod::lemma_div_multiples_vanish_quotient(2, byte_count as int, half);
    }
    assert(byte_count * 2 == 2 * byte_count);
}

/// The row-planar format decodes exactly when the width is a multiple of
/// eight, at least eight, and divides the number of pixels, and then to a
/// grid of that width which holds every pixel: `2 * buffer.len() / width`
/// rows of indices below 16.
pub proof fn lemma_decode_row_planar_grid(buffer: Seq<u8>, width: nat)
    ensures
        decode_row_planar(buffer, width) is Ok <==> width >= 8 && width % 8 == 0 && (buffer.len()
            * 2) % width == 0,
        decode_row_planar(buffer, width) matches Ok(rows) ==> decoded_grid(
            rows,
            buffer.len(),
            width,
            ImageType::EGA,
        ),
{
    if width >= 8 && width % 8 == 0 && (buffer.len() * 2) % width == 0 {
        let half = (width / 2) as nat;
        let blocks = chunked(buffer, half);
        let rows = Seq::new(buffer.len() * 2 / width, |r: int| planar_row(blocks[r]));
        assert(decode_row_planar(buffer, width) == Ok::<Seq<Seq<u8>>, DecodeError>(rows));
        lemma_row_blocks(buffer.len(), width);
        lemma_chunked_cells(buffer, half);
        lemma_planar_rows(blocks, half, rows);
        assert(rows.len() * width == buffer.len() * 2) by (nonlinear_arith)
            requires
                rows.len() * half == buffer.len(),
                width == 2 * half,
        ;
        assert(ImageType::EGA.spec_pixel_count(buffer.len()) == buffer.len() * 2);
    }
}

/// Rows decoded from row blocks of `half` bytes hold `2 * half` indices
/// below 16.
proof fn lemma_planar_rows(blocks: Seq<Seq<u8>>, half: nat, rows: Seq<Seq<u8>>)
    requires
        half % 4 == 0,
        is_grid(blocks, half),
        rows.len() == blocks.len(),
        forall|r: int| 0 <= r < rows.len() ==> #[trigger] rows[r] == planar_row(blocks[r]),
    ensures
        is_grid(rows, 2 * half),
        within_palette(rows, 16),
{
    assert forall|r: int, c: int| 0 <= r < rows.len() && 0 <= c < rows[r].len() implies (
    #[trigger] rows[r][c]) < 16 by {
        assert(rows[r] == planar_row(blocks[r]));
        assert(blocks[r].len() == half);
        lemma_planes_value_bound(blocks[r], c, 4);
    }
}

/// Cell `k` of `cells`, and 0 past their end.
pub open spec fn cell_or_zero(cells: Seq<u8>, k: int) -> u8 {
    if 0 <= k < cells.len() {
        cells[k]
    } else {
        0
    }
}

/// Byte `j` of the packed 4-colour encoding of `cells`: the cells `4 * j`
/// to `4 * j + 3`, two bits each, the first in the two highest bits. Cells
/// past the end count as 0.
pub open spec fn packed_byte(cells: Seq<u8>, j: int) -> u8 {
    pack_words(
        cell_or_zero(cells, 4 * j),
        cell_or_zero(cells, 4 * j + 1),
        cell_or_zero(cells, 4 * j + 2),
        cell_or_zero(cells, 4 * j + 3),
    )
}

/// The packed 4-colour encoding of a stream of cells.
pub open spec fn encode_cga(cells: Seq<u8>) -> Seq<u8> {
    Seq::new((cells.len() + 3) / 4, |j: int| packed_byte(cells, j))
}

/// Pixel `k` of the packed 4-colour encoding of a stream of cells is the
/// two lowest bits of cell `k`.
pub proof fn lemma_cga_pixel_of_encoding(cells: Seq<u8>, k: int)
    requires
        0 <= k < cells.len(),
    ensures
        cga_pixel(encode_cga(cells), k) == cells[k] & 3,
{
    let j = k / 4;
    let i = k % 4;
    let byte = encode_cga(cells)[j];
    assert(byte == packed_byte(cells, j));
    assert(cell_or_zero(cells, 4 * j + i) == cells[k]);
    lemma_load_word(
        cell_or_zero(cells, 4 * j),
        cell_or_zero(cells, 4 * j + 1),
        cell_or_zero(cells, 4 * j + 2),
        cell_or_zero(cells, 4 * j + 3),
        i as nat,
    );
}

/// Unpacking the packed 4-colour encoding of a stream of cells gives the
/// cells back, where each is below 4 and their number is a multiple of 4.
pub proof fn lemma_cga_pixels_of_encoding(cells: Seq<u8>)
    requires
        cells.len() % 4 == 0,
        forall|k: int| 0 <= k < cells.len() ==> cells[k] < 4,
    ensures
        cga_pixels(encode_cga(cells)) == cells,
{
    let bytes = encode_cga(cells);
    assert(bytes.len() * 4 == cells.len());
    assert forall|k: int| 0 <= k < cells.len() implies cga_pixels(bytes)[k] == cells[k] by {
        lemma_cga_pixel_of_encoding(cells, k);
        lemma_low_bits(cells[k]);
    }
    assert(cga_pixels(bytes) =~= cells);
}

/// Encoding a rectangular grid of indices below 4 in the packed 4-colour
/// format and decoding the bytes at the grid's width gives the grid back,
/// where the number of its cells is a multiple of 4, so that they fill
/// whole bytes.
pub proof fn lemma_cga_round_trip(rows: Seq<Seq<u8>>, width: nat)
    requires
        width > 0,
        is_grid(rows, width),
        within_palette(rows, 4),
        (rows.len() * width) % 4 == 0,
    ensures
        decode_cga(encode_cga(rows.flatten()), width) == Ok::<Seq<Seq<u8>>, DecodeError>(rows),
{
    let cells = rows.flatten();
    lemma_flatten_grid(rows, width);
    assert forall|k: int| 0 <= k < cells.len() implies cells[k] < 4 by {
        let r = k / width as int;
        let c = k % width as int;
        vstd::arithmetic::div_mod::lemma_fundamental_div_mod(k, width as int);
        assert(width * r == r * width) by (nonlinear_arith);
        assert(0 <= r < rows.len()) by (nonlinear_arith)
            requires
                0 <= k < rows.len() * width,
                r == k / width as int,
                width > 0,
        ;
        assert(rows[r][c] == cells[r * width + c]);
    }
    lemma_cga_pixels_of_encoding(cells);
    let bytes = encode_cga(cells);
    assert(bytes.len() * 4 == cells.len());
    assert((rows.len() * width) % width == 0) by (nonlinear_arith)
        requires
            width > 0,
    ;
    lemma_chunked_flatten(rows, width);
}

/// Decoding a buffer in the packed 4-colour format and encoding the grid
/// again gives the buffer back.
pub proof fn lemma_cga_decode_encode(buffer: Seq<u8>, width: nat)
    requires
        decode_cga(buffer, width) is Ok,
    ensures
        encode_cga(decode_cga(buffer, width)->Ok_0.flatten()) == buffer,
{
    let cells = cga_pixels(buffer);
    lemma_flatten_chunked(cells, width);
    assert forall|j: int| 0 <= j < buffer.len() implies packed_byte(cells, j) == buffer[j] by {
        lemma_pack_fields(buffer[j]);
    }
    assert(encode_cga(cells) =~= buffer);
}

/// Decoding is a function of the buffer and the width: two runs of the
/// row-planar decoder on the same buffer at the same width end alike, and
/// where they give grids, the grids hold the same rows.
pub proof fn lemma_row_planar_decode_deterministic(
    buffer: Seq<u8>,
    width: nat,
    first: Result<RawGrid, DecodeError>,
    second: Result<RawGrid, DecodeError>,
)
    requires
        decoded(first) == decode_row_planar(buffer, width),
        decoded(second) == decode_row_planar(buffer, width),
    ensures
        decoded(first) == decoded(second),
        first is Ok <==> second is Ok,
        first is Err ==> first == second,
        first is Ok ==> grid_view(first->Ok_0) == grid_view(second->Ok_0),
{
}

/// Two runs of the packed 4-colour decoder on the same buffer at the same
/// width end alike, and where they give grids, the grids hold the same
/// rows.
pub proof fn lemma_cga_decode_deterministic(
    buffer: Seq<u8>,
    width: nat,
    first: Result<RawGrid, DecodeError>,
    second: Result<RawGrid, DecodeError>,
)
    requires
        decoded(first) == decode_cga(buffer, width),
        decoded(second) == decode_cga(buffer, width),
    ensures
        decoded(first) == decoded(second),
        first is Ok <==> second is Ok,
        first is Err ==> first == second,
        first is Ok ==> grid_view(first->Ok_0) == grid_view(second->Ok_0),
{
}

/// A decoder of one raw format.
pub trait ProcessBinary {
    /// The colour depth of the format.
    spec fn spec_image_type(&self) -> ImageType;

    /// What `buffer` decodes to at `width`.
    spec fn decode(&self, buffer: Seq<u8>, width: nat) -> Result<Seq<Seq<u8>>, DecodeError>;

    fn image_type(&self) -> (t: ImageType)
        ensures
            t == self.spec_image_type(),
    ;

    fn word_size(&self) -> (n: usize)
        ensures
            n == self.spec_image_type().spec_word_size(),
    {
        self.image_type().word_size()
    }

    fn pixels_per_byte(&self) -> (n: usize)
        ensures
            n == self.spec_image_type().spec_words_per_byte(),
    {
        8 / self.word_size()
    }

    /// Decodes `buffer` into rows of `width` pixels. The number of pixels
    /// that the buffer holds must fit in `usize`.
    fn process_input(&self, buffer: &[u8], width: usize) -> (result: Result<RawGrid, DecodeError>)
        requires
            self.spec_image_type().spec_pixel_count(buffer@.len()) <= usize::MAX,
        ensures
            decoded(result) == self.decode(buffer@, width as nat),
            result matches Ok(grid) ==> decoded_grid(
                grid_view(grid),
                buffer@.len(),
                width as nat,
                self.spec_image_type(),
            ),
    ;
}

/// Splits `flat` into rows of `width` cells.
pub fn split_rows(flat: &Vec<u8>, width: usize) -> (rows: RawGrid)
    requires
        width > 0,
    ensures
        grid_view(rows) == chunked(flat@, width as nat),
{
    let height: usize = flat.len() / width;
    let mut rows: Vec<Vec<u8>> = Vec::new();
    let mut r: usize = 0;
    let mut start: usize = 0;
    proof {
        assert(height * width <= flat.len()) by (nonlinear_arith)
            requires
                height == flat.len() / width,
                width > 0,
        ;
    }
    while r < height
        invariant
            width > 0,
            r <= height,
            height == flat.len() / width,
            height * width <= flat.len(),
            start == r * width,
            rows@.len() == r,
            forall|q: int|
                0 <= q < r ==> (#[trigger] rows@[q])@ == flat@.subrange(q * width, (q + 1) * width),
        decreases height - r,
    {
        proof {
            lemma_row_bounds(r as int, width as int, height as int);
        }
        let mut row: Vec<u8> = Vec::new();
        let mut c: usize = 0;
        while c < width
            invariant
                c <= width,
                start + width <= flat.len(),
                row@ == flat@.subrange(start as int, start + c),
            decreases width - c,
        {
            row.push(flat[start + c]);
            c += 1;
        }
        rows.push(row);
        start += width;
        r += 1;
    }
    assert(grid_view(rows) =~= chunked(flat@, width as nat));
    rows
}

impl CGA {
    /// Unpacks every pixel of `buffer`, in stream order.
    pub fn words_to_bytes(&self, buffer: &[u8]) -> (words: Vec<u8>)
        ensures
            words@ == cga_pixels(buffer@),
    {
        let word_size: usize = self.word_size();
        let per_byte: usize = self.pixels_per_byte();
        let mut words: Vec<u8> = Vec::new();
        let mut i: usize = 0;
        while i < buffer.len()
            invariant
                word_size == 2,
                per_byte == 4,
                i <= buffer.len(),
                words@.len() == 4 * i,
                forall|k: int| 0 <= k < 4 * i ==> words@[k] == cga_pixel(buffer@, k),
            decreases buffer.len() - i,
        {
            let byte: u8 = buffer[i];
            let mut j: usize = 0;
            while j < per_byte
                invariant
                    word_size == 2,
                    per_byte == 4,
                    i < buffer.len(),
                    byte == buffer@[i as int],
                    j <= 4,
                    words@.len() == 4 * i + j,
                    forall|k: int| 0 <= k < 4 * i + j ==> words@[k] == cga_pixel(buffer@, k),
                decreases per_byte - j,
            {
                let word: u8 = load_field(byte, j * word_size, (j + 1) * word_size);
                words.push(word);
                j += 1;
            }
            i += 1;
        }
        assert(words@ =~= cga_pixels(buffer@));
        words
    }

    /// Packs the cells of a grid, row after row, four to a byte. Of each
    /// cell the two lowest bits are kept; a last byte that is not full is
    /// filled up with zero bits.
    pub fn to_bytes(self, image_data: RawGrid) -> (bytes: Vec<u8>)
        ensures
            bytes@ == encode_cga(grid_view(image_data).flatten()),
    {
        let bytes_per_new_byte: usize = 8 / self.word_size();
        let flat: Vec<u8> = flatten_rows(&image_data);
        let mut bytes: Vec<u8> = Vec::new();
        let mut start: usize = 0;
        while start < flat.len()
            invariant
                bytes_per_new_byte == 4,
                flat@ == grid_view(image_data).flatten(),
                start <= flat@.len() + 3,
                start == 4 * bytes@.len(),
                forall|j: int| 0 <= j < bytes@.len() ==> bytes@[j] == packed_byte(flat@, j),
            decreases flat@.len() + 3 - start,
        {
            let end: usize = if flat.len() - start < bytes_per_new_byte {
                flat.len()
            } else {
                start + bytes_per_new_byte
            };
            let chunk: &[u8] = vstd::slice::slice_subrange(flat.as_slice(), start, end);
            let byte: u8 = Self::compress_bytes_to_words(chunk);
            assert(byte == packed_byte(flat@, bytes@.len() as int));
            bytes.push(byte);
            if end == flat.len() {
                assert(bytes@ =~= encode_cga(flat@));
                return bytes;
            }
            start = end;
        }
        assert(bytes@ =~= encode_cga(flat@));
        bytes
    }

    /// Packs up to four words into one byte, the first into its two highest
    /// bits. Of each word the two lowest bits are kept.
    pub fn compress_bytes_to_words(bytes: &[u8]) -> (raw: u8)
        requires
            bytes@.len() <= 4,
        ensures
            raw == packed_byte(bytes@, 0),
    {
        let mut raw: u8 = 0u8;
        let mut i: usize = 0;
        assert(pack_words(0, 0, 0, 0) == 0) by (bit_vector);
        while i < bytes.len()
            invariant
                i <= bytes@.len() <= 4,
                raw == packed_byte(bytes@.take(i as int), 0),
            decreases bytes@.len() - i,
        {
            let ghost before = bytes@.take(i as int);
            proof {
                lemma_store_word(
                    cell_or_zero(before, 0),
                    cell_or_zero(before, 1),
                    cell_or_zero(before, 2),
                    cell_or_zero(before, 3),
                    i as nat,
                    bytes@[i as int],
                );
            }
            store_field(&mut raw, i * 2, i * 2 + 2, bytes[i]);
            i += 1;
        }
        assert(bytes@.take(i as int) =~= bytes@);
        raw
    }
}

/// The cells of a grid, row after row.
pub fn flatten_rows(rows: &Vec<Vec<u8>>) -> (flat: Vec<u8>)
    ensures
        flat@ == grid_view(*rows).flatten(),
{
    let mut flat: Vec<u8> = Vec::new();
    let mut r: usize = 0;
    while r < rows.len()
        invariant
            r <= rows@.len(),
            flat@ == grid_view(*rows).take(r as int).flatten(),
        decreases rows@.len() - r,
    {
        let row: &Vec<u8> = &rows[r];
        let ghost done = grid_view(*rows).take(r as int);
        let mut c: usize = 0;
        while c < row.len()
            invariant
                c <= row@.len(),
                flat@ == done.flatten() + row@.take(c as int),
            decreases row@.len() - c,
        {
            flat.push(row[c]);
            assert(row@.take(c + 1) =~= row@.take(c as int).push(row@[c as int]));
            c += 1;
        }
        proof {
            assert(row@.take(c as int) =~= row@);
            assert(grid_view(*rows).take(r + 1) =~= done.push(row@));
            done.lemma_flatten_push(row@);
        }
        r += 1;
    }
    assert(grid_view(*rows).take(r as int) =~= grid_view(*rows));
    flat
}

impl EGARowPlanar {
    /// Decodes one row block: four bit planes of equal length, the first
    /// holding the most significant bit of each pixel.
    pub fn words_to_bytes_row(&self, buffer: &[u8]) -> (row: Vec<u8>)
        requires
            buffer@.len() % 4 == 0,
            buffer@.len() <= usize::MAX / 2,
        ensures
            row@ == planar_row(buffer@),
    {
        let width: usize = buffer.len() * 2;
        let plane_len: usize = width / 8;
        let mut row: Vec<u8> = Vec::new();
        while row.len() < width
            invariant
                row@.len() <= width,
                forall|x: int| 0 <= x < row@.len() ==> row@[x] == 0,
            decreases width - row@.len(),
        {
            row.push(0);
        }
        let mut plane: usize = 0;
        while plane < 4
            invariant
                plane <= 4,
                width == buffer@.len() * 2,
                buffer@.len() == 4 * plane_len,
                row@.len() == width,
                forall|x: int|
                    0 <= x < width ==> row@[x] == planes_value(buffer@, x, plane as nat),
            decreases 4 - plane,
        {
            assert(plane * plane_len + plane_len <= 4 * plane_len) by (nonlinear_arith)
                requires
                    plane < 4,
            ;
            let offset: usize = plane * plane_len;
            let mut x: usize = 0;
            while x < width
                invariant
                    plane < 4,
                    x <= width,
                    width == buffer@.len() * 2,
                    buffer@.len() == 4 * plane_len,
                    offset == plane * plane_len,
                    offset + plane_len <= buffer@.len(),
                    row@.len() == width,
                    forall|y: int|
                        0 <= y < x ==> row@[y] == planes_value(buffer@, y, (plane + 1) as nat),
                    forall|y: int|
                        x <= y < width ==> row@[y] == planes_value(buffer@, y, plane as nat),
                decreases width - x,
            {
                let byte: u8 = buffer[offset + x / 8];
                let bit: u8 = load_field(byte, x % 8, x % 8 + 1);
                let high: u8 = row[x];
                proof {
                    lemma_planes_value_bound(buffer@, x as int, plane as nat);
                    lemma_field_bound(byte, (x % 8) as nat, (x % 8 + 1) as nat);
                    assert((high << 1 | bit) == 2 * high + bit) by (bit_vector)
                        requires
                            high < 8,
                            bit <= 1,
                    ;
                    assert(bit == plane_bit(buffer@, plane as int, x as int));
                }
                row.set(x, high << 1 | bit);
                x += 1;
            }
            plane += 1;
        }
        assert(row@ =~= planar_row(buffer@));
        row
    }
}

impl ProcessBinary for CGA {
    open spec fn spec_image_type(&self) -> ImageType {
        ImageType::CGA
    }

    open spec fn decode(&self, buffer: Seq<u8>, width: nat) -> Result<Seq<Seq<u8>>, DecodeError> {
        decode_cga(buffer, width)
    }

    fn image_type(&self) -> (t: ImageType) {
        ImageType::CGA
    }

    fn process_input(&self, buffer: &[u8], width: usize) -> (result: Result<RawGrid, DecodeError>) {
        if width == 0 {
            return Err(DecodeError::InvalidWidth);
        }
        let words: Vec<u8> = self.words_to_bytes(buffer);
        if words.len() % width != 0 {
            return Err(DecodeError::DimensionMismatch { pixel_count: words.len(), width });
        }
        proof {
            lemma_decode_cga_grid(buffer@, width as nat);
        }
        Ok(split_rows(&words, width))
    }
}

impl ProcessBinary for EGARowPlanar {
    open spec fn spec_image_type(&self) -> ImageType {
        ImageType::EGA
    }

    open spec fn decode(&self, buffer: Seq<u8>, width: nat) -> Result<Seq<Seq<u8>>, DecodeError> {
        decode_row_planar(buffer, width)
    }

    fn image_type(&self) -> (t: ImageType) {
        ImageType::EGA
    }

    fn process_input(&self, buffer: &[u8], width: usize) -> (result: Result<RawGrid, DecodeError>) {
        if width < 8 {
            return Err(DecodeError::UnsupportedWidth);
        }
        if width % 8 != 0 {
            return Err(DecodeError::InvalidWidth);
        }
        let row_bytes: usize = width / self.pixels_per_byte();
        proof {
            lemma_row_blocks(buffer@.len(), width as nat);
            lemma_decode_row_planar_grid(buffer@, width as nat);
        }
        if buffer.len() % row_bytes != 0 {
            return Err(DecodeError::DimensionMismatch { pixel_count: buffer.len() * 2, width });
        }
        let height: usize = buffer.len() / row_bytes;
        let mut rows: Vec<Vec<u8>> = Vec::new();
        let mut r: usize = 0;
        let mut start: usize = 0;
        proof {
            lemma_chunked_cells(buffer@, row_bytes as nat);
        }
        while r < height
            invariant
                row_bytes > 0,
                row_bytes % 4 == 0,
                r <= height,
                height == buffer@.len() / (row_bytes as nat),
                height * row_bytes == buffer@.len(),
                buffer@.len() <= usize::MAX / 2,
                start == r * row_bytes,
                rows@.len() == r,
                forall|q: int|
                    0 <= q < r ==> (#[trigger] rows@[q])@ == planar_row(
                        chunked(buffer@, row_bytes as nat)[q],
                    ),
            decreases height - r,
        {
            proof {
                lemma_row_bounds(r as int, row_bytes as int, height as int);
            }
            let block: &[u8] = vstd::slice::slice_subrange(buffer, start, start + row_bytes);
            rows.push(self.words_to_bytes_row(block));
            start += row_bytes;
            r += 1;
        }
        assert(grid_view(rows) =~= decode_row_planar(buffer@, width as nat)->Ok_0);
        Ok(rows)
    }
}

/// The format that a name stands for: the row-planar 16-colour format for
/// its three names, the packed 4-colour format for every other name.
pub open spec fn resolve(name: Seq<char>) -> ParserType {
    if name == "ega_row_planar"@ || name == "ega_row_parser"@ || name == "erp"@ {
        ParserType::EGARowPlanar
    } else {
        ParserType::CGA
    }
}

impl ParserType {
    /// The colour depth of the format.
    pub open spec fn spec_image_type(&self) -> ImageType {
        match self {
            ParserType::EGARowPlanar => ImageType::EGA,
            ParserType::CGA => ImageType::CGA,
        }
    }

    /// What `buffer` decodes to at `width` in this format.
    pub open spec fn decode(&self, buffer: Seq<u8>, width: nat) -> Result<Seq<Seq<u8>>, DecodeError> {
        match self {
            ParserType::CGA => decode_cga(buffer, width),
            ParserType::EGARowPlanar => decode_row_planar(buffer, width),
        }
    }

    #[verifier::when_used_as_spec(spec_image_type)]
    pub fn image_type(&self) -> (t: ImageType)
        ensures
            t == self.spec_image_type(),
    {
        match self {
            ParserType::EGARowPlanar => ImageType::EGA,
            _ => ImageType::CGA,
        }
    }

    /// Decodes `buffer` into rows of `width` pixels. The number of pixels
    /// that the buffer holds must fit in `usize`.
    pub fn process_input(&self, buffer: &[u8], width: usize) -> (result: Result<
        RawGrid,
        DecodeError,
    >)
        requires
            self.spec_image_type().spec_pixel_count(buffer@.len()) <= usize::MAX,
        ensures
            decoded(result) == self.decode(buffer@, width as nat),
            result matches Ok(grid) ==> decoded_grid(
                grid_view(grid),
                buffer@.len(),
                width as nat,
                self.spec_image_type(),
            ),
    {
        match self {
            ParserType::CGA => CGA.process_input(buffer, width),
            ParserType::EGARowPlanar => EGARowPlanar.process_input(buffer, width),
        }
    }

    /// The format that `name` stands for. A name that stands for none
    /// selects the packed 4-colour format.
    pub fn type_str(name: &str) -> (parser: ParserType)
        ensures
            parser == resolve(name@),
    {
        if same_text(name, "ega_row_planar") || same_text(name, "ega_row_parser") || same_text(
            name,
            "erp",
        ) {
            ParserType::EGARowPlanar
        } else {
            ParserType::CGA
        }
    }

    /// Packs a grid into the packed 4-colour format, whatever the format
    /// it was decoded from.
    pub fn to_bytes(&self, image_data: RawGrid) -> (bytes: Vec<u8>)
        ensures
            bytes@ == encode_cga(grid_view(image_data).flatten()),
    {
        CGA.to_bytes(image_data)
    }
}

} // verus!
