//! A decoded image, and the re-tiling of grids for display.

use crate::grid::{cells, grid_view, is_grid};
use crate::parser::{DecodeError, ParserType};
use crate::text::{list_text, push_list};
use crate::{
    divisor_list, is_divisor_list, lemma_divisor_list, proper_factors, RawGrid, FULLSCREEN_PIXELS,
};
use crate::tiling::{
    band_row, can_retile, concat_tiles_spec, lemma_concat_tiles_push, lemma_retile_keeps_cells,
    retile_bands, retile_spec, tiles_per_row,
};
use vstd::prelude::*;

verus! {

/// The widest mosaic that `tile` lays out, in cells.
pub const MAX_WIDTH: usize = 320;

/// A width limit as a mathematical value.
pub open spec fn limit_view(max_width: Option<usize>) -> Option<nat> {
    match max_width {
        Some(limit) => Some(limit as nat),
        None => None,
    }
}

/// A decoded image: a rectangular grid of palette indices that is at least
/// one cell wide.
pub struct Image(RawGrid);

impl View for Image {
    type V = Seq<Seq<u8>>;

    /// The rows of the image, from top to bottom.
    closed spec fn view(&self) -> Seq<Seq<u8>> {
        grid_view(self.0)
    }
}

/// The hint for an image that may hold tiles side by side, up to the list
/// of widths that it ends with.
pub const NARROWER_WIDTH_HINT: &'static str =
    "Image appears to not be fullscreen 320*200.It may be tiled, try setting a narrower -w width to detect tiles.\nPossible widths: ";

/// The hint for a tall image, up to the list of heights that it ends with.
pub const TILE_HEIGHT_HINT: &'static str =
    "Image height appears to >= 4x its width.If there are tiles, setting a smaller -t tile_height will make a more compact view\nPossible heights: ";

impl Image {
    #[verifier::type_invariant]
    spec fn well_formed(self) -> bool {
        self.0@.len() > 0 ==> {
            &&& self.0@[0]@.len() > 0
            &&& is_grid(grid_view(self.0), self.0@[0]@.len())
            &&& self.0@.len() * self.0@[0]@.len() <= usize::MAX
        }
    }

    /// The number of rows.
    pub open spec fn spec_height(&self) -> nat {
        self@.len()
    }

    /// The number of cells in a row, for an image that has a row.
    pub open spec fn spec_width(&self) -> nat
        recommends
            self@.len() > 0,
    {
        self@[0].len()
    }

    /// The number of cells, for an image that has a row.
    pub open spec fn spec_pixel_count(&self) -> nat
        recommends
            self@.len() > 0,
    {
        self.spec_height() * self.spec_width()
    }

    /// Decodes `buffer` in the format of `parser` into rows of `width`
    /// pixels. The number of pixels that the buffer holds must fit in
    /// `usize`.
    pub fn new(buffer: &[u8], width: usize, parser: ParserType) -> (result: Result<
        Image,
        DecodeError,
    >)
        requires
            parser.spec_image_type().spec_pixel_count(buffer@.len()) <= usize::MAX,
        ensures
            match result {
                Ok(image) => parser.decode(buffer@, width as nat) == Ok::<
                    Seq<Seq<u8>>,
                    DecodeError,
                >(image@),
                Err(e) => parser.decode(buffer@, width as nat) == Err::<Seq<Seq<u8>>, DecodeError>(
                    e,
                ),
            },
            result matches Ok(image) ==> crate::parser::decoded_grid(
                image@,
                buffer@.len(),
                width as nat,
                parser.spec_image_type(),
            ),
    {
        match parser.process_input(buffer, width) {
            Ok(grid) => {
                proof {
                    if grid@.len() > 0 {
                        assert(grid_view(grid)[0].len() == width);
                    }
                }
                Ok(Image(grid))
            },
            Err(e) => Err(e),
        }
    }

    /// A copy of the grid.
    pub fn data(&self) -> (grid: RawGrid)
        ensures
            grid_view(grid) == self@,
    {
        let mut grid: Vec<Vec<u8>> = Vec::new();
        let mut r: usize = 0;
        while r < self.0.len()
            invariant
                r <= self.0@.len(),
                grid@.len() == r,
                forall|q: int| 0 <= q < r ==> (#[trigger] grid@[q])@ == self.0@[q]@,
            decreases self.0@.len() - r,
        {
            let mut row: Vec<u8> = Vec::new();
            append_row(&mut row, &self.0[r]);
            grid.push(row);
            r += 1;
        }
        assert(grid_view(grid) =~= self@);
        grid
    }

    /// The number of cells. The image has at least one row.
    pub fn pixel_count(&self) -> (n: usize)
        requires
            self@.len() > 0,
        ensures
            n == self.spec_pixel_count(),
    {
        proof {
            use_type_invariant(self);
        }
        self.height() * self.width()
    }

    pub fn height(&self) -> (n: usize)
        ensures
            n == self.spec_height(),
    {
        self.0.len()
    }

    /// The number of cells in each row. The image has at least one row.
    pub fn width(&self) -> (n: usize)
        requires
            self@.len() > 0,
        ensures
            n == self.spec_width(),
            n > 0,
            is_grid(self@, n as nat),
    {
        proof {
            use_type_invariant(self);
        }
        self.0[0].len()
    }

    /// Whether the image is one screen of 320 by 200 pixels.
    pub fn is_fullscreen(&self) -> (full: bool)
        requires
            self@.len() > 0,
        ensures
            full == (self.spec_pixel_count() == FULLSCREEN_PIXELS),
    {
        self.pixel_count() == FULLSCREEN_PIXELS
    }

    /// Whether the image is more than four times as high as it is wide, in
    /// whole multiples.
    pub fn is_tall(&self) -> (tall: bool)
        requires
            self@.len() > 0,
        ensures
            tall == (self.spec_height() / self.spec_width() > 4),
    {
        (self.height() / self.width()) > 4
    }

    /// The widths, other than 1 and the whole image in one row, at which
    /// the cells of the image fill whole rows, in rising order.
    pub fn width_factors(&self) -> (list: Vec<i64>)
        requires
            self@.len() > 0,
            self.spec_pixel_count() <= i64::MAX,
        ensures
            is_divisor_list(
                list@,
                self.spec_pixel_count() as int,
                2,
                self.spec_pixel_count() as int,
            ),
    {
        proper_factors(self.pixel_count() as i64)
    }

    /// The tile heights, other than 1 and the whole height, that divide the
    /// height of the image, in rising order.
    pub fn height_factors(&self) -> (list: Vec<i64>)
        requires
            self@.len() > 0,
            self.spec_pixel_count() <= i64::MAX,
        ensures
            is_divisor_list(list@, self.spec_height() as int, 2, self.spec_height() as int),
    {
        let pixels: i64 = self.pixel_count() as i64;
        let width: i64 = self.width() as i64;
        proof {
            let h = self.spec_height() as int;
            let w = self.spec_width() as int;
            assert(h <= h * w && w <= h * w && (h * w) / w == h) by (nonlinear_arith)
                requires
                    h > 0,
                    w > 0,
            ;
        }
        proper_factors(pixels / width)
    }

    /// A hint on how to look at the image: for an image 320 cells wide
    /// that is not a full screen, the narrower widths to try; else, for a
    /// tall image, the tile heights to try; else nothing.
    pub fn suggestions(&self) -> (text: String)
        requires
            self@.len() > 0,
            self.spec_pixel_count() <= i64::MAX,
        ensures
            text@ == (if self.spec_pixel_count() != FULLSCREEN_PIXELS && self.spec_width() == 320 {
                NARROWER_WIDTH_HINT@ + list_text(
                    divisor_list(
                        self.spec_pixel_count() as int,
                        2,
                        self.spec_pixel_count() as int,
                    ),
                )
            } else if self.spec_height() / self.spec_width() > 4 {
                TILE_HEIGHT_HINT@ + list_text(
                    divisor_list(self.spec_height() as int, 2, self.spec_height() as int),
                )
            } else {
                Seq::<char>::empty()
            }),
    {
        if !self.is_fullscreen() && self.width() == 320 {
            let list: Vec<i64> = self.width_factors();
            proof {
                lemma_divisor_list(
                    list@,
                    self.spec_pixel_count() as int,
                    2,
                    self.spec_pixel_count() as int,
                );
            }
            let mut text: String = String::from_str(NARROWER_WIDTH_HINT);
            push_list(&mut text, &list);
            text
        } else if self.is_tall() {
            let list: Vec<i64> = self.height_factors();
            proof {
                lemma_divisor_list(list@, self.spec_height() as int, 2, self.spec_height() as int);
            }
            let mut text: String = String::from_str(TILE_HEIGHT_HINT);
            push_list(&mut text, &list);
            text
        } else {
            String::new()
        }
    }
}

/// Appends a copy of every cell of `source` to `row`.
fn append_row<T: Copy>(row: &mut Vec<T>, source: &Vec<T>)
    ensures
        final(row)@ == old(row)@ + source@,
{
    let mut c: usize = 0;
    while c < source.len()
        invariant
            c <= source@.len(),
            row@ == old(row)@ + source@.take(c as int),
        decreases source@.len() - c,
    {
        row.push(source[c]);
        assert(source@.take(c + 1) =~= source@.take(c as int).push(source@[c as int]));
        c += 1;
    }
    assert(source@.take(c as int) =~= source@);
}

/// The place of row `k + 1` within its tile, from the place of row `k`.
proof fn lemma_next_place(k: int, num_rows: int)
    requires
        -1 <= k,
        num_rows > 0,
    ensures
        k == -1 ==> (k + 1) % num_rows == 0,
        k >= 0 && k % num_rows + 1 == num_rows ==> (k + 1) % num_rows == 0,
        k >= 0 && k % num_rows + 1 != num_rows ==> (k + 1) % num_rows == k % num_rows + 1,
{
    if k == -1 {
        vstd::arithmetic::div_mod::lemma_small_mod(0, num_rows as nat);
    } else {
        let q = k / num_rows;
        let i = k % num_rows;
        vstd::arithmetic::div_mod::lemma_fundamental_div_mod(k, num_rows);
        if i + 1 == num_rows {
            assert(k + 1 == (q + 1) * num_rows + 0) by (nonlinear_arith)
                requires
                    k == num_rows * q + i,
                    i + 1 == num_rows,
            ;
            vstd::arithmetic::div_mod::lemma_fundamental_div_mod_converse(
                k + 1,
                num_rows,
                q + 1,
                0,
            );
        } else {
            assert(k + 1 == q * num_rows + (i + 1)) by (nonlinear_arith)
                requires
                    k == num_rows * q + i,
            ;
            vstd::arithmetic::div_mod::lemma_fundamental_div_mod_converse(
                k + 1,
                num_rows,
                q,
                i + 1,
            );
        }
    }
}

/// The band that the rows `start..end` of `data` make, taken as tiles of
/// `num_rows` rows each.
fn concat_band<T: Copy>(data: &Vec<Vec<T>>, start: usize, end: usize, num_rows: usize) -> (band:
    Vec<Vec<T>>)
    requires
        start <= end <= data@.len(),
        num_rows > 0,
    ensures
        grid_view(band) == concat_tiles_spec(
            grid_view(*data).subrange(start as int, end as int),
            num_rows as nat,
        ),
{
    let ghost tiles = grid_view(*data).subrange(start as int, end as int);
    let mut band: Vec<Vec<T>> = Vec::new();
    while band.len() < num_rows
        invariant
            band@.len() <= num_rows,
            forall|i: int| 0 <= i < band@.len() ==> (#[trigger] band@[i])@.len() == 0,
        decreases num_rows - band@.len(),
    {
        band.push(Vec::new());
    }
    proof {
        assert forall|j: int| 0 <= j < num_rows implies #[trigger] grid_view(band)[j] == band_row(
            tiles.take(0),
            j,
            num_rows as int,
        ) by {
            assert(band@[j]@ =~= Seq::<T>::empty());
        }
        assert(grid_view(band) =~= concat_tiles_spec(tiles.take(0), num_rows as nat));
        lemma_next_place(-1, num_rows as int);
    }
    let mut k: usize = start;
    let mut i: usize = 0;
    while k < end
        invariant
            start <= k <= end <= data@.len(),
            num_rows > 0,
            tiles == grid_view(*data).subrange(start as int, end as int),
            i == (k - start) % (num_rows as int),
            band@.len() == num_rows,
            grid_view(band) == concat_tiles_spec(tiles.take(k - start), num_rows as nat),
        decreases end - k,
    {
        let ghost before = grid_view(band);
        proof {
            let next = tiles.take(k - start + 1);
            assert(next.drop_last() =~= tiles.take(k - start));
            lemma_concat_tiles_push(next, num_rows as nat);
        }
        append_row(&mut band[i], &data[k]);
        assert(grid_view(band) =~= before.update(i as int, before[i as int] + data@[k as int]@));
        k += 1;
        i += 1;
        if i == num_rows {
            i = 0;
        }
        proof {
            lemma_next_place(k - start - 1, num_rows as int);
        }
    }
    assert(tiles.take(k - start) =~= tiles);
    band
}

/// Puts tiles that stand one below the other side by side. `tiles` holds
/// tiles of `num_rows` rows each; row `i` of the result is row `i` of every
/// tile, in the order of the tiles.
pub fn concat_tiles<T: Copy>(tiles: Vec<Vec<T>>, num_rows: usize) -> (rows: Vec<Vec<T>>)
    requires
        num_rows > 0,
    ensures
        grid_view(rows) == concat_tiles_spec(grid_view(tiles), num_rows as nat),
        cells(grid_view(rows)) == cells(grid_view(tiles)),
{
    proof {
        assert(grid_view(tiles).subrange(0, tiles@.len() as int) =~= grid_view(tiles));
        crate::tiling::lemma_concat_tiles_keeps_cells(grid_view(tiles), num_rows as nat);
    }
    concat_band(&tiles, 0, tiles.len(), num_rows)
}

/// Whether a grid can be re-tiled with the given tile height and width
/// limit.
pub fn retile_fits<T>(data: &Vec<Vec<T>>, tile_height: usize, max_width: Option<usize>) -> (fits:
    bool)
    ensures
        fits == can_retile(grid_view(*data), tile_height as nat, limit_view(max_width)),
{
    if tile_height == 0 || data.len() == 0 {
        return false;
    }
    let width: usize = data[0].len();
    if width == 0 {
        return false;
    }
    match max_width {
        Some(limit) => limit / width > 0,
        None => {
            assert(data@.len() * width <= u64::MAX * u64::MAX) by (nonlinear_arith)
                requires
                    data@.len() <= u64::MAX,
                    width <= u64::MAX,
            ;
            (data.len() as u128 * width as u128) / (tile_height as u128) > 0
        },
    }
}

/// Lays out a grid of tiles as a mosaic. The grid holds tiles of
/// `tile_height` rows, one below the other, each as wide as the grid. The
/// mosaic holds them in bands: as many side by side as fit into
/// `max_width` cells, or, without a limit, as the number of cells divided
/// by the tile height says.
pub fn retile<T: Copy>(data: Vec<Vec<T>>, tile_height: usize, max_width: Option<usize>) -> (mosaic:
    Vec<Vec<T>>)
    requires
        can_retile(grid_view(data), tile_height as nat, limit_view(max_width)),
    ensures
        grid_view(mosaic) == retile_spec(
            grid_view(data),
            tile_height as nat,
            limit_view(max_width),
        ),
        cells(grid_view(mosaic)) == cells(grid_view(data)),
{
    let ghost rows = grid_view(data);
    let width: usize = data[0].len();
    let height: usize = data.len();
    let per_row: u128 = match max_width {
        Some(limit) => (limit / width) as u128,
        None => {
            assert(height * width <= u64::MAX * u64::MAX) by (nonlinear_arith)
                requires
                    height <= u64::MAX,
                    width <= u64::MAX,
            ;
            (height as u128 * width as u128) / (tile_height as u128)
        },
    };
    assert(per_row == tiles_per_row(rows, tile_height as nat, limit_view(max_width)));
    assert(per_row * tile_height <= u64::MAX * u64::MAX && per_row * tile_height > 0)
        by (nonlinear_arith)
        requires
            0 < tile_height <= u64::MAX,
            0 < per_row,
            max_width is Some ==> per_row <= u64::MAX,
            max_width is None ==> per_row == (height * width) / (tile_height as int),
            height <= u64::MAX,
            width <= u64::MAX,
    ;
    let band_rows: u128 = per_row * (tile_height as u128);
    let mut mosaic: Vec<Vec<T>> = Vec::new();
    let mut start: usize = 0;
    assert(rows.skip(0) =~= rows);
    assert(grid_view(mosaic) + retile_bands(rows, tile_height as nat, band_rows as nat)
        =~= retile_bands(rows, tile_height as nat, band_rows as nat));
    while start < height
        invariant
            rows == grid_view(data),
            height == rows.len(),
            start <= height,
            tile_height > 0,
            band_rows > 0,
            grid_view(mosaic) + retile_bands(
                rows.skip(start as int),
                tile_height as nat,
                band_rows as nat,
            ) == retile_bands(rows, tile_height as nat, band_rows as nat),
        decreases height - start,
    {
        let end: usize = if ((height - start) as u128) <= band_rows {
            height
        } else {
            start + (band_rows as usize)
        };
        let ghost above = grid_view(mosaic);
        let ghost left = rows.skip(start as int);
        let mut band: Vec<Vec<T>> = concat_band(&data, start, end, tile_height);
        let ghost band_view = grid_view(band);
        mosaic.append(&mut band);
        proof {
            assert(grid_view(mosaic) =~= above + band_view);
            assert(rows.subrange(start as int, end as int) =~= left.take(end - start));
            if end == height {
                assert(left.take(end - start) =~= left);
                assert(rows.skip(end as int).len() == 0);
                assert(above + band_view + Seq::<Seq<T>>::empty() =~= above + band_view);
            } else {
                assert(left.skip(band_rows as int) =~= rows.skip(end as int));
                assert((above + band_view) + retile_bands(
                    rows.skip(end as int),
                    tile_height as nat,
                    band_rows as nat,
                ) =~= above + (band_view + retile_bands(
                    rows.skip(end as int),
                    tile_height as nat,
                    band_rows as nat,
                )));
            }
        }
        start = end;
    }
    proof {
        assert(rows.skip(start as int).len() == 0);
        assert(grid_view(mosaic) + Seq::<Seq<T>>::empty() =~= grid_view(mosaic));
        lemma_retile_keeps_cells(rows, tile_height as nat, limit_view(max_width));
    }
    mosaic
}

/// Lays out a grid of tiles as a mosaic of at most `MAX_WIDTH` cells in
/// width. The grid holds tiles of `tile_height` rows, one below the other,
/// each as wide as the grid.
pub fn tile<T: Copy>(data: Vec<Vec<T>>, tile_height: usize) -> (mosaic: Vec<Vec<T>>)
    requires
        can_retile(grid_view(data), tile_height as nat, Some(MAX_WIDTH as nat)),
    ensures
        grid_view(mosaic) == retile_spec(grid_view(data), tile_height as nat, Some(MAX_WIDTH as nat)),
        cells(grid_view(mosaic)) == cells(grid_view(data)),
{
    retile(data, tile_height, Some(MAX_WIDTH))
}

} // verus!
