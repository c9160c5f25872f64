//! The packed 4-colour format as one stream of pixels, and the tiling of
//! such a stream.

use crate::parser::{cga_pixels, CGA};
use vstd::arithmetic::div_mod::{
    lemma_fundamental_div_mod, lemma_fundamental_div_mod_converse, lemma_mod_bound, lemma_mod_mod,
};
use vstd::prelude::*;

verus! {

/// The width of the mosaic where none is given.
pub const DEFAULT_MAX_WIDTH: usize = 320;

/// The measures of a mosaic of tiles.
pub struct TileGeometry {
    /// The width of a tile, in pixels.
    pub tile_width: nat,
    /// The height of a tile, in pixels.
    pub tile_height: nat,
    /// The width of the mosaic, in pixels.
    pub max_width: nat,
    /// The number of tiles that fit side by side into the mosaic.
    pub tiles_per_row: nat,
    /// The number of pixels of a tile.
    pub pixel_per_tile: nat,
    /// The number of whole tiles in the stream.
    pub num_tiles: nat,
    /// The number of rows of tiles in the mosaic.
    pub tile_rows: nat,
}

/// The measures of the mosaic of a stream of `pixel_count` pixels. Without
/// a tile height, the stream is one tile; without a width, the mosaic is
/// 320 pixels wide.
pub open spec fn geometry(
    pixel_count: nat,
    tile_width: nat,
    tile_height: Option<nat>,
    max_width: Option<nat>,
) -> TileGeometry {
    let tile_height = match tile_height {
        Some(height) => height,
        None => pixel_count / tile_width,
    };
    let max_width = match max_width {
        Some(width) => width,
        None => DEFAULT_MAX_WIDTH as nat,
    };
    let tiles_per_row = max_width / tile_width;
    let pixel_per_tile = tile_width * tile_height;
    let num_tiles = pixel_count / pixel_per_tile;
    TileGeometry {
        tile_width,
        tile_height,
        max_width,
        tiles_per_row,
        pixel_per_tile,
        num_tiles,
        tile_rows: num_tiles / tiles_per_row + if num_tiles % tiles_per_row != 0 {
            1nat
        } else {
            0nat
        },
    }
}

/// The place in the mosaic of pixel `i` of the stream. The mosaic is
/// `max_width` pixels wide and stored row after row; the tiles of
/// `pixel_per_tile` pixels, each `tile_width` wide and `tile_height` high,
/// stand in it from left to right, `tiles_per_row` in a row, and the rows
/// of tiles from top to bottom.
pub open spec fn flat_index(
    i: int,
    pixel_per_tile: int,
    tile_width: int,
    tile_height: int,
    max_width: int,
    tiles_per_row: int,
) -> int {
    let pixel_num = i % pixel_per_tile;
    let tile_num = i / pixel_per_tile;
    i % tile_width + (pixel_num / tile_width) * max_width + (tile_num % tiles_per_row) * tile_width
        + (tile_num / tiles_per_row) * tile_height * max_width
}

impl TileGeometry {
    /// The measures fit together: tiles have pixels, at least one fits
    /// into the width of the mosaic, and the numbers derived from these
    /// are the derived ones.
    pub open spec fn wf(self) -> bool {
        &&& self.tile_width > 0
        &&& self.tile_height > 0
        &&& self.tiles_per_row > 0
        &&& self.tiles_per_row == self.max_width / self.tile_width
        &&& self.pixel_per_tile == self.tile_width * self.tile_height
        &&& self.tile_rows == self.num_tiles / self.tiles_per_row + if self.num_tiles
            % self.tiles_per_row != 0 {
            1nat
        } else {
            0nat
        }
    }

    /// The mosaic has room for a stream of `pixel_count` pixels: the stream
    /// ends with a whole tile, or the pixels after the last whole tile
    /// find a place in the last row of tiles.
    pub open spec fn holds(self, pixel_count: nat) -> bool {
        &&& self.wf()
        &&& self.num_tiles == pixel_count / self.pixel_per_tile
        &&& (pixel_count % self.pixel_per_tile == 0 || self.num_tiles % self.tiles_per_row != 0)
    }

    /// The number of pixels of the mosaic.
    pub open spec fn output_len(self) -> nat {
        self.max_width * self.tile_rows * self.tile_height
    }

    /// The place in the mosaic of pixel `i` of the stream.
    pub open spec fn index(self, i: int) -> int {
        flat_index(
            i,
            self.pixel_per_tile as int,
            self.tile_width as int,
            self.tile_height as int,
            self.max_width as int,
            self.tiles_per_row as int,
        )
    }

    /// The row of tiles that pixel `i` of the stream falls into.
    pub open spec fn band(self, i: int) -> int {
        (i / self.pixel_per_tile as int) / self.tiles_per_row as int
    }

    /// The row within its tile of pixel `i` of the stream.
    pub open spec fn row(self, i: int) -> int {
        (i % self.pixel_per_tile as int) / self.tile_width as int
    }

    /// The column in the mosaic of pixel `i` of the stream.
    pub open spec fn column(self, i: int) -> int {
        ((i / self.pixel_per_tile as int) % self.tiles_per_row as int) * self.tile_width + i
            % self.tile_width as int
    }

    /// The place of a pixel is its column in its row of the mosaic: the
    /// row within the tile, below the rows of the tiles above.
    pub proof fn lemma_index_parts(self, i: int)
        requires
            self.wf(),
            0 <= i,
        ensures
            self.index(i) == (self.band(i) * self.tile_height + self.row(i)) * self.max_width
                + self.column(i),
            0 <= self.band(i),
            0 <= self.row(i) < self.tile_height,
            0 <= self.column(i) < self.max_width,
            i == ((self.band(i) * self.tiles_per_row + (self.column(i) / self.tile_width as int))
                * self.pixel_per_tile) + self.row(i) * self.tile_width + self.column(i)
                % self.tile_width as int,
    {
        let tw = self.tile_width as int;
        let th = self.tile_height as int;
        let mw = self.max_width as int;
        let tpr = self.tiles_per_row as int;
        let ppt = self.pixel_per_tile as int;
        assert(ppt > 0) by (nonlinear_arith)
            requires
                ppt == tw * th,
                tw > 0,
                th > 0,
        ;
        let t = i / ppt;
        let p = i % ppt;
        let band = t / tpr;
        let tc = t % tpr;
        let row = p / tw;
        let col = i % tw;
        lemma_fundamental_div_mod(i, ppt);
        lemma_fundamental_div_mod(t, tpr);
        lemma_fundamental_div_mod(p, tw);
        lemma_fundamental_div_mod(mw, tw);
        lemma_mod_bound(i, ppt);
        lemma_mod_bound(t, tpr);
        lemma_mod_bound(p, tw);
        lemma_mod_bound(i, tw);
        lemma_mod_bound(mw, tw);
        lemma_mod_mod(i, tw, th);
        assert(p % tw == col);
        assert(0 <= t && 0 <= band && 0 <= row) by (nonlinear_arith)
            requires
                0 <= i,
                ppt > 0,
                tpr > 0,
                tw > 0,
                0 <= p,
                t == i / ppt,
                band == t / tpr,
                row == p / tw,
        ;
        assert(row < th) by (nonlinear_arith)
            requires
                p == tw * row + col,
                0 <= col,
                p < ppt,
                ppt == tw * th,
                tw > 0,
        ;
        assert(tc * tw + col < mw) by (nonlinear_arith)
            requires
                0 <= tc < tpr,
                0 <= col < tw,
                mw == tw * tpr + mw % tw,
                0 <= mw % tw,
        ;
        assert(0 <= tc * tw) by (nonlinear_arith)
            requires
                0 <= tc,
                0 < tw,
        ;
        assert(self.index(i) == (band * th + row) * mw + (tc * tw + col)) by (nonlinear_arith)
            requires
                self.index(i) == col + row * mw + tc * tw + band * th * mw,
        ;
        lemma_fundamental_div_mod_converse(tc * tw + col, tw, tc, col);
        assert(i == ((band * tpr + tc) * ppt) + row * tw + col) by (nonlinear_arith)
            requires
                i == ppt * t + p,
                t == tpr * band + tc,
                p == tw * row + col,
        ;
    }

    /// No two pixels of the stream have the same place in the mosaic.
    pub proof fn lemma_index_injective(self, i: int, j: int)
        requires
            self.wf(),
            0 <= i,
            0 <= j,
            self.index(i) == self.index(j),
        ensures
            i == j,
    {
        let th = self.tile_height as int;
        let mw = self.max_width as int;
        self.lemma_index_parts(i);
        self.lemma_index_parts(j);
        lemma_fundamental_div_mod_converse(
            self.index(i),
            mw,
            self.band(i) * th + self.row(i),
            self.column(i),
        );
        lemma_fundamental_div_mod_converse(
            self.index(j),
            mw,
            self.band(j) * th + self.row(j),
            self.column(j),
        );
        let lines = self.band(i) * th + self.row(i);
        lemma_fundamental_div_mod_converse(lines, th, self.band(i), self.row(i));
        lemma_fundamental_div_mod_converse(lines, th, self.band(j), self.row(j));
    }

    /// Every pixel of a stream that the mosaic has room for has its place
    /// inside the mosaic.
    pub proof fn lemma_index_bound(self, pixel_count: nat, i: int)
        requires
            self.holds(pixel_count),
            0 <= i < pixel_count,
        ensures
            0 <= self.index(i) < self.output_len(),
    {
        let tw = self.tile_width as int;
        let th = self.tile_height as int;
        let mw = self.max_width as int;
        let tpr = self.tiles_per_row as int;
        let ppt = self.pixel_per_tile as int;
        let nt = self.num_tiles as int;
        let rows = self.tile_rows as int;
        let n = pixel_count as int;
        self.lemma_index_parts(i);
        assert(ppt > 0) by (nonlinear_arith)
            requires
                ppt == tw * th,
                tw > 0,
                th > 0,
        ;
        let t = i / ppt;
        let band = self.band(i);
        lemma_fundamental_div_mod(i, ppt);
        lemma_fundamental_div_mod(n, ppt);
        lemma_fundamental_div_mod(t, tpr);
        lemma_fundamental_div_mod(nt, tpr);
        lemma_mod_bound(i, ppt);
        lemma_mod_bound(n, ppt);
        lemma_mod_bound(t, tpr);
        lemma_mod_bound(nt, tpr);
        assert(t <= nt && (n % ppt == 0 ==> t < nt)) by (nonlinear_arith)
            requires
                i == ppt * t + i % ppt,
                n == ppt * nt + n % ppt,
                0 <= i % ppt < ppt,
                0 <= n % ppt < ppt,
                i < n,
                ppt > 0,
        ;
        assert(band < rows) by (nonlinear_arith)
            requires
                t == tpr * band + t % tpr,
                nt == tpr * (nt / tpr) + nt % tpr,
                0 <= t % tpr < tpr,
                0 <= nt % tpr < tpr,
                t <= nt,
                nt % tpr == 0 ==> t < nt,
                rows == nt / tpr + (if nt % tpr != 0 { 1int } else { 0int }),
                tpr > 0,
        ;
        assert(self.index(i) < mw * rows * th) by (nonlinear_arith)
            requires
                self.index(i) == (band * th + self.row(i)) * mw + self.column(i),
                0 <= band < rows,
                0 <= self.row(i) < th,
                0 <= self.column(i) < mw,
        ;
        assert(0 <= self.index(i)) by (nonlinear_arith)
            requires
                self.index(i) == (band * th + self.row(i)) * mw + self.column(i),
                0 <= band,
                0 <= self.row(i),
                0 < th,
                0 <= self.column(i) < mw,
        ;
    }
}

/// The pixels of a buffer in the packed 4-colour format, in stream order.
pub fn palette_indices(buffer: &[u8]) -> (indices: Vec<u8>)
    ensures
        indices@ == cga_pixels(buffer@),
{
    CGA.words_to_bytes(buffer)
}

/// Lays out a stream of pixels that holds one tile after the other as a
/// mosaic: each pixel at its place, and 0 at the places that no pixel
/// has. The mosaic must have room for the stream, and its pixels must be
/// countable.
pub fn tile(
    buffer: &[u8],
    tile_width: usize,
    tile_height: Option<usize>,
    max_width: Option<usize>,
) -> (output: Vec<u8>)
    requires
        tile_width > 0,
        geometry(
            buffer@.len(),
            tile_width as nat,
            crate::image::limit_view(tile_height),
            crate::image::limit_view(max_width),
        ).holds(buffer@.len()),
        geometry(
            buffer@.len(),
            tile_width as nat,
            crate::image::limit_view(tile_height),
            crate::image::limit_view(max_width),
        ).output_len() <= usize::MAX,
    ensures
        ({
            let g = geometry(
                buffer@.len(),
                tile_width as nat,
                crate::image::limit_view(tile_height),
                crate::image::limit_view(max_width),
            );
            &&& output@.len() == g.output_len()
            &&& forall|i: int| 0 <= i < buffer@.len() ==> output@[g.index(i)] == #[trigger] buffer@[i]
            &&& forall|k: int|
                0 <= k < output@.len() && (forall|i: int|
                    0 <= i < buffer@.len() ==> #[trigger] g.index(i) != k) ==> #[trigger] output@[k]
                    == 0
        }),
{
    let ghost g = geometry(
        buffer@.len(),
        tile_width as nat,
        crate::image::limit_view(tile_height),
        crate::image::limit_view(max_width),
    );
    let pixel_count: usize = buffer.len();
    let mut output: Vec<u8> = Vec::new();
    if pixel_count == 0 {
        proof {
            assert(g.pixel_per_tile > 0) by (nonlinear_arith)
                requires
                    g.pixel_per_tile == g.tile_width * g.tile_height,
                    g.tile_width > 0,
                    g.tile_height > 0,
            ;
            vstd::arithmetic::div_mod::lemma_div_basics(g.pixel_per_tile as int);
            vstd::arithmetic::div_mod::lemma_div_basics(g.tiles_per_row as int);
            vstd::arithmetic::div_mod::lemma_small_mod(0, g.tiles_per_row);
        }
        assert(g.output_len() == 0) by (nonlinear_arith)
            requires
                g.output_len() == g.max_width * g.tile_rows * g.tile_height,
                g.tile_rows == 0,
        ;
        return output;
    }
    let tile_height: usize = match tile_height {
        Some(height) => height,
        None => pixel_count / tile_width,
    };
    let max_width: usize = match max_width {
        Some(width) => width,
        None => DEFAULT_MAX_WIDTH,
    };
    let tiles_per_row: usize = max_width / tile_width;
    proof {
        let ppt = g.pixel_per_tile as int;
        assert(ppt > 0) by (nonlinear_arith)
            requires
                ppt == g.tile_width * g.tile_height,
                g.tile_width > 0,
                g.tile_height > 0,
        ;
        lemma_fundamental_div_mod(pixel_count as int, ppt);
        lemma_mod_bound(pixel_count as int, ppt);
        if g.num_tiles == 0 {
            vstd::arithmetic::div_mod::lemma_small_mod(0, g.tiles_per_row);
            assert(ppt * 0 == 0);
        }
        let rest = (pixel_count as int) % ppt;
        assert(ppt <= pixel_count) by (nonlinear_arith)
            requires
                pixel_count == ppt * g.num_tiles + rest,
                rest >= 0,
                g.num_tiles >= 1,
                ppt > 0,
        ;
    }
    let pixel_per_tile: usize = tile_width * tile_height;
    let num_tiles: usize = pixel_count / pixel_per_tile;
    proof {
        lemma_fundamental_div_mod(max_width as int, tile_width as int);
        lemma_mod_bound(max_width as int, tile_width as int);
        let spare = (max_width as int) % (tile_width as int);
        assert(max_width > 0) by (nonlinear_arith)
            requires
                max_width == tile_width * tiles_per_row + spare,
                spare >= 0,
                tile_width > 0,
                tiles_per_row > 0,
        ;
        assert(g.tile_rows <= g.max_width * g.tile_rows * g.tile_height && g.max_width
            * g.tile_rows <= g.max_width * g.tile_rows * g.tile_height) by (nonlinear_arith)
            requires
                g.tile_height >= 1,
                g.max_width >= 1,
                g.tile_rows >= 0,
        ;
    }
    let tile_rows: usize = if num_tiles % tiles_per_row != 0 {
        num_tiles / tiles_per_row + 1
    } else {
        num_tiles / tiles_per_row
    };
    let size: usize = max_width * tile_rows * tile_height;
    while output.len() < size
        invariant
            output@.len() <= size,
            forall|k: int| 0 <= k < output@.len() ==> output@[k] == 0,
        decreases size - output@.len(),
    {
        output.push(0);
    }
    proof {
        assert forall|j: int| 0 <= j < pixel_count implies 0 <= #[trigger] g.index(j) < size by {
            g.lemma_index_bound(buffer@.len(), j);
        }
    }
    let mut i: usize = 0;
    while i < pixel_count
        invariant
            i <= pixel_count,
            pixel_count == buffer@.len(),
            pixel_per_tile > 0,
            tile_width > 0,
            tiles_per_row > 0,
            forall|j: int| 0 <= j < pixel_count ==> 0 <= #[trigger] g.index(j) < size,
            g.holds(buffer@.len()),
            g.pixel_per_tile == pixel_per_tile,
            g.tile_width == tile_width,
            g.tile_height == tile_height,
            g.max_width == max_width,
            g.tiles_per_row == tiles_per_row,
            max_width > 0,
            output@.len() == size,
            size == g.output_len(),
            forall|j: int| 0 <= j < i ==> output@[g.index(j)] == #[trigger] buffer@[j],
            forall|k: int|
                0 <= k < output@.len() && (forall|j: int| 0 <= j < i ==> #[trigger] g.index(j) != k)
                    ==> #[trigger] output@[k] == 0,
        decreases pixel_count - i,
    {
        proof {
            assert(0 <= g.index(i as int) < size);
            assert forall|j: int| 0 <= j < i implies #[trigger] g.index(j) != g.index(i as int) by {
                if g.index(j) == g.index(i as int) {
                    g.lemma_index_injective(j, i as int);
                }
            }
        }
        let at: usize = new_index(
            i,
            pixel_per_tile,
            tile_width,
            tile_height,
            max_width,
            tiles_per_row,
        );
        let ghost before = output@;
        output.set(at, buffer[i]);
        proof {
            assert forall|j: int| 0 <= j < i + 1 implies output@[g.index(j)] == #[trigger] buffer@[j] by {
                if j < i {
                    assert(g.index(j) != at);
                    assert(before[g.index(j)] == buffer@[j]);
                }
            }
            assert forall|k: int|
                0 <= k < output@.len() && (forall|j: int|
                    0 <= j < i + 1 ==> #[trigger] g.index(j) != k) implies #[trigger] output@[k]
                == 0 by {
                assert(g.index(i as int) != k);
                assert(forall|j: int| 0 <= j < i ==> #[trigger] g.index(j) != k);
                assert(before[k] == 0);
            }
        }
        i += 1;
    }
    output
}

/// The place in the mosaic of pixel `i` of the stream, which must fit in
/// `usize`. Tiles have pixels, at least one fits into the width of the
/// mosaic, and the mosaic has a width.
pub fn new_index(
    i: usize,
    pixel_per_tile: usize,
    tile_width: usize,
    tile_height: usize,
    max_width: usize,
    tiles_per_row: usize,
) -> (index: usize)
    requires
        pixel_per_tile > 0,
        tile_width > 0,
        tiles_per_row > 0,
        max_width > 0,
        flat_index(
            i as int,
            pixel_per_tile as int,
            tile_width as int,
            tile_height as int,
            max_width as int,
            tiles_per_row as int,
        ) <= usize::MAX,
    ensures
        index == flat_index(
            i as int,
            pixel_per_tile as int,
            tile_width as int,
            tile_height as int,
            max_width as int,
            tiles_per_row as int,
        ),
{
    let pixel_num: usize = i % pixel_per_tile;
    let tile_num: usize = i / pixel_per_tile;
    proof {
        let a = (tile_num / tiles_per_row) as int;
        let b = (tile_num % tiles_per_row) as int;
        let c = (pixel_num / tile_width) as int;
        assert(0 <= c * max_width && 0 <= b * tile_width && 0 <= a * tile_height <= a * tile_height
            * max_width) by (nonlinear_arith)
            requires
                0 <= a,
                0 <= b,
                0 <= c,
                0 < max_width,
                0 < tile_width,
                0 <= tile_height,
        ;
    }
    let col: usize = i % tile_width;
    let row: usize = (pixel_num / tile_width) * max_width;
    let tile_col: usize = (tile_num % tiles_per_row) * tile_width;
    let tile_row: usize = (tile_num / tiles_per_row) * tile_height * max_width;
    col + row + tile_col + tile_row
}

} // verus!
