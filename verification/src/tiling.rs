//! Re-tiling as a mathematical function on grids, and what it keeps.

use crate::grid::{cells, is_grid, lemma_row_bounds};
use vstd::arithmetic::div_mod::{lemma_fundamental_div_mod, lemma_fundamental_div_mod_converse, lemma_mod_bound};
use vstd::multiset::Multiset;
use vstd::prelude::*;
use vstd::seq_lib::lemma_multiset_commutative;

verus! {

/// Row `i` of the band that `tiles` make: the rows of `tiles` whose place
/// within their tile is `i`, joined in the order of the tiles. A tile is
/// `num_rows` rows high, so these are the rows `i`, `i + num_rows`,
/// `i + 2 * num_rows`, ... of `tiles`, as far as there are any.
pub open spec fn band_row<T>(tiles: Seq<Seq<T>>, i: int, num_rows: int) -> Seq<T>
    decreases tiles.len(),
{
    if tiles.len() == 0 {
        Seq::empty()
    } else if (tiles.len() - 1) % num_rows == i {
        band_row(tiles.drop_last(), i, num_rows) + tiles.last()
    } else {
        band_row(tiles.drop_last(), i, num_rows)
    }
}

/// One band of the mosaic. `tiles` holds tiles of `num_rows` rows each, one
/// below the other; the band holds them side by side: its row `i` is row
/// `i` of every tile, in the order of the tiles. A last tile that is cut
/// short adds nothing to the rows it lacks.
pub open spec fn concat_tiles_spec<T>(tiles: Seq<Seq<T>>, num_rows: nat) -> Seq<Seq<T>> {
    Seq::new(num_rows, |i: int| band_row(tiles, i, num_rows as int))
}

/// The mosaic of a grid whose rows are cut into groups of `band_rows` rows:
/// each group becomes one band of `tile_height` rows, and the bands stand
/// one below the other.
pub open spec fn retile_bands<T>(rows: Seq<Seq<T>>, tile_height: nat, band_rows: nat) -> Seq<
    Seq<T>,
>
    decreases rows.len(),
{
    if rows.len() == 0 || band_rows == 0 {
        Seq::empty()
    } else if rows.len() <= band_rows {
        concat_tiles_spec(rows, tile_height)
    } else {
        concat_tiles_spec(rows.take(band_rows as int), tile_height) + retile_bands(
            rows.skip(band_rows as int),
            tile_height,
            band_rows,
        )
    }
}

/// The number of tiles that stand side by side in one band: as many as fit
/// into `max_width` cells, a tile being as wide as the grid's first row;
/// without a limit, the number of cells of the grid divided by the tile
/// height.
pub open spec fn tiles_per_row<T>(rows: Seq<Seq<T>>, tile_height: nat, max_width: Option<nat>) -> nat {
    match max_width {
        Some(limit) => limit / rows[0].len(),
        None => (rows.len() * rows[0].len()) / tile_height,
    }
}

/// Whether a grid can be re-tiled: it has a first row, which is not empty
/// and gives the width of a tile; a tile is at least one row high; and at
/// least one tile fits into a band.
pub open spec fn can_retile<T>(rows: Seq<Seq<T>>, tile_height: nat, max_width: Option<nat>) -> bool {
    &&& tile_height > 0
    &&& rows.len() > 0
    &&& rows[0].len() > 0
    &&& tiles_per_row(rows, tile_height, max_width) > 0
}

/// The mosaic of a grid of tiles that are `tile_height` rows high, with as
/// many tiles in a band as `tiles_per_row` says.
pub open spec fn retile_spec<T>(rows: Seq<Seq<T>>, tile_height: nat, max_width: Option<nat>) -> Seq<
    Seq<T>,
> {
    retile_bands(rows, tile_height, tiles_per_row(rows, tile_height, max_width) * tile_height)
}

/// The cells of two grids, one below the other, are the cells of both.
pub proof fn lemma_cells_add<T>(above: Seq<Seq<T>>, below: Seq<Seq<T>>)
    ensures
        cells(above + below) == cells(above).add(cells(below)),
    decreases below.len(),
{
    if below.len() == 0 {
        assert(above + below =~= above);
        assert(cells(above).add(Multiset::empty()) =~= cells(above));
    } else {
        lemma_cells_add(above, below.drop_last());
        assert((above + below).drop_last() =~= above + below.drop_last());
        assert((above + below).last() == below.last());
        assert(cells(above).add(cells(below.drop_last())).add(below.last().to_multiset())
            =~= cells(above).add(cells(below.drop_last()).add(below.last().to_multiset())));
    }
}

/// A grid of empty rows has no cells.
pub proof fn lemma_cells_of_empty_rows<T>(rows: Seq<Seq<T>>)
    requires
        forall|r: int| 0 <= r < rows.len() ==> (#[trigger] rows[r]).len() == 0,
    ensures
        cells(rows) == Multiset::<T>::empty(),
    decreases rows.len(),
{
    if rows.len() > 0 {
        lemma_cells_of_empty_rows(rows.drop_last());
        assert(rows.last() =~= Seq::<T>::empty());
        assert(rows.last().to_multiset() =~= Multiset::<T>::empty()) by {
            broadcast use vstd::seq_lib::group_to_multiset_ensures;

            assert(rows.last().to_multiset().len() == 0);
        }
        assert(Multiset::<T>::empty().add(Multiset::<T>::empty()) =~= Multiset::<T>::empty());
    }
}

/// Lengthening one row of a grid adds the new cells to the grid's cells.
pub proof fn lemma_cells_append_to_row<T>(rows: Seq<Seq<T>>, i: int, extra: Seq<T>)
    requires
        0 <= i < rows.len(),
    ensures
        cells(rows.update(i, rows[i] + extra)) == cells(rows).add(extra.to_multiset()),
    decreases rows.len(),
{
    let longer = rows.update(i, rows[i] + extra);
    if i == rows.len() - 1 {
        assert(longer.drop_last() =~= rows.drop_last());
        lemma_multiset_commutative(rows[i], extra);
        assert(cells(rows.drop_last()).add(rows[i].to_multiset().add(extra.to_multiset()))
            =~= cells(rows.drop_last()).add(rows[i].to_multiset()).add(extra.to_multiset()));
    } else {
        lemma_cells_append_to_row(rows.drop_last(), i, extra);
        assert(longer.drop_last() =~= rows.drop_last().update(i, rows[i] + extra));
        assert(longer.last() == rows.last());
        assert(cells(rows.drop_last()).add(extra.to_multiset()).add(rows.last().to_multiset())
            =~= cells(rows.drop_last()).add(rows.last().to_multiset()).add(extra.to_multiset()));
    }
}

/// Putting one more row below the tiles lengthens one row of their band:
/// the row at the new row's place within its tile.
pub proof fn lemma_concat_tiles_push<T>(tiles: Seq<Seq<T>>, num_rows: nat)
    requires
        tiles.len() > 0,
        num_rows > 0,
    ensures
        ({
            let front = concat_tiles_spec(tiles.drop_last(), num_rows);
            let i = (tiles.len() - 1) % (num_rows as int);
            &&& 0 <= i < num_rows
            &&& concat_tiles_spec(tiles, num_rows) == front.update(i, front[i] + tiles.last())
        }),
{
    let front = concat_tiles_spec(tiles.drop_last(), num_rows);
    let i = (tiles.len() - 1) % (num_rows as int);
    assert(concat_tiles_spec(tiles, num_rows) =~= front.update(i, front[i] + tiles.last()));
}

/// A band holds the cells of its tiles, each as often as they do.
pub proof fn lemma_concat_tiles_keeps_cells<T>(tiles: Seq<Seq<T>>, num_rows: nat)
    requires
        num_rows > 0,
    ensures
        cells(concat_tiles_spec(tiles, num_rows)) == cells(tiles),
    decreases tiles.len(),
{
    if tiles.len() == 0 {
        lemma_cells_of_empty_rows(concat_tiles_spec(tiles, num_rows));
    } else {
        let front = concat_tiles_spec(tiles.drop_last(), num_rows);
        let i = (tiles.len() - 1) % (num_rows as int);
        lemma_concat_tiles_keeps_cells(tiles.drop_last(), num_rows);
        lemma_concat_tiles_push(tiles, num_rows);
        lemma_cells_append_to_row(front, i, tiles.last());
    }
}

/// The number of tiles, whole or cut short, among `len` rows that have a
/// row `i`, a tile being `num_rows` rows high.
pub open spec fn tiles_with_row(len: nat, i: int, num_rows: int) -> int {
    (len + num_rows - 1 - i) / num_rows
}

/// How the number of tiles that have a row `i` grows with one more row:
/// by one where the new row is a row `i`, and not at all where it is
/// another.
pub proof fn lemma_tiles_with_row_step(k: nat, i: int, num_rows: int)
    requires
        0 <= i < num_rows,
    ensures
        tiles_with_row(k, i, num_rows) >= 0,
        k % (num_rows as nat) == i ==> tiles_with_row(k, i, num_rows) == k / (num_rows as nat)
            && tiles_with_row(k + 1, i, num_rows) == k / (num_rows as nat) + 1 && (k / (
        num_rows as nat)) * num_rows + i == k,
        k % (num_rows as nat) != i ==> tiles_with_row(k + 1, i, num_rows) == tiles_with_row(
            k,
            i,
            num_rows,
        ),
{
    let n = num_rows;
    let q = (k as int) / n;
    let r = (k as int) % n;
    let m = k + n - 1 - i;
    lemma_fundamental_div_mod(k as int, n);
    lemma_mod_bound(k as int, n);
    lemma_fundamental_div_mod(m, n);
    lemma_mod_bound(m, n);
    assert(0 <= q) by (nonlinear_arith)
        requires
            k == n * q + r,
            0 <= r < n,
            0 <= k,
    ;
    if r == i {
        assert(m == q * n + (n - 1) && m + 1 == (q + 1) * n + 0 && q * n + i == k)
            by (nonlinear_arith)
            requires
                k == n * q + r,
                r == i,
                m == k + n - 1 - i,
        ;
        lemma_fundamental_div_mod_converse(m, n, q, n - 1);
        lemma_fundamental_div_mod_converse(m + 1, n, q + 1, 0);
    } else if r > i {
        assert(m == (q + 1) * n + (r - i - 1) && m + 1 == (q + 1) * n + (r - i))
            by (nonlinear_arith)
            requires
                k == n * q + r,
                m == k + n - 1 - i,
        ;
        lemma_fundamental_div_mod_converse(m, n, q + 1, r - i - 1);
        lemma_fundamental_div_mod_converse(m + 1, n, q + 1, r - i);
    } else {
        assert(m == q * n + (n - 1 - (i - r)) && m + 1 == q * n + (n - (i - r)))
            by (nonlinear_arith)
            requires
                k == n * q + r,
                m == k + n - 1 - i,
        ;
        lemma_fundamental_div_mod_converse(m, n, q, n - 1 - (i - r));
        lemma_fundamental_div_mod_converse(m + 1, n, q, n - (i - r));
    }
}

/// Row `i` of the band of tiles that are `width` cells wide holds `width`
/// cells for each tile that has a row `i`.
pub proof fn lemma_band_row_len<T>(tiles: Seq<Seq<T>>, i: int, num_rows: int, width: nat)
    requires
        0 <= i < num_rows,
        is_grid(tiles, width),
    ensures
        band_row(tiles, i, num_rows).len() == tiles_with_row(tiles.len(), i, num_rows) * width,
    decreases tiles.len(),
{
    if tiles.len() == 0 {
        lemma_fundamental_div_mod_converse(num_rows - 1 - i, num_rows, 0, num_rows - 1 - i);
        assert(tiles_with_row(0, i, num_rows) == 0);
        assert(0 * width == 0);
    } else {
        let k = (tiles.len() - 1) as nat;
        let before = tiles_with_row(k, i, num_rows);
        lemma_band_row_len(tiles.drop_last(), i, num_rows, width);
        lemma_tiles_with_row_step(k, i, num_rows);
        if k % (num_rows as nat) == i {
            assert((before + 1) * width == before * width + width) by (nonlinear_arith);
        }
    }
}

/// Cell `t * width + c` of row `i` of the band of tiles that are `width`
/// cells wide is cell `c` of row `i` of tile `t`, which is row
/// `t * num_rows + i` of the tiles.
pub proof fn lemma_band_row_cell<T>(
    tiles: Seq<Seq<T>>,
    i: int,
    num_rows: int,
    width: nat,
    t: int,
    c: int,
)
    requires
        0 <= i < num_rows,
        is_grid(tiles, width),
        0 <= t < tiles_with_row(tiles.len(), i, num_rows),
        0 <= c < width,
    ensures
        0 <= t * num_rows + i < tiles.len(),
        0 <= t * width + c < band_row(tiles, i, num_rows).len(),
        band_row(tiles, i, num_rows)[t * width + c] == tiles[t * num_rows + i][c],
    decreases tiles.len(),
{
    lemma_band_row_len(tiles, i, num_rows, width);
    lemma_row_bounds(t, width as int, tiles_with_row(tiles.len(), i, num_rows));
    if tiles.len() == 0 {
    } else {
        let k = (tiles.len() - 1) as nat;
        let front = tiles.drop_last();
        let before = tiles_with_row(k, i, num_rows);
        lemma_tiles_with_row_step(k, i, num_rows);
        lemma_band_row_len(front, i, num_rows, width);
        if t < before {
            lemma_band_row_cell(front, i, num_rows, width, t, c);
            lemma_row_bounds(t, width as int, before);
        } else {
            assert(t == before);
            assert(k % (num_rows as nat) == i);
            assert(t * num_rows + i == k);
            assert(band_row(tiles, i, num_rows) == band_row(front, i, num_rows) + tiles.last());
        }
    }
}

/// A band of whole tiles of a rectangular grid is rectangular: as wide as
/// its tiles together.
pub proof fn lemma_concat_tiles_grid<T>(tiles: Seq<Seq<T>>, num_rows: nat, width: nat)
    requires
        num_rows > 0,
        is_grid(tiles, width),
        tiles.len() % num_rows == 0,
    ensures
        concat_tiles_spec(tiles, num_rows).len() == num_rows,
        is_grid(concat_tiles_spec(tiles, num_rows), (tiles.len() / num_rows) * width),
{
    let n = num_rows as int;
    let q = (tiles.len() / num_rows) as int;
    lemma_fundamental_div_mod(tiles.len() as int, n);
    assert forall|i: int| 0 <= i < num_rows implies (#[trigger] concat_tiles_spec(
        tiles,
        num_rows,
    )[i]).len() == q * width by {
        lemma_band_row_len(tiles, i, n, width);
        assert(tiles.len() + n - 1 - i == q * n + (n - 1 - i)) by (nonlinear_arith)
            requires
                tiles.len() == n * q,
        ;
        lemma_fundamental_div_mod_converse(tiles.len() + n - 1 - i, n, q, n - 1 - i);
    }
}

/// The mosaic of a rectangular grid that fills whole bands of whole tiles
/// is rectangular: each band is as wide as the tiles of a band together
/// and as high as a tile.
pub proof fn lemma_retile_bands_grid<T>(
    rows: Seq<Seq<T>>,
    tile_height: nat,
    band_rows: nat,
    width: nat,
)
    requires
        tile_height > 0,
        band_rows > 0,
        band_rows % tile_height == 0,
        rows.len() % band_rows == 0,
        is_grid(rows, width),
    ensures
        retile_bands(rows, tile_height, band_rows).len() == (rows.len() / band_rows)
            * tile_height,
        is_grid(retile_bands(rows, tile_height, band_rows), (band_rows / tile_height) * width),
    decreases rows.len(),
{
    let bands = (rows.len() / band_rows) as int;
    lemma_fundamental_div_mod(rows.len() as int, band_rows as int);
    if rows.len() == 0 {
        vstd::arithmetic::div_mod::lemma_div_basics(band_rows as int);
        assert(0 * tile_height == 0);
    } else {
        assert(bands >= 1 && rows.len() >= band_rows) by (nonlinear_arith)
            requires
                rows.len() == band_rows * bands,
                rows.len() > 0,
                band_rows > 0,
        ;
        let band = rows.take(band_rows as int);
        let rest = rows.skip(band_rows as int);
        lemma_concat_tiles_grid(band, tile_height, width);
        if rows.len() == band_rows {
            assert(band =~= rows);
            assert(bands == 1) by (nonlinear_arith)
                requires
                    rows.len() == band_rows * bands,
                    rows.len() == band_rows,
                    band_rows > 0,
            ;
            assert(1 * tile_height == tile_height);
        } else {
            assert(rest.len() == band_rows * (bands - 1)) by (nonlinear_arith)
                requires
                    rows.len() == band_rows * bands,
                    rest.len() == rows.len() - band_rows,
            ;
            lemma_fundamental_div_mod_converse(
                rest.len() as int,
                band_rows as int,
                bands - 1,
                0,
            );
            lemma_retile_bands_grid(rest, tile_height, band_rows, width);
            assert((bands - 1) * tile_height + tile_height == bands * tile_height)
                by (nonlinear_arith);
        }
    }
}

/// Re-tiling moves cells and neither drops nor adds one: the mosaic holds
/// the cells of the grid, each as often as the grid does.
pub proof fn lemma_retile_bands_keeps_cells<T>(
    rows: Seq<Seq<T>>,
    tile_height: nat,
    band_rows: nat,
)
    requires
        tile_height > 0,
        band_rows > 0,
    ensures
        cells(retile_bands(rows, tile_height, band_rows)) == cells(rows),
    decreases rows.len(),
{
    if rows.len() == 0 {
    } else if rows.len() <= band_rows {
        lemma_concat_tiles_keeps_cells(rows, tile_height);
    } else {
        let band = rows.take(band_rows as int);
        let rest = rows.skip(band_rows as int);
        lemma_concat_tiles_keeps_cells(band, tile_height);
        lemma_retile_bands_keeps_cells(rest, tile_height, band_rows);
        lemma_cells_add(
            concat_tiles_spec(band, tile_height),
            retile_bands(rest, tile_height, band_rows),
        );
        lemma_cells_add(band, rest);
        assert(band + rest =~= rows);
    }
}

/// Re-tiling is a rearrangement: for every tile height of at least one row
/// and every width limit that lets at least one tile into a band, the
/// mosaic holds the cells of the grid, each as often as the grid does.
pub proof fn lemma_retile_keeps_cells<T>(
    rows: Seq<Seq<T>>,
    tile_height: nat,
    max_width: Option<nat>,
)
    requires
        tile_height > 0,
        tiles_per_row(rows, tile_height, max_width) > 0,
    ensures
        cells(retile_spec(rows, tile_height, max_width)) == cells(rows),
{
    let per_row = tiles_per_row(rows, tile_height, max_width);
    assert(per_row * tile_height > 0) by (nonlinear_arith)
        requires
            per_row > 0,
            tile_height > 0,
    ;
    lemma_retile_bands_keeps_cells(rows, tile_height, per_row * tile_height);
}

} // verus!
