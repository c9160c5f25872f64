//! The pixel grid as a mathematical value: a sequence of rows, each a
//! sequence of cells.

use vstd::multiset::Multiset;
use vstd::prelude::*;

verus! {

/// The rows of an executable grid, each as a sequence of cells.
pub open spec fn grid_view<T>(grid: Vec<Vec<T>>) -> Seq<Seq<T>> {
    Seq::new(grid@.len(), |r: int| grid@[r]@)
}

/// `rows` is rectangular: every row holds `width` cells.
pub open spec fn is_grid<T>(rows: Seq<Seq<T>>, width: nat) -> bool {
    forall|r: int| 0 <= r < rows.len() ==> (#[trigger] rows[r]).len() == width
}

/// Every cell of `rows` is a palette index below `palette_length`.
pub open spec fn within_palette(rows: Seq<Seq<u8>>, palette_length: nat) -> bool {
    forall|r: int, c: int|
        0 <= r < rows.len() && 0 <= c < rows[r].len() ==> (#[trigger] rows[r][c]) < palette_length
}

/// The rows of width `width` that `flat` splits into, in order. Cells after
/// the last full row are left out.
pub open spec fn chunked<T>(flat: Seq<T>, width: nat) -> Seq<Seq<T>>
    recommends
        width > 0,
{
    Seq::new(
        flat.len() / width,
        |r: int| flat.subrange(r * width as int, (r + 1) * width as int),
    )
}

/// All cells of `rows`, each as often as it occurs.
pub open spec fn cells<T>(rows: Seq<Seq<T>>) -> Multiset<T>
    decreases rows.len(),
{
    if rows.len() == 0 {
        Multiset::empty()
    } else {
        cells(rows.drop_last()).add(rows.last().to_multiset())
    }
}

/// Bounds of row `r` inside a flat sequence that holds `height` rows of
/// `width` cells.
pub proof fn lemma_row_bounds(r: int, width: int, height: int)
    requires
        0 <= r < height,
        0 <= width,
    ensures
        0 <= r * width,
        r * width + width == (r + 1) * width,
        (r + 1) * width <= height * width,
{
    assert(0 <= r * width) by (nonlinear_arith)
        requires
            0 <= r,
            0 <= width,
    ;
    assert(r * width + width == (r + 1) * width) by (nonlinear_arith);
    assert((r + 1) * width <= height * width) by (nonlinear_arith)
        requires
            r + 1 <= height,
            0 <= width,
    ;
}

/// A sequence whose length is a multiple of `width` splits into rows of
/// exactly `width` cells that use it up, and cell `c` of row `r` is cell
/// `r * width + c` of the sequence.
pub proof fn lemma_chunked_cells<T>(flat: Seq<T>, width: nat)
    requires
        width > 0,
        flat.len() % width == 0,
    ensures
        chunked(flat, width).len() * width == flat.len(),
        is_grid(chunked(flat, width), width),
        forall|r: int, c: int|
            0 <= r < chunked(flat, width).len() && 0 <= c < width ==> #[trigger] chunked(
                flat,
                width,
            )[r][c] == flat[r * width + c],
{
    let height = flat.len() / width;
    assert(chunked(flat, width).len() == height);
    assert(height * width == flat.len()) by (nonlinear_arith)
        requires
            width > 0,
            flat.len() % width == 0,
            height == flat.len() / width,
    ;
    assert forall|r: int| 0 <= r < height implies (#[trigger] chunked(flat, width)[r]).len()
        == width by {
        lemma_row_bounds(r, width as int, height as int);
    }
    assert forall|r: int, c: int| 0 <= r < height && 0 <= c < width implies #[trigger] chunked(
        flat,
        width,
    )[r][c] == flat[r * width + c] by {
        lemma_row_bounds(r, width as int, height as int);
    }
}

/// The cells of a rectangular grid, row after row, are `rows.len() * width`
/// many, and cell `c` of row `r` is the one at `r * width + c`.
pub proof fn lemma_flatten_grid<T>(rows: Seq<Seq<T>>, width: nat)
    requires
        is_grid(rows, width),
    ensures
        rows.flatten().len() == rows.len() * width,
        forall|r: int, c: int|
            0 <= r < rows.len() && 0 <= c < width ==> #[trigger] rows[r][c] == rows.flatten()[r
                * width + c],
    decreases rows.len(),
{
    if rows.len() == 0 {
        assert(rows.len() * width == 0) by (nonlinear_arith)
            requires
                rows.len() == 0,
        ;
    } else {
        let front = rows.drop_last();
        lemma_flatten_grid(front, width);
        front.lemma_flatten_push(rows.last());
        assert(front.push(rows.last()) =~= rows);
        assert(rows.flatten() == front.flatten() + rows.last());
        assert(rows.len() * width == front.len() * width + width) by (nonlinear_arith)
            requires
                rows.len() == front.len() + 1,
        ;
        assert forall|r: int, c: int| 0 <= r < rows.len() && 0 <= c < width implies #[trigger] rows[r][c]
            == rows.flatten()[r * width + c] by {
            lemma_row_bounds(r, width as int, rows.len() as int);
            if r < front.len() {
                lemma_row_bounds(r, width as int, front.len() as int);
                assert(front[r][c] == front.flatten()[r * width + c]);
            } else {
                assert(r * width == front.len() * width);
            }
        }
    }
}

/// Splitting the cells of a rectangular grid into rows of its width gives
/// the grid back.
pub proof fn lemma_chunked_flatten<T>(rows: Seq<Seq<T>>, width: nat)
    requires
        width > 0,
        is_grid(rows, width),
    ensures
        chunked(rows.flatten(), width) == rows,
{
    let flat = rows.flatten();
    lemma_flatten_grid(rows, width);
    assert(flat.len() % width == 0 && flat.len() / width == rows.len()) by (nonlinear_arith)
        requires
            flat.len() == rows.len() * width,
            width > 0,
    ;
    lemma_chunked_cells(flat, width);
    assert forall|r: int| 0 <= r < rows.len() implies #[trigger] chunked(flat, width)[r]
        == rows[r] by {
        assert forall|c: int| 0 <= c < width implies chunked(flat, width)[r][c] == rows[r][c] by {
            assert(rows[r][c] == flat[r * width + c]);
        }
        assert(chunked(flat, width)[r] =~= rows[r]);
    }
    assert(chunked(flat, width) =~= rows);
}

/// The rows that a sequence splits into, put one after the other, give the
/// sequence back, where its length is a multiple of the width.
pub proof fn lemma_flatten_chunked<T>(flat: Seq<T>, width: nat)
    requires
        width > 0,
        flat.len() % width == 0,
    ensures
        chunked(flat, width).flatten() == flat,
{
    let rows = chunked(flat, width);
    lemma_chunked_cells(flat, width);
    lemma_flatten_grid(rows, width);
    assert forall|k: int| 0 <= k < flat.len() implies rows.flatten()[k] == flat[k] by {
        let r = k / width as int;
        let c = k % width as int;
        vstd::arithmetic::div_mod::lemma_fundamental_div_mod(k, width as int);
        assert(width * r == r * width) by (nonlinear_arith);
        assert(0 <= r < rows.len()) by (nonlinear_arith)
            requires
                0 <= k < rows.len() * width,
                r == k / width as int,
                width > 0,
        ;
        assert(rows[r][c] == rows.flatten()[r * width + c]);
        assert(rows[r][c] == flat[r * width + c]);
    }
    assert(rows.flatten() =~= flat);
}

} // verus!
