//! The per-frame depth grid, stored in `array2d::Array2D`.
//!
//! Depths are raw fixed-point `i64` values; `i64::MAX` plays the role of
//! "infinitely far", the initial fill.  The grid's contents and dimensions
//! are named by uninterpreted spec functions, and each method the rasterizer
//! calls is a thin trusted wrapper whose contract states what the crate's
//! source shows.

use vstd::prelude::*;

verus! {

#[verifier::external_type_specification]
#[verifier::external_body]
#[verifier::reject_recursive_types(T)]
pub struct ExArray2D<T>(array2d::Array2D<T>);

/// What the depth grid holds at each `(row, column)` cell.
pub uninterp spec fn zbuf_grid(z: array2d::Array2D<i64>) -> Map<(int, int), i64>;

/// The number of rows the grid was created with.
pub uninterp spec fn zbuf_rows(z: array2d::Array2D<i64>) -> int;

/// The number of columns the grid was created with.
pub uninterp spec fn zbuf_cols(z: array2d::Array2D<i64>) -> int;

/// Relies on `array2d::Array2D::filled_with`: a grid with the given row and
/// column counts holding `value` in every cell.
#[verifier::external_body]
pub fn zbuf_new(value: i64, rows: usize, cols: usize) -> (z: array2d::Array2D<i64>)
    requires
        rows * cols <= usize::MAX,
    ensures
        zbuf_rows(z) == rows as int,
        zbuf_cols(z) == cols as int,
        forall|x: int, y: int|
            0 <= x < rows as int && 0 <= y < cols as int ==> #[trigger] zbuf_grid(z)[(x, y)]
                == value,
{
    array2d::Array2D::filled_with(value, rows, cols)
}

/// Relies on `array2d::Array2D::get`: in bounds it returns `Some` of the
/// element at `(row, column)`.
#[verifier::external_body]
pub fn zbuf_get(z: &array2d::Array2D<i64>, row: usize, col: usize) -> (r: i64)
    requires
        (row as int) < zbuf_rows(*z),
        (col as int) < zbuf_cols(*z),
    ensures
        r == zbuf_grid(*z)[(row as int, col as int)],
{
    match z.get(row, col) {
        Some(v) => *v,
        None => 0,
    }
}

/// Relies on `array2d::Array2D::set`: in bounds it replaces the element at
/// `(row, column)` and leaves every other cell and the dimensions unchanged.
#[verifier::external_body]
pub fn zbuf_set(z: &mut array2d::Array2D<i64>, row: usize, col: usize, value: i64)
    requires
        (row as int) < zbuf_rows(*old(z)),
        (col as int) < zbuf_cols(*old(z)),
    ensures
        zbuf_rows(*final(z)) == zbuf_rows(*old(z)),
        zbuf_cols(*final(z)) == zbuf_cols(*old(z)),
        zbuf_grid(*final(z)) == zbuf_grid(*old(z)).insert((row as int, col as int), value),
{
    let _ = z.set(row, col, value);
}

} // verus!
