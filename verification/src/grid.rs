//! Trusted interface to `array2d::Array2D`, the two-dimensional array that
//! backs the board. Cells are stored as plain `u8` codes; the `game` module
//! gives them meaning.
//!
//! `Array2D` stores its elements row-major in a `Vec`, together with the two
//! dimensions it was created with. `grid_cells` names that row-major element
//! sequence, `grid_num_rows` and `grid_num_cols` name the dimensions; the
//! wrappers below state what each library call does to them.

use vstd::prelude::*;

verus! {

#[verifier::external_type_specification]
#[verifier::external_body]
#[verifier::reject_recursive_types(T)]
pub struct ExArray2D<T>(array2d::Array2D<T>);

/// The elements of the array in row-major order.
pub uninterp spec fn grid_cells(a: array2d::Array2D<u8>) -> Seq<u8>;

/// The number of rows the array was created with.
pub uninterp spec fn grid_num_rows(a: array2d::Array2D<u8>) -> nat;

/// The number of columns the array was created with.
pub uninterp spec fn grid_num_cols(a: array2d::Array2D<u8>) -> nat;

/// Relies on `Array2D::filled_with`: builds a `rows` by `cols` array whose
/// row-major element vector holds `rows * cols` copies of `v`.
#[verifier::external_body]
pub(crate) fn grid_filled(v: u8, rows: usize, cols: usize) -> (a: array2d::Array2D<u8>)
    requires
        rows * cols <= usize::MAX,
    ensures
        grid_num_rows(a) == rows,
        grid_num_cols(a) == cols,
        grid_cells(a).len() == rows * cols,
        forall|i: int| 0 <= i < grid_cells(a).len() ==> grid_cells(a)[i] == v,
{
    array2d::Array2D::filled_with(v, rows, cols)
}

/// Relies on `Array2D`'s `Index` impl: returns the element at row-major
/// position `row * num_columns + col`; it panics only out of bounds, which
/// the precondition rules out.
#[verifier::external_body]
pub(crate) fn grid_get(a: &array2d::Array2D<u8>, row: usize, col: usize) -> (v: u8)
    requires
        row < grid_num_rows(*a),
        col < grid_num_cols(*a),
        grid_cells(*a).len() == grid_num_rows(*a) * grid_num_cols(*a),
    ensures
        v == grid_cells(*a)[row * grid_num_cols(*a) + col],
{
    a[(row, col)]
}

/// Relies on `Array2D`'s `IndexMut` impl: replaces the element at row-major
/// position `row * num_columns + col` and changes nothing else; it panics
/// only out of bounds, which the precondition rules out.
#[verifier::external_body]
pub(crate) fn grid_set(a: &mut array2d::Array2D<u8>, row: usize, col: usize, v: u8)
    requires
        row < grid_num_rows(*old(a)),
        col < grid_num_cols(*old(a)),
        grid_cells(*old(a)).len() == grid_num_rows(*old(a)) * grid_num_cols(*old(a)),
    ensures
        grid_num_rows(*final(a)) == grid_num_rows(*old(a)),
        grid_num_cols(*final(a)) == grid_num_cols(*old(a)),
        grid_cells(*final(a)) == grid_cells(*old(a)).update(
            row * grid_num_cols(*old(a)) + col,
            v,
        ),
{
    a[(row, col)] = v;
}

/// Relies on `Array2D`'s derived `Clone`: clones the element vector and
/// copies the two dimensions, so the copy holds the same cells.
#[verifier::external_body]
pub(crate) fn grid_clone(a: &array2d::Array2D<u8>) -> (b: array2d::Array2D<u8>)
    ensures
        grid_num_rows(b) == grid_num_rows(*a),
        grid_num_cols(b) == grid_num_cols(*a),
        grid_cells(b) == grid_cells(*a),
{
    a.clone()
}

} // verus!
