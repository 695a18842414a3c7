//! The dense table of cells behind the grid, held in a three-dimensional
//! array of the `ndarray` crate. Nothing in this file is proved: each
//! contract states what the array's documentation says of the call it wraps.

use ndarray::Array3;
use vstd::prelude::*;

verus! {

/// A dense three-dimensional table of cells, each holding particle indices.
#[verifier::external_body]
pub struct CellTable {
    cells: Array3<Vec<usize>>,
}

/// The particle indices that each cell of a table holds, in the order in which they were added.
pub uninterp spec fn table_cells(t: CellTable) -> Map<(int, int, int), Seq<usize>>;

/// The number of cells of a table along each axis.
pub uninterp spec fn table_dim(t: CellTable) -> (nat, nat, nat);

/// Whether `(x, y, z)` names a cell of a table with `dim` cells along each axis.
pub open spec fn in_table(dim: (nat, nat, nat), x: int, y: int, z: int) -> bool {
    0 <= x < dim.0 && 0 <= y < dim.1 && 0 <= z < dim.2
}

/// The bytes that one cell of a table takes before anything is added to it.
pub const CELL_BYTES: usize = 24;

/// The number of cells of a table with `dim` cells along each axis.
pub open spec fn cell_count(dim: (nat, nat, nat)) -> nat {
    dim.0 * dim.1 * dim.2
}

/// The table in which every cell inside `dim` holds what `content` gives for it.
pub open spec fn table_of(dim: (nat, nat, nat), content: spec_fn((int, int, int)) -> Seq<usize>) -> Map<
    (int, int, int),
    Seq<usize>,
> {
    Map::new(|c: (int, int, int)| in_table(dim, c.0, c.1, c.2), content)
}

/// `ndarray::ArrayBase::from_elem` with an empty vector as the element: a table
/// of the given shape whose cells are all empty. The array panics when the
/// number of cells exceeds `isize::MAX`, and the vector behind it when their
/// bytes do, so the shape is bounded by both.
#[verifier::external_body]
pub(crate) fn table_new(dx: usize, dy: usize, dz: usize) -> (t: CellTable)
    requires
        dx >= 1 && dy >= 1 && dz >= 1,
        cell_count((dx as nat, dy as nat, dz as nat)) * CELL_BYTES <= isize::MAX,
    ensures
        table_dim(t) == (dx as nat, dy as nat, dz as nat),
        table_cells(t) == table_of(table_dim(t), |c: (int, int, int)| Seq::<usize>::empty()),
{
    CellTable { cells: Array3::from_elem((dx, dy, dz), Vec::with_capacity(0)) }
}

/// `ndarray::ArrayBase::dim`: the axis lengths the table was made with.
#[verifier::external_body]
pub(crate) fn table_shape(t: &CellTable) -> (d: (usize, usize, usize))
    ensures
        (d.0 as nat, d.1 as nat, d.2 as nat) == table_dim(*t),
{
    t.cells.dim()
}

/// Indexing of `ndarray::ArrayBase` by three coordinates: the cell at `(x, y, z)`.
/// The index must lie inside the table, as the array panics on any other.
#[verifier::external_body]
pub(crate) fn table_cell(t: &CellTable, x: usize, y: usize, z: usize) -> (c: &Vec<usize>)
    requires
        in_table(table_dim(*t), x as int, y as int, z as int),
    ensures
        c@ == table_cells(*t)[(x as int, y as int, z as int)],
{
    &t.cells[[x, y, z]]
}

/// Mutable indexing of `ndarray::ArrayBase` by three coordinates: the cell at
/// `(x, y, z)` is lent out, every other cell and the shape stay as they are.
#[verifier::external_body]
pub(crate) fn table_cell_mut(t: &mut CellTable, x: usize, y: usize, z: usize) -> (c: &mut Vec<usize>)
    requires
        in_table(table_dim(*old(t)), x as int, y as int, z as int),
    ensures
        c@ == table_cells(*old(t))[(x as int, y as int, z as int)],
        table_dim(*final(t)) == table_dim(*old(t)),
        table_cells(*final(t)) == table_cells(*old(t)).insert(
            (x as int, y as int, z as int),
            final(c)@,
        ),
{
    &mut t.cells[[x, y, z]]
}

} // verus!
