//! The grid that divides space into cubic cells, so that the particles near
//! a particle are found among those of the cells around it and not among all.

use crate::block::block;
use crate::block::lemma_block;
use crate::block::plane;
use crate::block::row;
use crate::cell_table::cell_count;
use crate::cell_table::in_table;
use crate::cell_table::table_cell;
use crate::cell_table::table_cell_mut;
use crate::cell_table::table_cells;
use crate::cell_table::table_dim;
use crate::cell_table::table_new;
use crate::cell_table::table_of;
use crate::cell_table::table_shape;
use crate::cell_table::CellTable;
use crate::cell_table::CELL_BYTES;
use crate::parallel::par_tabulate;
use crate::scalar::Scalar;
use vstd::prelude::*;

verus! {

/// The raw cell of a particle: the floor of its position over the cell size, per axis.
pub type Cell = (isize, isize, isize);

/// A cell re-based so that the lowest occupied cell of each axis is cell 0.
pub type Loc = (usize, usize, usize);

/// Coordinate `k` (0, 1 or 2) of a raw cell.
pub open spec fn coord(c: Cell, k: int) -> int {
    if k == 0 {
        c.0 as int
    } else if k == 1 {
        c.1 as int
    } else {
        c.2 as int
    }
}

/// Coordinate `k` of every raw cell, in particle order.
pub open spec fn axis(cells: Seq<Cell>, k: int) -> Seq<int> {
    Seq::new(cells.len(), |i: int| coord(cells[i], k))
}

/// The least value of a non-empty sequence.
pub open spec fn lowest(s: Seq<int>) -> int
    decreases s.len(),
{
    if s.len() == 0 {
        0
    } else if s.len() == 1 {
        s[0]
    } else {
        let m = lowest(s.drop_last());
        if s.last() < m {
            s.last()
        } else {
            m
        }
    }
}

/// The greatest value of a non-empty sequence.
pub open spec fn highest(s: Seq<int>) -> int
    decreases s.len(),
{
    if s.len() == 0 {
        0
    } else if s.len() == 1 {
        s[0]
    } else {
        let m = highest(s.drop_last());
        if s.last() > m {
            s.last()
        } else {
            m
        }
    }
}

/// `lowest` is a lower bound that some element attains.
pub proof fn lemma_lowest(s: Seq<int>)
    requires
        s.len() > 0,
    ensures
        forall|i: int| 0 <= i < s.len() ==> lowest(s) <= s[i],
        exists|i: int| 0 <= i < s.len() && s[i] == lowest(s),
    decreases s.len(),
{
    if s.len() > 1 {
        let t = s.drop_last();
        lemma_lowest(t);
        let w = choose|i: int| 0 <= i < t.len() && t[i] == lowest(t);
        assert(s[w] == t[w]);
        assert forall|i: int| 0 <= i < s.len() implies lowest(s) <= s[i] by {
            if i < t.len() {
                assert(s[i] == t[i]);
            }
        }
        if s.last() < lowest(t) {
            assert(s[s.len() - 1] == lowest(s));
        } else {
            assert(s[w] == lowest(s));
        }
    } else {
        assert(s[0] == lowest(s));
    }
}

/// `highest` is an upper bound that some element attains.
pub proof fn lemma_highest(s: Seq<int>)
    requires
        s.len() > 0,
    ensures
        forall|i: int| 0 <= i < s.len() ==> s[i] <= highest(s),
        exists|i: int| 0 <= i < s.len() && s[i] == highest(s),
    decreases s.len(),
{
    if s.len() > 1 {
        let t = s.drop_last();
        lemma_highest(t);
        let w = choose|i: int| 0 <= i < t.len() && t[i] == highest(t);
        assert(s[w] == t[w]);
        assert forall|i: int| 0 <= i < s.len() implies s[i] <= highest(s) by {
            if i < t.len() {
                assert(s[i] == t[i]);
            }
        }
        if s.last() > highest(t) {
            assert(s[s.len() - 1] == highest(s));
        } else {
            assert(s[w] == highest(s));
        }
    } else {
        assert(s[0] == highest(s));
    }
}

/// How many cells lie between the lowest and the highest occupied cell of axis `k`.
pub open spec fn span(cells: Seq<Cell>, k: int) -> int {
    if cells.len() == 0 {
        0
    } else {
        highest(axis(cells, k)) - lowest(axis(cells, k))
    }
}

/// The shape of the smallest table that holds every particle: one more than the span, per axis.
pub open spec fn extent(cells: Seq<Cell>) -> (nat, nat, nat) {
    ((span(cells, 0) + 1) as nat, (span(cells, 1) + 1) as nat, (span(cells, 2) + 1) as nat)
}

/// Whether the table for `cells` can be held in memory at all.
pub open spec fn table_fits(cells: Seq<Cell>) -> bool {
    cell_count(extent(cells)) * CELL_BYTES <= isize::MAX
}

/// Particle `i`'s cell, counted from the lowest occupied cell of each axis.
pub open spec fn rebased(cells: Seq<Cell>, i: int) -> (int, int, int) {
    (
        coord(cells[i], 0) - lowest(axis(cells, 0)),
        coord(cells[i], 1) - lowest(axis(cells, 1)),
        coord(cells[i], 2) - lowest(axis(cells, 2)),
    )
}

/// A re-based cell as mathematical integers.
pub open spec fn loc_ints(l: Loc) -> (int, int, int) {
    (l.0 as int, l.1 as int, l.2 as int)
}

/// A sequence of re-based cells as mathematical integers.
pub open spec fn locs_ints(s: Seq<Loc>) -> Seq<(int, int, int)> {
    Seq::new(s.len(), |i: int| loc_ints(s[i]))
}

/// Every particle's re-based cell, in particle order.
pub open spec fn rebased_all(cells: Seq<Cell>) -> Seq<(int, int, int)> {
    Seq::new(cells.len(), |i: int| rebased(cells, i))
}

/// The particles that lie in cell `c`, in increasing order of their index.
pub open spec fn members(locs: Seq<(int, int, int)>, c: (int, int, int)) -> Seq<usize>
    decreases locs.len(),
{
    if locs.len() == 0 {
        Seq::empty()
    } else {
        let rest = members(locs.drop_last(), c);
        if locs.last() == c {
            rest.push((locs.len() - 1) as usize)
        } else {
            rest
        }
    }
}

/// The table of shape `dim` in which every particle sits in its own cell.
pub open spec fn placed(dim: (nat, nat, nat), locs: Seq<(int, int, int)>) -> Map<
    (int, int, int),
    Seq<usize>,
> {
    table_of(dim, |c: (int, int, int)| members(locs, c))
}

/// The first coordinate within `reach` of `p`, clipped at 0.
pub open spec fn reach_lo(p: int, reach: int) -> int {
    if p >= reach {
        p - reach
    } else {
        0
    }
}

/// One past the last coordinate within `reach` of `p`, clipped at `dim`.
pub open spec fn reach_hi(p: int, reach: int, dim: int) -> int {
    if p + reach + 1 <= dim {
        p + reach + 1
    } else {
        dim
    }
}

/// The cells of a table of shape `dim` whose distance from `loc` is at most
/// `reach` along every axis, in lexicographic order. There is no wrap-around:
/// the box is clipped at the table's faces.
pub open spec fn neighbor_block(reach: int, dim: (nat, nat, nat), loc: (int, int, int)) -> Seq<
    (int, int, int),
> {
    block(
        reach_lo(loc.0, reach),
        reach_hi(loc.0, reach, dim.0 as int),
        reach_lo(loc.1, reach),
        reach_hi(loc.1, reach, dim.1 as int),
        reach_lo(loc.2, reach),
        reach_hi(loc.2, reach, dim.2 as int),
    )
}

/// Every particle of the cells of `cells`, cell after cell.
pub open spec fn gather(table: Map<(int, int, int), Seq<usize>>, cells: Seq<(int, int, int)>) -> Seq<usize>
    decreases cells.len(),
{
    if cells.len() == 0 {
        Seq::empty()
    } else {
        gather(table, cells.drop_last()) + table[cells.last()]
    }
}

/// Every particle in the cells within `reach` of `loc`.
pub open spec fn neighbors(
    table: Map<(int, int, int), Seq<usize>>,
    reach: int,
    dim: (nat, nat, nat),
    loc: (int, int, int),
) -> Seq<usize> {
    gather(table, neighbor_block(reach, dim, loc))
}

/// The test that a particle is another one than `tpid`.
pub open spec fn is_other(tpid: usize) -> spec_fn(usize) -> bool {
    |p: usize| p != tpid
}

/// The particles that particle `tpid` at `loc` is paired with: its neighbours but itself.
pub open spec fn partners(
    table: Map<(int, int, int), Seq<usize>>,
    reach: int,
    dim: (nat, nat, nat),
    loc: (int, int, int),
    tpid: usize,
) -> Seq<usize> {
    neighbors(table, reach, dim, loc).filter(is_other(tpid))
}

/// The particles that the grid pairs particle `i` with.
pub open spec fn grid_partners(cells: Seq<Cell>, reach: nat, i: int) -> Seq<usize> {
    partners(
        placed(extent(cells), rebased_all(cells)),
        reach as int,
        extent(cells),
        rebased(cells, i),
        i as usize,
    )
}

/// Whether two raw cells are at most `reach` cells apart along every axis.
pub open spec fn within_reach(a: Cell, b: Cell, reach: int) -> bool {
    &&& -reach <= a.0 - b.0 <= reach
    &&& -reach <= a.1 - b.1 <= reach
    &&& -reach <= a.2 - b.2 <= reach
}

/// Each of three positive factors is bounded by whatever bounds their product.
proof fn lemma_factors(a: int, b: int, c: int, l: int)
    requires
        a >= 1,
        b >= 1,
        c >= 1,
        a * b * c * 24 <= l,
    ensures
        a <= l,
        b <= l,
        c <= l,
{
    assert(a * b >= a && a * b >= b) by (nonlinear_arith)
        requires
            a >= 1,
            b >= 1,
    ;
    assert(a * b * c >= a * b && a * b * c >= c) by (nonlinear_arith)
        requires
            a * b >= 1,
            c >= 1,
    ;
}

/// The lowest raw cell coordinate of each axis. `cells` must not be empty.
fn lowest_cell(cells: &Vec<Cell>) -> (o: Cell)
    requires
        cells@.len() > 0,
    ensures
        o.0 == lowest(axis(cells@, 0)),
        o.1 == lowest(axis(cells@, 1)),
        o.2 == lowest(axis(cells@, 2)),
{
    let mut o: Cell = cells[0];
    let mut i: usize = 1;
    assert(axis(cells@, 0).take(1) =~= seq![cells@[0].0 as int]);
    assert(axis(cells@, 1).take(1) =~= seq![cells@[0].1 as int]);
    assert(axis(cells@, 2).take(1) =~= seq![cells@[0].2 as int]);
    while i < cells.len()
        invariant
            1 <= i <= cells@.len(),
            o.0 == lowest(axis(cells@, 0).take(i as int)),
            o.1 == lowest(axis(cells@, 1).take(i as int)),
            o.2 == lowest(axis(cells@, 2).take(i as int)),
        decreases cells@.len() - i,
    {
        let c = cells[i];
        proof {
            assert(axis(cells@, 0).take(i + 1).drop_last() =~= axis(cells@, 0).take(i as int));
            assert(axis(cells@, 1).take(i + 1).drop_last() =~= axis(cells@, 1).take(i as int));
            assert(axis(cells@, 2).take(i + 1).drop_last() =~= axis(cells@, 2).take(i as int));
        }
        if c.0 < o.0 {
            o.0 = c.0;
        }
        if c.1 < o.1 {
            o.1 = c.1;
        }
        if c.2 < o.2 {
            o.2 = c.2;
        }
        i += 1;
    }
    proof {
        assert(axis(cells@, 0).take(i as int) =~= axis(cells@, 0));
        assert(axis(cells@, 1).take(i as int) =~= axis(cells@, 1));
        assert(axis(cells@, 2).take(i as int) =~= axis(cells@, 2));
    }
    o
}

/// The highest raw cell coordinate of each axis. `cells` must not be empty.
fn highest_cell(cells: &Vec<Cell>) -> (o: Cell)
    requires
        cells@.len() > 0,
    ensures
        o.0 == highest(axis(cells@, 0)),
        o.1 == highest(axis(cells@, 1)),
        o.2 == highest(axis(cells@, 2)),
{
    let mut o: Cell = cells[0];
    let mut i: usize = 1;
    assert(axis(cells@, 0).take(1) =~= seq![cells@[0].0 as int]);
    assert(axis(cells@, 1).take(1) =~= seq![cells@[0].1 as int]);
    assert(axis(cells@, 2).take(1) =~= seq![cells@[0].2 as int]);
    while i < cells.len()
        invariant
            1 <= i <= cells@.len(),
            o.0 == highest(axis(cells@, 0).take(i as int)),
            o.1 == highest(axis(cells@, 1).take(i as int)),
            o.2 == highest(axis(cells@, 2).take(i as int)),
        decreases cells@.len() - i,
    {
        let c = cells[i];
        proof {
            assert(axis(cells@, 0).take(i + 1).drop_last() =~= axis(cells@, 0).take(i as int));
            assert(axis(cells@, 1).take(i + 1).drop_last() =~= axis(cells@, 1).take(i as int));
            assert(axis(cells@, 2).take(i + 1).drop_last() =~= axis(cells@, 2).take(i as int));
        }
        if c.0 > o.0 {
            o.0 = c.0;
        }
        if c.1 > o.1 {
            o.1 = c.1;
        }
        if c.2 > o.2 {
            o.2 = c.2;
        }
        i += 1;
    }
    proof {
        assert(axis(cells@, 0).take(i as int) =~= axis(cells@, 0));
        assert(axis(cells@, 1).take(i as int) =~= axis(cells@, 1));
        assert(axis(cells@, 2).take(i as int) =~= axis(cells@, 2));
    }
    o
}

/// The first coordinate within `reach` of `p`.
fn lower_end(p: usize, reach: usize) -> (r: usize)
    ensures
        r == reach_lo(p as int, reach as int),
{
    if p >= reach {
        p - reach
    } else {
        0
    }
}

/// One past the last coordinate within `reach` of `p` that is below `dim`.
fn upper_end(p: usize, reach: usize, dim: usize) -> (r: usize)
    ensures
        r == reach_hi(p as int, reach as int, dim as int),
{
    if p < dim && reach < dim - p {
        p + reach + 1
    } else {
        dim
    }
}

/// The grid that sorts particles into cubic cells and finds, for each
/// particle, those in the cells around it.
#[derive(Clone, Copy, Debug)]
pub struct Grid {
    reach: usize,
    unit_size: Scalar,
}

impl Grid {
    /// The cutoff of the interaction, in whole cells.
    pub closed spec fn spec_reach(&self) -> nat {
        self.reach as nat
    }

    /// The edge length of a cell.
    pub closed spec fn spec_unit_size(&self) -> Scalar {
        self.unit_size
    }

    pub fn new(unit_size: Scalar, reach: usize) -> (g: Self)
        ensures
            g.spec_reach() == reach,
            g.spec_unit_size() == unit_size,
    {
        Self { reach, unit_size }
    }

    pub fn reach(&self) -> (r: usize)
        ensures
            r == self.spec_reach(),
    {
        self.reach
    }

    pub fn unit_size(&self) -> (u: Scalar)
        ensures
            u == self.spec_unit_size(),
    {
        self.unit_size
    }

    /// Whether the table for `cells` can be held in memory, as `make_grid` requires.
    pub fn fits(&self, cells: &Vec<Cell>) -> (b: bool)
        ensures
            b == table_fits(cells@),
    {
        if cells.len() == 0 {
            assert(extent(cells@) == (1nat, 1nat, 1nat));
            assert(cell_count(extent(cells@)) == 1) by (nonlinear_arith)
                requires
                    extent(cells@) == (1nat, 1nat, 1nat),
            ;
            return true;
        }
        let lo = lowest_cell(cells);
        let hi = highest_cell(cells);
        proof {
            lemma_lowest(axis(cells@, 0));
            lemma_lowest(axis(cells@, 1));
            lemma_lowest(axis(cells@, 2));
            lemma_highest(axis(cells@, 0));
            lemma_highest(axis(cells@, 1));
            lemma_highest(axis(cells@, 2));
        }
        let limit: u128 = (isize::MAX as u128) / 24;
        let ex: u128 = (hi.0 as i128 - lo.0 as i128) as u128 + 1;
        let ey: u128 = (hi.1 as i128 - lo.1 as i128) as u128 + 1;
        let ez: u128 = (hi.2 as i128 - lo.2 as i128) as u128 + 1;
        assert(extent(cells@) == (ex as nat, ey as nat, ez as nat));
        if ex > limit || ey > limit || ez > limit {
            proof {
                if ex * ey * ez * 24 <= isize::MAX {
                    lemma_factors(ex as int, ey as int, ez as int, isize::MAX as int);
                    assert(ex * 24 <= ex * ey * ez * 24 && ey * 24 <= ex * ey * ez * 24 && ez * 24 <= ex
                        * ey * ez * 24) by (nonlinear_arith)
                        requires
                            ex >= 1,
                            ey >= 1,
                            ez >= 1,
                    ;
                }
            }
            return false;
        }
        assert(ex * ey <= limit * limit) by (nonlinear_arith)
            requires
                ex <= limit,
                ey <= limit,
        ;
        assert(limit * limit < 0x1_0000_0000_0000_0000_0000_0000_0000_0000) by (nonlinear_arith)
            requires
                limit < 0x1000_0000_0000_0000,
        ;
        let p: u128 = ex * ey;
        if p > limit {
            proof {
                assert(p * ez >= p) by (nonlinear_arith)
                    requires
                        ez >= 1,
                        p >= 0,
                ;
            }
            return false;
        }
        assert(p * ez <= limit * limit) by (nonlinear_arith)
            requires
                p <= limit,
                ez <= limit,
        ;
        let q: u128 = p * ez;
        q <= limit
    }

    /// Sorts the particles into a dense table. The raw cells are re-based so
    /// that the lowest occupied cell of each axis becomes cell 0; the table
    /// spans just the occupied range, and each of its cells lists the particles
    /// in it by index, in increasing order. Also returns each particle's
    /// re-based cell.
    pub fn make_grid(&self, cells: &Vec<Cell>) -> (r: (CellTable, Vec<Loc>))
        requires
            table_fits(cells@),
        ensures
            r.1@.len() == cells@.len(),
            forall|i: int|
                0 <= i < cells@.len() ==> loc_ints(#[trigger] r.1@[i]) == rebased(cells@, i),
            table_dim(r.0) == extent(cells@),
            table_cells(r.0) == placed(extent(cells@), rebased_all(cells@)),
    {
        let n = cells.len();
        if n == 0 {
            let t = table_new(1, 1, 1);
            assert(table_cells(t) =~= placed(extent(cells@), rebased_all(cells@)));
            return (t, Vec::new());
        }
        let lo = lowest_cell(cells);
        let hi = highest_cell(cells);
        let ghost dim = extent(cells@);
        proof {
            lemma_lowest(axis(cells@, 0));
            lemma_lowest(axis(cells@, 1));
            lemma_lowest(axis(cells@, 2));
            lemma_highest(axis(cells@, 0));
            lemma_highest(axis(cells@, 1));
            lemma_highest(axis(cells@, 2));
            assert(axis(cells@, 0)[0] == coord(cells@[0], 0));
            assert(axis(cells@, 1)[0] == coord(cells@[0], 1));
            assert(axis(cells@, 2)[0] == coord(cells@[0], 2));
            lemma_factors(dim.0 as int, dim.1 as int, dim.2 as int, isize::MAX as int);
            assert forall|i: int| 0 <= i < cells@.len() implies lo.0 <= (#[trigger] cells@[i]).0
                <= hi.0 && lo.1 <= cells@[i].1 <= hi.1 && lo.2 <= cells@[i].2 <= hi.2 by {
                assert(axis(cells@, 0)[i] == coord(cells@[i], 0));
                assert(axis(cells@, 1)[i] == coord(cells@[i], 1));
                assert(axis(cells@, 2)[i] == coord(cells@[i], 2));
            }
        }
        let dx: usize = (hi.0 - lo.0) as usize + 1;
        let dy: usize = (hi.1 - lo.1) as usize + 1;
        let dz: usize = (hi.2 - lo.2) as usize + 1;
        assert(dim == (dx as nat, dy as nat, dz as nat));
        let rebase = |i: usize| -> (l: Loc)
            requires
                i < cells@.len(),
            ensures
                loc_ints(l) == rebased(cells@, i as int),
            {
                let c = cells[i];
                ((c.0 - lo.0) as usize, (c.1 - lo.1) as usize, (c.2 - lo.2) as usize)
            };
        let locs = par_tabulate(n, rebase);
        let mut t = table_new(dx, dy, dz);
        let ghost all = rebased_all(cells@);
        assert forall|i: int| 0 <= i < n implies loc_ints(#[trigger] locs@[i]) == all[i] && in_table(
            dim,
            all[i].0,
            all[i].1,
            all[i].2,
        ) by {
            assert(call_ensures(rebase, (i as usize,), locs@[i as usize as int]));
        }
        assert(table_cells(t) =~= placed(dim, all.take(0)));
        let mut i: usize = 0;
        while i < n
            invariant
                i <= n,
                n == locs@.len(),
                n == all.len(),
                table_dim(t) == dim,
                table_cells(t) == placed(dim, all.take(i as int)),
                forall|j: int|
                    0 <= j < n ==> loc_ints(#[trigger] locs@[j]) == all[j] && in_table(
                        dim,
                        all[j].0,
                        all[j].1,
                        all[j].2,
                    ),
            decreases n - i,
        {
            let l = locs[i];
            let ghost before = table_cells(t);
            let cell = table_cell_mut(&mut t, l.0, l.1, l.2);
            cell.push(i);
            proof {
                assert(all.take(i + 1).drop_last() =~= all.take(i as int));
                assert(all.take(i + 1).last() == loc_ints(l));
                assert(table_cells(t) =~= placed(dim, all.take(i + 1)));
            }
            i += 1;
        }
        assert(all.take(n as int) =~= all);
        (t, locs)
    }

    /// The cells around `loc` that an interaction can reach: those of `grid`
    /// within `reach` cells of `loc` along every axis.
    pub fn generate_neighbor_grid_loc(&self, loc: Loc, grid: &CellTable) -> (r: Vec<Loc>)
        ensures
            locs_ints(r@) == neighbor_block(self.spec_reach() as int, table_dim(*grid), loc_ints(loc)),
    {
        let (dim_x, dim_y, dim_z) = table_shape(grid);
        let x0 = lower_end(loc.0, self.reach);
        let x1 = upper_end(loc.0, self.reach, dim_x);
        let y0 = lower_end(loc.1, self.reach);
        let y1 = upper_end(loc.1, self.reach, dim_y);
        let z0 = lower_end(loc.2, self.reach);
        let z1 = upper_end(loc.2, self.reach, dim_z);
        let mut out: Vec<Loc> = Vec::new();
        let mut x: usize = x0;
        assert(locs_ints(out@) =~= Seq::empty());
        while x < x1
            invariant
                x0 <= x,
                x <= x1 || x == x0,
                locs_ints(out@) == block(
                    x0 as int,
                    x as int,
                    y0 as int,
                    y1 as int,
                    z0 as int,
                    z1 as int,
                ),
            decreases x1 - x,
        {
            let mut y: usize = y0;
            let ghost done = locs_ints(out@);
            assert(done + plane(x as int, y0 as int, y0 as int, z0 as int, z1 as int) =~= done);
            while y < y1
                invariant
                    y0 <= y,
                    y <= y1 || y == y0,
                    locs_ints(out@) == done + plane(
                        x as int,
                        y0 as int,
                        y as int,
                        z0 as int,
                        z1 as int,
                    ),
                decreases y1 - y,
            {
                let mut z: usize = z0;
                let ghost rows = locs_ints(out@);
                assert(rows + row(x as int, y as int, z0 as int, z0 as int) =~= rows);
                while z < z1
                    invariant
                        z0 <= z,
                        z <= z1 || z == z0,
                        locs_ints(out@) == rows + row(x as int, y as int, z0 as int, z as int),
                    decreases z1 - z,
                {
                    let ghost before = out@;
                    out.push((x, y, z));
                    proof {
                        assert(locs_ints(out@) =~= locs_ints(before).push(
                            (x as int, y as int, z as int),
                        ));
                        assert(row(x as int, y as int, z0 as int, z as int + 1) == row(
                            x as int,
                            y as int,
                            z0 as int,
                            z as int,
                        ).push((x as int, y as int, z as int)));
                        assert(locs_ints(out@) =~= rows + row(
                            x as int,
                            y as int,
                            z0 as int,
                            z as int + 1,
                        ));
                    }
                    z += 1;
                }
                proof {
                    assert(row(x as int, y as int, z0 as int, z as int) == row(
                        x as int,
                        y as int,
                        z0 as int,
                        z1 as int,
                    ));
                    assert(plane(x as int, y0 as int, y as int + 1, z0 as int, z1 as int) == plane(
                        x as int,
                        y0 as int,
                        y as int,
                        z0 as int,
                        z1 as int,
                    ) + row(x as int, y as int, z0 as int, z1 as int));
                    assert(locs_ints(out@) =~= done + plane(
                        x as int,
                        y0 as int,
                        y as int + 1,
                        z0 as int,
                        z1 as int,
                    ));
                }
                y += 1;
            }
            proof {
                assert(plane(x as int, y0 as int, y as int, z0 as int, z1 as int) == plane(
                    x as int,
                    y0 as int,
                    y1 as int,
                    z0 as int,
                    z1 as int,
                ));
                assert(block(x0 as int, x as int + 1, y0 as int, y1 as int, z0 as int, z1 as int)
                    == block(x0 as int, x as int, y0 as int, y1 as int, z0 as int, z1 as int)
                    + plane(x as int, y0 as int, y1 as int, z0 as int, z1 as int));
            }
            x += 1;
        }
        assert(block(x0 as int, x as int, y0 as int, y1 as int, z0 as int, z1 as int) == block(
            x0 as int,
            x1 as int,
            y0 as int,
            y1 as int,
            z0 as int,
            z1 as int,
        ));
        out
    }

    /// Every particle in the cells within `reach` of `loc`, cell after cell in
    /// lexicographic order and in increasing index within a cell of a table
    /// that `make_grid` built.
    pub fn neighbors_of(&self, loc: Loc, grid: &CellTable) -> (r: Vec<usize>)
        ensures
            r@ == neighbors(
                table_cells(*grid),
                self.spec_reach() as int,
                table_dim(*grid),
                loc_ints(loc),
            ),
    {
        let around = self.generate_neighbor_grid_loc(loc, grid);
        let ghost dim = table_dim(*grid);
        let ghost cells = locs_ints(around@);
        let ghost table = table_cells(*grid);
        proof {
            lemma_block(
                reach_lo(loc.0 as int, self.reach as int),
                reach_hi(loc.0 as int, self.reach as int, dim.0 as int),
                reach_lo(loc.1 as int, self.reach as int),
                reach_hi(loc.1 as int, self.reach as int, dim.1 as int),
                reach_lo(loc.2 as int, self.reach as int),
                reach_hi(loc.2 as int, self.reach as int, dim.2 as int),
            );
        }
        let mut out: Vec<usize> = Vec::new();
        let mut k: usize = 0;
        assert(cells.take(0) =~= Seq::empty());
        while k < around.len()
            invariant
                k <= around@.len(),
                cells == locs_ints(around@),
                dim == table_dim(*grid),
                table == table_cells(*grid),
                forall|j: int|
                    0 <= j < cells.len() ==> in_table(
                        dim,
                        (#[trigger] cells[j]).0,
                        cells[j].1,
                        cells[j].2,
                    ),
                out@ == gather(table, cells.take(k as int)),
            decreases around@.len() - k,
        {
            let c = around[k];
            assert(cells[k as int] == loc_ints(c));
            let cell = table_cell(grid, c.0, c.1, c.2);
            let ghost base = out@;
            let mut j: usize = 0;
            assert(cell@.take(0) =~= Seq::empty());
            while j < cell.len()
                invariant
                    j <= cell@.len(),
                    out@ == base + cell@.take(j as int),
                decreases cell@.len() - j,
            {
                out.push(cell[j]);
                assert(cell@.take(j + 1) =~= cell@.take(j as int).push(cell@[j as int]));
                j += 1;
            }
            proof {
                assert(cell@.take(j as int) =~= cell@);
                assert(cells.take(k + 1).drop_last() =~= cells.take(k as int));
                assert(cells.take(k + 1).last() == cells[k as int]);
            }
            k += 1;
        }
        assert(cells.take(k as int) =~= cells);
        out
    }

    /// The particles that particle `tpid` at `loc` is paired with: every
    /// particle in the cells within `reach` of `loc` but `tpid` itself, in the
    /// order of `neighbors_of`.
    pub fn partners_of(&self, tpid: usize, loc: Loc, grid: &CellTable) -> (r: Vec<usize>)
        ensures
            r@ == partners(
                table_cells(*grid),
                self.spec_reach() as int,
                table_dim(*grid),
                loc_ints(loc),
                tpid,
            ),
    {
        let all = self.neighbors_of(loc, grid);
        let mut out: Vec<usize> = Vec::new();
        let mut j: usize = 0;
        proof {
            reveal(Seq::filter);
            assert(all@.take(0) =~= Seq::empty());
        }
        while j < all.len()
            invariant
                j <= all@.len(),
                out@ == all@.take(j as int).filter(is_other(tpid)),
            decreases all@.len() - j,
        {
            let p = all[j];
            proof {
                reveal(Seq::filter);
                assert(all@.take(j + 1).drop_last() =~= all@.take(j as int));
            }
            if p != tpid {
                out.push(p);
            }
            j += 1;
        }
        assert(all@.take(j as int) =~= all@);
        out
    }

    /// For every particle, the particles it is paired with: sorts the
    /// particles into a table and looks each of them up in it.
    pub fn neighbor_lists(&self, cells: &Vec<Cell>) -> (r: Vec<Vec<usize>>)
        requires
            table_fits(cells@),
        ensures
            r@.len() == cells@.len(),
            forall|i: int|
                0 <= i < cells@.len() ==> (#[trigger] r@[i])@ == grid_partners(
                    cells@,
                    self.spec_reach(),
                    i,
                ),
    {
        let (table, locs) = self.make_grid(cells);
        let table = &table;
        let n = locs.len();
        let look_up = |i: usize| -> (v: Vec<usize>)
            requires
                i < locs@.len(),
            ensures
                v@ == partners(
                    table_cells(*table),
                    self.spec_reach() as int,
                    table_dim(*table),
                    loc_ints(locs@[i as int]),
                    i,
                ),
            { self.partners_of(i, locs[i], table) };
        let lists = par_tabulate(n, look_up);
        assert forall|i: int| 0 <= i < cells@.len() implies (#[trigger] lists@[i])@ == grid_partners(
            cells@,
            self.spec_reach(),
            i,
        ) by {
            assert(call_ensures(look_up, (i as usize,), lists@[i as usize as int]));
        }
        lists
    }
}

} // verus!
