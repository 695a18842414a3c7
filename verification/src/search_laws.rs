//! What holds of the pairs that the grid finds.

use crate::block::in_box;
use crate::block::lemma_block;
use crate::block::lemma_block_once;
use crate::cell_table::in_table;
use crate::sim_space::extent;
use crate::sim_space::gather;
use crate::sim_space::grid_partners;
use crate::sim_space::is_other;
use crate::sim_space::members;
use crate::sim_space::neighbor_block;
use crate::sim_space::neighbors;
use crate::sim_space::placed;
use crate::sim_space::reach_hi;
use crate::sim_space::reach_lo;
use crate::sim_space::rebased;
use crate::sim_space::rebased_all;
use crate::sim_space::within_reach;
use crate::sim_space::axis;
use crate::sim_space::coord;
use crate::sim_space::lemma_highest;
use crate::sim_space::lemma_lowest;
use crate::sim_space::Cell;
use vstd::prelude::*;

verus! {

/// Cell `c` lists exactly the particles that lie in it.
pub proof fn lemma_members(locs: Seq<(int, int, int)>, c: (int, int, int), j: usize)
    requires
        locs.len() <= usize::MAX,
    ensures
        members(locs, c).contains(j) <==> (j < locs.len() && locs[j as int] == c),
    decreases locs.len(),
{
    if locs.len() > 0 {
        let rest = members(locs.drop_last(), c);
        let last = (locs.len() - 1) as usize;
        lemma_members(locs.drop_last(), c, j);
        if j < locs.len() - 1 {
            assert(locs.drop_last()[j as int] == locs[j as int]);
        }
        if locs.last() == c {
            if rest.contains(j) {
                let k = choose|k: int| 0 <= k < rest.len() && rest[k] == j;
                assert(rest.push(last)[k] == j);
            }
            if j == last {
                assert(rest.push(last)[rest.len() as int] == j);
            }
            if rest.push(last).contains(j) {
                let k = choose|k: int| 0 <= k < rest.push(last).len() && rest.push(last)[k] == j;
                if k < rest.len() {
                    assert(rest[k] == j);
                }
            }
        }
    }
}

/// What is gathered from some cells is what one of those cells holds.
pub proof fn lemma_gather(table: Map<(int, int, int), Seq<usize>>, cells: Seq<(int, int, int)>, j: usize)
    ensures
        gather(table, cells).contains(j) <==> exists|k: int|
            0 <= k < cells.len() && (#[trigger] table[cells[k]]).contains(j),
    decreases cells.len(),
{
    if cells.len() > 0 {
        let a = gather(table, cells.drop_last());
        let b = table[cells.last()];
        lemma_gather(table, cells.drop_last(), j);
        if a.contains(j) {
            let k = choose|k: int| 0 <= k < a.len() && a[k] == j;
            assert((a + b)[k] == j);
            let w = choose|w: int|
                0 <= w < cells.drop_last().len() && (#[trigger] table[cells.drop_last()[w]]).contains(j);
            assert(cells[w] == cells.drop_last()[w]);
            assert(table[cells[w]].contains(j));
        }
        if b.contains(j) {
            let k = choose|k: int| 0 <= k < b.len() && b[k] == j;
            assert((a + b)[a.len() + k] == j);
            assert(table[cells[cells.len() - 1]].contains(j));
        }
        if (a + b).contains(j) {
            let k = choose|k: int| 0 <= k < (a + b).len() && (a + b)[k] == j;
            if k < a.len() {
                assert(a[k] == j);
            } else {
                assert(b[k - a.len()] == j);
            }
        }
        if exists|k: int| 0 <= k < cells.len() && (#[trigger] table[cells[k]]).contains(j) {
            let k = choose|k: int| 0 <= k < cells.len() && (#[trigger] table[cells[k]]).contains(j);
            if k < cells.len() - 1 {
                assert(cells.drop_last()[k] == cells[k]);
                assert(table[cells.drop_last()[k]].contains(j));
            }
        }
    }
}

/// Every re-based cell lies inside the table.
pub proof fn lemma_rebased_in_table(cells: Seq<Cell>, i: int)
    requires
        0 <= i < cells.len(),
    ensures
        in_table(extent(cells), rebased(cells, i).0, rebased(cells, i).1, rebased(cells, i).2),
{
    lemma_lowest(axis(cells, 0));
    lemma_lowest(axis(cells, 1));
    lemma_lowest(axis(cells, 2));
    lemma_highest(axis(cells, 0));
    lemma_highest(axis(cells, 1));
    lemma_highest(axis(cells, 2));
    assert(axis(cells, 0)[i] == coord(cells[i], 0));
    assert(axis(cells, 1)[i] == coord(cells[i], 1));
    assert(axis(cells, 2)[i] == coord(cells[i], 2));
}

/// The grid pairs a particle with exactly the other particles whose cells are
/// within `reach` of its own along every axis.
pub proof fn lemma_partners_within_reach(cells: Seq<Cell>, reach: nat, i: int, j: usize)
    requires
        0 <= i < cells.len() <= usize::MAX,
    ensures
        grid_partners(cells, reach, i).contains(j) <==> (j < cells.len() && j != i && within_reach(
            cells[i],
            cells[j as int],
            reach as int,
        )),
{
    let locs = rebased_all(cells);
    let dim = extent(cells);
    let table = placed(dim, locs);
    let loc = rebased(cells, i);
    let r = reach as int;
    let blk = neighbor_block(r, dim, loc);
    let near = neighbors(table, r, dim, loc);
    let x0 = reach_lo(loc.0, r);
    let x1 = reach_hi(loc.0, r, dim.0 as int);
    let y0 = reach_lo(loc.1, r);
    let y1 = reach_hi(loc.1, r, dim.1 as int);
    let z0 = reach_lo(loc.2, r);
    let z1 = reach_hi(loc.2, r, dim.2 as int);
    lemma_block(x0, x1, y0, y1, z0, z1);
    lemma_gather(table, blk, j);
    lemma_rebased_in_table(cells, i);
    if grid_partners(cells, reach, i).contains(j) {
        near.lemma_filter_contains_rev(is_other(i as usize), j);
        let kept = near.filter(is_other(i as usize));
        let w = choose|w: int| 0 <= w < kept.len() && kept[w] == j;
        near.lemma_filter_pred(is_other(i as usize), w);
        let k = choose|k: int| 0 <= k < blk.len() && (#[trigger] table[blk[k]]).contains(j);
        assert(in_box(blk[k], x0, x1, y0, y1, z0, z1));
        assert(in_table(dim, blk[k].0, blk[k].1, blk[k].2));
        assert(table[blk[k]] == members(locs, blk[k]));
        lemma_members(locs, blk[k], j);
        assert(locs[j as int] == rebased(cells, j as int));
    }
    if j < cells.len() && j != i && within_reach(cells[i], cells[j as int], r) {
        let c = rebased(cells, j as int);
        lemma_rebased_in_table(cells, j as int);
        assert(locs[j as int] == c);
        assert(in_box(c, x0, x1, y0, y1, z0, z1));
        assert(blk.contains(c));
        let k = choose|k: int| 0 <= k < blk.len() && blk[k] == c;
        assert(table[blk[k]] == members(locs, c));
        lemma_members(locs, c, j);
        assert(table[blk[k]].contains(j));
        assert(near.contains(j));
        let w = choose|w: int| 0 <= w < near.len() && near[w] == j;
        near.lemma_filter_contains(is_other(i as usize), w);
    }
}

/// Searching through the grid finds the same pairs as comparing every particle
/// with every other. Let `close` be any test on pairs of particles that
/// accepts only pairs whose cells are within `reach` of each other, as a
/// distance test does when `reach` cells cover its cutoff. Then the partners
/// of particle `i` that pass the test are all the particles that pass it.
pub proof fn lemma_grid_search_is_exhaustive(
    cells: Seq<Cell>,
    reach: nat,
    close: spec_fn(int, int) -> bool,
    i: int,
)
    requires
        0 <= i < cells.len() <= usize::MAX,
        forall|a: int, b: int|
            0 <= a < cells.len() && 0 <= b < cells.len() && #[trigger] close(a, b) ==> within_reach(
                cells[a],
                cells[b],
                reach as int,
            ),
    ensures
        forall|j: usize|
            (#[trigger] grid_partners(cells, reach, i).contains(j) && close(i, j as int)) <==> (j
                < cells.len() && j != i && close(i, j as int)),
{
    assert forall|j: usize|
        (#[trigger] grid_partners(cells, reach, i).contains(j) && close(i, j as int)) <==> (j
            < cells.len() && j != i && close(i, j as int)) by {
        lemma_partners_within_reach(cells, reach, i, j);
    }
}

/// No cell lists a particle twice.
pub proof fn lemma_members_once(locs: Seq<(int, int, int)>, c: (int, int, int))
    requires
        locs.len() <= usize::MAX,
    ensures
        members(locs, c).no_duplicates(),
    decreases locs.len(),
{
    if locs.len() > 0 {
        let rest = members(locs.drop_last(), c);
        let last = (locs.len() - 1) as usize;
        lemma_members_once(locs.drop_last(), c);
        if locs.last() == c {
            assert forall|k: int| 0 <= k < rest.len() implies rest[k] != last by {
                lemma_members(locs.drop_last(), c, rest[k]);
                assert(rest.contains(rest[k]));
            }
        }
    }
}

/// What is gathered from distinct cells that share no particle, and that
/// each list no particle twice, lists no particle twice.
pub proof fn lemma_gather_once(table: Map<(int, int, int), Seq<usize>>, cells: Seq<(int, int, int)>)
    requires
        forall|k: int| 0 <= k < cells.len() ==> (#[trigger] table[cells[k]]).no_duplicates(),
        forall|k: int, l: int, j: usize|
            0 <= k < l < cells.len() ==> !(#[trigger] table[cells[k]].contains(j)
                && #[trigger] table[cells[l]].contains(j)),
    ensures
        gather(table, cells).no_duplicates(),
    decreases cells.len(),
{
    if cells.len() > 0 {
        let init = cells.drop_last();
        let a = gather(table, init);
        let b = table[cells.last()];
        assert forall|k: int| 0 <= k < init.len() implies (#[trigger] table[init[k]]).no_duplicates() by {
            assert(init[k] == cells[k]);
        }
        assert forall|k: int, l: int, j: usize| 0 <= k < l < init.len() implies !(
        #[trigger] table[init[k]].contains(j) && #[trigger] table[init[l]].contains(j)) by {
            assert(init[k] == cells[k]);
            assert(init[l] == cells[l]);
        }
        lemma_gather_once(table, init);
        assert(b == table[cells[cells.len() - 1]]);
        assert forall|i: int, j: int| 0 <= i < a.len() && 0 <= j < b.len() implies a[i] != b[j] by {
            if a[i] == b[j] {
                lemma_gather(table, init, a[i]);
                assert(a.contains(a[i]));
                let k = choose|k: int| 0 <= k < init.len() && (#[trigger] table[init[k]]).contains(a[i]);
                assert(init[k] == cells[k]);
                assert(table[cells[k]].contains(a[i]));
                assert(b.contains(b[j]));
                assert(table[cells[cells.len() - 1]].contains(a[i]));
            }
        }
        vstd::seq_lib::lemma_no_dup_in_concat(a, b);
    }
}

/// Leaving values out of a sequence that holds none twice leaves one that holds none twice.
pub proof fn lemma_filter_once(s: Seq<usize>, keep: spec_fn(usize) -> bool)
    requires
        s.no_duplicates(),
    ensures
        s.filter(keep).no_duplicates(),
    decreases s.len(),
{
    reveal(Seq::filter);
    if s.len() > 0 {
        let init = s.drop_last();
        lemma_filter_once(init, keep);
        let kept = init.filter(keep);
        if keep(s.last()) {
            assert forall|k: int| 0 <= k < kept.len() implies kept[k] != s.last() by {
                assert(kept.contains(kept[k]));
                init.lemma_filter_contains_rev(keep, kept[k]);
                let w = choose|w: int| 0 <= w < init.len() && init[w] == kept[k];
                assert(s[w] == init[w]);
            }
        }
    }
}

/// The grid pairs a particle with no other particle twice.
pub proof fn lemma_partners_once(cells: Seq<Cell>, reach: nat, i: int)
    requires
        0 <= i < cells.len() <= usize::MAX,
    ensures
        grid_partners(cells, reach, i).no_duplicates(),
{
    let locs = rebased_all(cells);
    let dim = extent(cells);
    let table = placed(dim, locs);
    let loc = rebased(cells, i);
    let r = reach as int;
    let blk = neighbor_block(r, dim, loc);
    let x0 = reach_lo(loc.0, r);
    let x1 = reach_hi(loc.0, r, dim.0 as int);
    let y0 = reach_lo(loc.1, r);
    let y1 = reach_hi(loc.1, r, dim.1 as int);
    let z0 = reach_lo(loc.2, r);
    let z1 = reach_hi(loc.2, r, dim.2 as int);
    lemma_block(x0, x1, y0, y1, z0, z1);
    lemma_block_once(x0, x1, y0, y1, z0, z1);
    assert forall|k: int| 0 <= k < blk.len() implies (#[trigger] table[blk[k]]) == members(
        locs,
        blk[k],
    ) by {
        assert(in_box(blk[k], x0, x1, y0, y1, z0, z1));
        assert(in_table(dim, blk[k].0, blk[k].1, blk[k].2));
    }
    assert forall|k: int| 0 <= k < blk.len() implies (#[trigger] table[blk[k]]).no_duplicates() by {
        lemma_members_once(locs, blk[k]);
    }
    assert forall|k: int, l: int, j: usize| 0 <= k < l < blk.len() implies !(
    #[trigger] table[blk[k]].contains(j) && #[trigger] table[blk[l]].contains(j)) by {
        lemma_members(locs, blk[k], j);
        lemma_members(locs, blk[l], j);
    }
    lemma_gather_once(table, blk);
    lemma_filter_once(neighbors(table, r, dim, loc), is_other(i as usize));
}

} // verus!
