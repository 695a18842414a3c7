//! Boxes of cells in lexicographic order.

use vstd::prelude::*;

verus! {

/// `c` lies in the box `[x0, x1) x [y0, y1) x [z0, z1)`.
pub open spec fn in_box(c: (int, int, int), x0: int, x1: int, y0: int, y1: int, z0: int, z1: int) -> bool {
    x0 <= c.0 < x1 && y0 <= c.1 < y1 && z0 <= c.2 < z1
}

/// The cells `(x, y, z)` with `z0 <= z < z1`, by increasing `z`.
pub open spec fn row(x: int, y: int, z0: int, z1: int) -> Seq<(int, int, int)>
    decreases z1 - z0,
{
    if z1 <= z0 {
        Seq::empty()
    } else {
        row(x, y, z0, z1 - 1).push((x, y, z1 - 1))
    }
}

/// The rows of plane `x` with `y0 <= y < y1`, one after the other by increasing `y`.
pub open spec fn plane(x: int, y0: int, y1: int, z0: int, z1: int) -> Seq<(int, int, int)>
    decreases y1 - y0,
{
    if y1 <= y0 {
        Seq::empty()
    } else {
        plane(x, y0, y1 - 1, z0, z1) + row(x, y1 - 1, z0, z1)
    }
}

/// The cells of the box `[x0, x1) x [y0, y1) x [z0, z1)` in lexicographic
/// order: `x` varies slowest and `z` fastest.
pub open spec fn block(x0: int, x1: int, y0: int, y1: int, z0: int, z1: int) -> Seq<
    (int, int, int),
>
    decreases x1 - x0,
{
    if x1 <= x0 {
        Seq::empty()
    } else {
        block(x0, x1 - 1, y0, y1, z0, z1) + plane(x1 - 1, y0, y1, z0, z1)
    }
}

/// A row holds exactly its cells, each once and in increasing order.
pub proof fn lemma_row(x: int, y: int, z0: int, z1: int)
    ensures
        row(x, y, z0, z1).len() == if z1 <= z0 { 0 } else { z1 - z0 },
        forall|k: int| 0 <= k < row(x, y, z0, z1).len() ==> #[trigger] row(x, y, z0, z1)[k] == (x, y, z0 + k),
    decreases z1 - z0,
{
    if z1 > z0 {
        lemma_row(x, y, z0, z1 - 1);
    }
}

/// A plane holds only cells of its box.
pub proof fn lemma_plane(x: int, y0: int, y1: int, z0: int, z1: int)
    ensures
        forall|k: int| 0 <= k < plane(x, y0, y1, z0, z1).len() ==> in_box(
            #[trigger] plane(x, y0, y1, z0, z1)[k],
            x,
            x + 1,
            y0,
            y1,
            z0,
            z1,
        ),
        forall|c: (int, int, int)| #[trigger]
            in_box(c, x, x + 1, y0, y1, z0, z1) ==> plane(x, y0, y1, z0, z1).contains(c),
    decreases y1 - y0,
{
    if y1 > y0 {
        lemma_plane(x, y0, y1 - 1, z0, z1);
        lemma_row(x, y1 - 1, z0, z1);
        let a = plane(x, y0, y1 - 1, z0, z1);
        let b = row(x, y1 - 1, z0, z1);
        assert forall|c: (int, int, int)| in_box(c, x, x + 1, y0, y1, z0, z1) implies (a + b).contains(c) by {
            if c.1 < y1 - 1 {
                assert(in_box(c, x, x + 1, y0, y1 - 1, z0, z1));
                assert(a.contains(c));
                let k = choose|k: int| 0 <= k < a.len() && a[k] == c;
                assert((a + b)[k] == c);
            } else {
                assert(b[c.2 - z0] == c);
                assert((a + b)[a.len() + c.2 - z0] == c);
            }
        }
    }
}

/// A block holds only cells of its box, and every one of them.
pub proof fn lemma_block(x0: int, x1: int, y0: int, y1: int, z0: int, z1: int)
    ensures
        forall|k: int| 0 <= k < block(x0, x1, y0, y1, z0, z1).len() ==> in_box(
            #[trigger] block(x0, x1, y0, y1, z0, z1)[k],
            x0,
            x1,
            y0,
            y1,
            z0,
            z1,
        ),
        forall|c: (int, int, int)| #[trigger]
            in_box(c, x0, x1, y0, y1, z0, z1) ==> block(x0, x1, y0, y1, z0, z1).contains(c),
    decreases x1 - x0,
{
    if x1 > x0 {
        lemma_block(x0, x1 - 1, y0, y1, z0, z1);
        lemma_plane(x1 - 1, y0, y1, z0, z1);
        let a = block(x0, x1 - 1, y0, y1, z0, z1);
        let b = plane(x1 - 1, y0, y1, z0, z1);
        assert forall|c: (int, int, int)| in_box(c, x0, x1, y0, y1, z0, z1) implies (a + b).contains(c) by {
            if c.0 < x1 - 1 {
                assert(in_box(c, x0, x1 - 1, y0, y1, z0, z1));
                assert(a.contains(c));
                let k = choose|k: int| 0 <= k < a.len() && a[k] == c;
                assert((a + b)[k] == c);
            } else {
                assert(in_box(c, x1 - 1, x1 - 1 + 1, y0, y1, z0, z1));
                assert(b.contains(c));
                let k = choose|k: int| 0 <= k < b.len() && b[k] == c;
                assert((a + b)[a.len() + k] == c);
            }
        }
    }
}

/// No plane holds a cell twice.
pub proof fn lemma_plane_once(x: int, y0: int, y1: int, z0: int, z1: int)
    ensures
        plane(x, y0, y1, z0, z1).no_duplicates(),
    decreases y1 - y0,
{
    if y1 > y0 {
        lemma_plane_once(x, y0, y1 - 1, z0, z1);
        lemma_plane(x, y0, y1 - 1, z0, z1);
        lemma_row(x, y1 - 1, z0, z1);
        let a = plane(x, y0, y1 - 1, z0, z1);
        let b = row(x, y1 - 1, z0, z1);
        assert forall|i: int, j: int| 0 <= i < a.len() && 0 <= j < b.len() implies a[i] != b[j] by {
            assert(in_box(a[i], x, x + 1, y0, y1 - 1, z0, z1));
            assert(b[j] == (x, y1 - 1, z0 + j));
        }
        assert forall|i: int, j: int| 0 <= i < b.len() && 0 <= j < b.len() && i != j implies b[i]
            != b[j] by {
            assert(b[i] == (x, y1 - 1, z0 + i));
            assert(b[j] == (x, y1 - 1, z0 + j));
        }
        vstd::seq_lib::lemma_no_dup_in_concat(a, b);
    }
}

/// No block holds a cell twice.
pub proof fn lemma_block_once(x0: int, x1: int, y0: int, y1: int, z0: int, z1: int)
    ensures
        block(x0, x1, y0, y1, z0, z1).no_duplicates(),
    decreases x1 - x0,
{
    if x1 > x0 {
        lemma_block_once(x0, x1 - 1, y0, y1, z0, z1);
        lemma_block(x0, x1 - 1, y0, y1, z0, z1);
        lemma_plane_once(x1 - 1, y0, y1, z0, z1);
        lemma_plane(x1 - 1, y0, y1, z0, z1);
        let a = block(x0, x1 - 1, y0, y1, z0, z1);
        let b = plane(x1 - 1, y0, y1, z0, z1);
        assert forall|i: int, j: int| 0 <= i < a.len() && 0 <= j < b.len() implies a[i] != b[j] by {
            assert(in_box(a[i], x0, x1 - 1, y0, y1, z0, z1));
            assert(in_box(b[j], x1 - 1, x1 - 1 + 1, y0, y1, z0, z1));
        }
        vstd::seq_lib::lemma_no_dup_in_concat(a, b);
    }
}

} // verus!
