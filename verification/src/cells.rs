//! Searches and copies of lists of cells.

use crate::grid::{in_bounds, Cell};
use vstd::prelude::*;

verus! {

/// Every cell of the list lies on the grid.
pub open spec fn all_in_bounds(size: (usize, usize), cells: Seq<Cell>) -> bool {
    forall|i: int| 0 <= i < cells.len() ==> in_bounds(size, #[trigger] cells[i])
}

/// Whether two cells are the same.
pub fn same_cell(a: Cell, b: Cell) -> (r: bool)
    ensures
        r == (a == b),
{
    a.0 == b.0 && a.1 == b.1
}

/// Whether `cell` occurs among the first `count` cells of the list.
pub fn occurs_in_prefix(cells: &Vec<Cell>, count: usize, cell: Cell) -> (r: bool)
    requires
        count <= cells@.len(),
    ensures
        r == cells@.take(count as int).contains(cell),
{
    let mut i: usize = 0;
    while i < count
        invariant
            i <= count <= cells@.len(),
            forall|j: int| 0 <= j < i ==> cells@[j] != cell,
        decreases count - i,
    {
        if same_cell(cells[i], cell) {
            assert(cells@.take(count as int)[i as int] == cell);
            return true;
        }
        i += 1;
    }
    false
}

/// Whether `cell` occurs in the list.
pub fn occurs(cells: &Vec<Cell>, cell: Cell) -> (r: bool)
    ensures
        r == cells@.contains(cell),
{
    assert(cells@.take(cells@.len() as int) =~= cells@);
    occurs_in_prefix(cells, cells.len(), cell)
}

/// Whether every cell of the list lies on the grid.
pub fn within(size: (usize, usize), cells: &Vec<Cell>) -> (r: bool)
    ensures
        r == all_in_bounds(size, cells@),
{
    let mut i: usize = 0;
    while i < cells.len()
        invariant
            i <= cells@.len(),
            forall|j: int| 0 <= j < i ==> in_bounds(size, #[trigger] cells@[j]),
        decreases cells@.len() - i,
    {
        if !(cells[i].0 < size.0 && cells[i].1 < size.1) {
            return false;
        }
        i += 1;
    }
    true
}

/// Whether no cell occurs twice in the list.
pub fn distinct(cells: &Vec<Cell>) -> (r: bool)
    ensures
        r == cells@.no_duplicates(),
{
    let mut i: usize = 0;
    while i < cells.len()
        invariant
            i <= cells@.len(),
            cells@.take(i as int).no_duplicates(),
        decreases cells@.len() - i,
    {
        if occurs_in_prefix(cells, i, cells[i]) {
            let ghost j = cells@.take(i as int).index_of(cells@[i as int]);
            assert(cells@.take(i as int)[j] == cells@[i as int]);
            assert(cells@[j] == cells@[i as int]);
            return false;
        }
        proof {
            let before = cells@.take(i as int);
            let after = cells@.take(i + 1);
            assert forall|a: int, b: int|
                0 <= a < after.len() && 0 <= b < after.len() && a != b implies after[a]
                != after[b] by {
                if a < i && b < i {
                    assert(before[a] != before[b]);
                } else if a < i {
                    assert(before[a] == cells@[a]);
                    assert(!before.contains(cells@[i as int]));
                } else {
                    assert(before[b] == cells@[b]);
                    assert(!before.contains(cells@[i as int]));
                }
            }
        }
        i += 1;
    }
    assert(cells@.take(cells@.len() as int) =~= cells@);
    true
}

/// A copy of the list.
pub fn copy_of(cells: &Vec<Cell>) -> (r: Vec<Cell>)
    ensures
        r@ == cells@,
{
    let mut out: Vec<Cell> = Vec::with_capacity(cells.len());
    let mut i: usize = 0;
    while i < cells.len()
        invariant
            i <= cells@.len(),
            out@ == cells@.take(i as int),
        decreases cells@.len() - i,
    {
        out.push(cells[i]);
        assert(out@ =~= cells@.take(i + 1));
        i += 1;
    }
    assert(cells@.take(cells@.len() as int) =~= cells@);
    out
}

/// A copy of the list without `cell`. The cells that stay keep their order.
pub fn without(cells: &Vec<Cell>, cell: Cell) -> (r: Vec<Cell>)
    ensures
        forall|c: Cell| r@.contains(c) <==> (cells@.contains(c) && c != cell),
        r@.to_set() == cells@.to_set().remove(cell),
        cells@.no_duplicates() ==> r@.no_duplicates(),
        r@.len() <= cells@.len(),
{
    let mut out: Vec<Cell> = Vec::with_capacity(cells.len());
    let mut i: usize = 0;
    while i < cells.len()
        invariant
            i <= cells@.len(),
            out@.len() <= i,
            forall|k: int|
                0 <= k < out@.len() ==> (#[trigger] out@[k]) != cell && cells@.take(
                    i as int,
                ).contains(out@[k]),
            forall|j: int| 0 <= j < i && cells@[j] != cell ==> out@.contains(#[trigger] cells@[j]),
            cells@.no_duplicates() ==> out@.no_duplicates(),
        decreases cells@.len() - i,
    {
        let ghost before = out@;
        let ghost seen = cells@.take(i as int);
        let ghost seen_next = cells@.take(i + 1);
        let current = cells[i];
        assert forall|c: Cell| seen.contains(c) implies seen_next.contains(c) by {
            let j = seen.index_of(c);
            assert(seen_next[j] == c);
        }
        if !same_cell(current, cell) {
            out.push(current);
            proof {
                assert(seen_next[i as int] == current);
                assert forall|k: int| 0 <= k < out@.len() implies (#[trigger] out@[k]) != cell
                    && seen_next.contains(out@[k]) by {
                    if k < before.len() {
                        assert(out@[k] == before[k]);
                    }
                }
                assert forall|j: int| 0 <= j <= i && cells@[j] != cell implies out@.contains(
                    #[trigger] cells@[j],
                ) by {
                    if j < i {
                        let k = before.index_of(cells@[j]);
                        assert(out@[k] == cells@[j]);
                    } else {
                        assert(out@[before.len() as int] == cells@[j]);
                    }
                }
                if cells@.no_duplicates() {
                    assert forall|a: int, b: int|
                        0 <= a < out@.len() && 0 <= b < out@.len() && a != b implies out@[a]
                        != out@[b] by {
                        if a < before.len() && b < before.len() {
                            assert(before[a] != before[b]);
                        } else {
                            let old_one = if a < before.len() { a } else { b };
                            assert(seen.contains(before[old_one]));
                            let j = seen.index_of(before[old_one]);
                            assert(cells@[j] == before[old_one]);
                            assert(cells@[j] != cells@[i as int]);
                        }
                    }
                }
            }
        }
        i += 1;
    }
    proof {
        assert(cells@.take(cells@.len() as int) =~= cells@);
        assert forall|c: Cell| out@.contains(c) <==> (cells@.contains(c) && c != cell) by {
            if out@.contains(c) {
                let k = out@.index_of(c);
                assert(out@[k] == c);
            }
            if cells@.contains(c) && c != cell {
                let j = cells@.index_of(c);
                assert(cells@[j] == c);
            }
        }
        assert(out@.to_set() =~= cells@.to_set().remove(cell));
    }
    out
}

} // verus!
