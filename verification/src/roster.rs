//! Lists of cells: looking a cell up, taking a cell out.

use vstd::prelude::*;
use crate::board::Cell;
use crate::rules::without;

verus! {

/// Whether a cell is among the given cells.
pub fn contains_cell(cells: &Vec<Cell>, c: Cell) -> (found: bool)
    ensures
        found == cells@.contains(c),
{
    let mut i: usize = 0;
    while i < cells.len()
        invariant
            i <= cells@.len(),
            forall|j: int| 0 <= j < i ==> cells@[j] != c,
        decreases cells@.len() - i,
    {
        let e = cells[i];
        if e.0 == c.0 && e.1 == c.1 {
            return true;
        }
        i = i + 1;
    }
    false
}

/// The given cells without any entry at `c`, the others in their order.
pub fn remove_cell(cells: &Vec<Cell>, c: Cell) -> (kept: Vec<Cell>)
    ensures
        kept@ == without(cells@, c),
{
    let mut kept: Vec<Cell> = Vec::new();
    let mut i: usize = 0;
    proof {
        reveal(Seq::filter);
        assert(cells@.take(0) =~= Seq::empty());
    }
    while i < cells.len()
        invariant
            i <= cells@.len(),
            kept@ == without(cells@.take(i as int), c),
        decreases cells@.len() - i,
    {
        let e = cells[i];
        proof {
            reveal(Seq::filter);
            assert(cells@.take(i + 1).drop_last() =~= cells@.take(i as int));
            assert(cells@.take(i + 1).last() == e);
        }
        if !(e.0 == c.0 && e.1 == c.1) {
            kept.push(e);
        }
        i = i + 1;
    }
    assert(cells@.take(cells@.len() as int) =~= cells@);
    kept
}

} // verus!
