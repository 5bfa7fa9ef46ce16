//! Laying out a board by chance: picking empty cells and filling them.

use vstd::prelude::*;
use crate::board::{
    empties, interior, is_kth_empty, lemma_empties_insert, lemma_kth_empty_unique, lemma_scan_order,
    Board, Cell, Grid, Sprites, CELLS,
};
use crate::dice::{face, next_state, Dice};
use crate::rules::painted;

verus! {

/// The empty cell that a generator in state `dice` picks on board `m`: it
/// steps once and counts that many empty cells in scan order, wrapping
/// around their number.
pub open spec fn drawn(m: Grid, dice: u64) -> Cell {
    let k = face(next_state(dice)) as int % empties(m);
    choose|c: Cell| is_kth_empty(m, k, c)
}

/// Where a layout stands: the board, the generator, and the cells filled
/// so far in the order they were filled.
pub struct Seeding {
    pub board: Grid,
    pub dice: u64,
    pub placed: Seq<Cell>,
}

/// The layout after `n` times picking an empty cell and putting `what` on it.
pub open spec fn scattered(m: Grid, dice: u64, what: Sprites, n: nat) -> Seeding
    decreases n,
{
    if n == 0 {
        Seeding { board: m, dice, placed: Seq::empty() }
    } else {
        let before = scattered(m, dice, what, (n - 1) as nat);
        let c = drawn(before.board, before.dice);
        Seeding {
            board: before.board.insert(c, what),
            dice: next_state(before.dice),
            placed: before.placed.push(c),
        }
    }
}

/// Picks an empty cell by one step of the generator.
pub fn pick_empty(board: &Board, dice: &mut Dice) -> (c: Cell)
    requires
        board.wf(),
        empties(board@) > 0,
    ensures
        c == drawn(board@, old(dice)@),
        final(dice)@ == next_state(old(dice)@),
        interior(c),
        board@[c] == Sprites::Empty,
{
    let n = board.count_empty();
    let k = dice.roll_below(n);
    let c = board.kth_empty(k);
    proof {
        assert(k == face(next_state(old(dice)@)) as int % empties(board@));
        lemma_kth_empty_unique(board@, k as int, c, drawn(board@, old(dice)@));
    }
    c
}

/// Fills `n` empty cells, picked one after the other, with `what`, and
/// returns them in the order filled.
pub fn scatter(board: &mut Board, dice: &mut Dice, what: Sprites, n: u16) -> (placed: Vec<Cell>)
    requires
        old(board).wf(),
        what != Sprites::Empty,
        n <= empties(old(board)@),
    ensures
        final(board).wf(),
        scattered(old(board)@, old(dice)@, what, n as nat) == (Seeding {
            board: final(board)@,
            dice: final(dice)@,
            placed: placed@,
        }),
        placed@.len() == n,
        empties(final(board)@) == empties(old(board)@) - n,
        final(board)@ == painted(old(board)@, placed@, what),
        forall|i: int|
            0 <= i < placed@.len() ==> {
                &&& interior(#[trigger] placed@[i])
                &&& old(board)@[placed@[i]] == Sprites::Empty
            },
        forall|i: int, j: int| 0 <= i < j < placed@.len() ==> placed@[i] != placed@[j],
{
    let mut placed: Vec<Cell> = Vec::new();
    let mut i: u16 = 0;
    assert(board@ =~= painted(old(board)@, placed@, what));
    while i < n
        invariant
            board.wf(),
            old(board).wf(),
            what != Sprites::Empty,
            i <= n <= empties(old(board)@),
            scattered(old(board)@, old(dice)@, what, i as nat) == (Seeding {
                board: board@,
                dice: dice@,
                placed: placed@,
            }),
            placed@.len() == i,
            empties(board@) == empties(old(board)@) - i,
            board@ == painted(old(board)@, placed@, what),
            forall|j: int|
                0 <= j < placed@.len() ==> {
                    &&& interior(#[trigger] placed@[j])
                    &&& old(board)@[placed@[j]] == Sprites::Empty
                },
            forall|j: int, k: int| 0 <= j < k < placed@.len() ==> placed@[j] != placed@[k],
        decreases n - i,
    {
        let ghost before = board@;
        let ghost filled = placed@;
        let c = pick_empty(board, dice);
        board.set(c, what);
        placed.push(c);
        proof {
            lemma_empties_insert(before, c, what, CELLS as int);
            lemma_scan_order(c);
            assert(!filled.contains(c));
            assert forall|e: Cell| placed@.contains(e) <==> filled.contains(e) || e == c by {
                if filled.contains(e) {
                    let j = choose|j: int| 0 <= j < filled.len() && filled[j] == e;
                    assert(placed@[j] == e);
                }
                assert(placed@[filled.len() as int] == c);
            }
            assert(before.dom().contains(c));
            assert(board@ =~= painted(old(board)@, placed@, what));
        }
        i = i + 1;
    }
    placed
}

} // verus!
