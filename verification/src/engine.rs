//! One turn of the game: the player steps, every robot answers, wrecks are
//! made and cleared, and the turn's outcome is read off.

use vstd::prelude::*;
use crate::board::{interior, Board, Cell, Sprites};
use crate::game::{Game, State};
use crate::roster::{contains_cell, remove_cell};
use crate::rules::{
    agrees, aim, lemma_greedy_interior, lemma_resolve_settled, lemma_robot_step_settled,
    lemma_settled_sound, lemma_turn, lemma_without, off_walls, open_to_player, outcome_of, painted,
    resolve, resolve_first, same_walls, settled, sound, stepped, synced, toward, Outcome,
};

verus! {

/// The game after one turn in which the player steps to `destination`.
pub open spec fn turn(s: State, destination: Cell) -> State {
    let r = resolve(stepped(s.board, s.player, destination), s.roster, destination);
    State { board: synced(s.roster, r), player: destination, roster: r.roster, ..s }
}

/// A state from which a turn may be played with the player stepping to
/// `destination`: the game is sound, the robots' marks are the roster's
/// cells, the player does not lie under a robot, and the destination is
/// open to the player.
pub open spec fn ready(s: State, destination: Cell) -> bool {
    &&& sound(s.board, s.player, s.roster)
    &&& agrees(s.board, s.roster)
    &&& s.board[s.player] != Sprites::Robot
    &&& open_to_player(s.board, destination)
}

/// One coordinate moved one step closer to a target.
fn step_toward(a: u16, target: u16) -> (r: u16)
    ensures
        r == toward(a, target),
{
    if a > target {
        a - 1
    } else if a < target {
        a + 1
    } else {
        a
    }
}

/// Puts `what` on each of the given cells.
fn paint(board: &mut Board, cells: &Vec<Cell>, what: Sprites)
    requires
        old(board).wf(),
        what != Sprites::Wall,
        forall|i: int| 0 <= i < cells@.len() ==> interior(#[trigger] cells@[i]),
    ensures
        final(board).wf(),
        final(board)@ == painted(old(board)@, cells@, what),
{
    let mut i: usize = 0;
    assert(board@ =~= painted(old(board)@, cells@.take(0), what));
    while i < cells.len()
        invariant
            board.wf(),
            old(board).wf(),
            what != Sprites::Wall,
            i <= cells@.len(),
            forall|j: int| 0 <= j < cells@.len() ==> interior(#[trigger] cells@[j]),
            board@ == painted(old(board)@, cells@.take(i as int), what),
        decreases cells@.len() - i,
    {
        let c = cells[i];
        board.set(c, what);
        proof {
            let before = cells@.take(i as int);
            let after = cells@.take(i + 1);
            assert(after =~= before.push(c));
            assert forall|e: Cell| after.contains(e) <==> before.contains(e) || e == c by {
                if before.contains(e) {
                    let j = choose|j: int| 0 <= j < before.len() && before[j] == e;
                    assert(after[j] == e);
                }
                assert(after[i as int] == c);
            }
            assert(board@ =~= painted(old(board)@, after, what));
        }
        i = i + 1;
    }
    assert(cells@.take(cells@.len() as int) =~= cells@);
}

/// Resolves the robots' moves for one turn. Old wrecks are cleared first.
/// Then each robot, in roster order, takes its turn: it sits out where a
/// wreck of this turn lies on its cell or on the cell it heads for, wrecks
/// together with every claimant of a cell already claimed, and claims its
/// cell otherwise. The claims come back in the order made; the board holds
/// the turn's wrecks; the roster and the robots' marks are left as they were.
pub fn get_next_robot_positions(board: &mut Game) -> (robot_destinations: Vec<Cell>)
    requires
        old(board).wf(),
    ensures
        robot_destinations@ == resolve(old(board)@.board, old(board)@.roster, old(board)@.player).roster,
        final(board)@ == (State {
            board: resolve(old(board)@.board, old(board)@.roster, old(board)@.player).board,
            ..old(board)@
        }),
        final(board).wf(),
        same_walls(old(board)@.board, final(board)@.board),
        robot_destinations@.len() <= old(board)@.roster.len(),
        off_walls(old(board)@.board, robot_destinations@),
{
    let ghost m = board@.board;
    let ghost roster = board@.roster;
    let player = board.player_current_position;
    let mut robot_destinations: Vec<Cell> = Vec::new();
    board.board.clear_wrecks();
    proof {
        lemma_resolve_settled(m, roster, player, 0);
    }
    let mut i: usize = 0;
    while i < board.robot_current_positions.len()
        invariant
            sound(m, player, roster),
            board.board.wf(),
            board@ == (State { board: board@.board, ..old(board)@ }),
            m == old(board)@.board,
            roster == old(board)@.roster,
            player == old(board)@.player,
            i <= roster.len(),
            board@.board == resolve_first(m, roster, player, i as int).board,
            robot_destinations@ == resolve_first(m, roster, player, i as int).roster,
            settled(m, resolve_first(m, roster, player, i as int)),
            robot_destinations@.len() <= i,
        decreases roster.len() - i,
    {
        let ghost s = resolve_first(m, roster, player, i as int);
        let (x, y) = board.robot_current_positions[i];
        let mut new_x = step_toward(x, player.0);
        let mut new_y = step_toward(y, player.1);
        proof {
            lemma_greedy_interior((x, y), player);
            lemma_robot_step_settled(m, s, (x, y), player);
            lemma_without(s.roster, aim(s.board, (x, y), player));
        }
        if board.board.get((new_x, new_y)) == Sprites::Wall {
            new_x = x;
            new_y = y;
        }
        assert((new_x, new_y) == aim(s.board, (x, y), player));
        let on_wreck = board.board.get((x, y)) == Sprites::DeadRobot;
        let toward_wreck = board.board.get((new_x, new_y)) == Sprites::DeadRobot;
        if on_wreck || toward_wreck {
            robot_destinations.push((x, y));
        } else if contains_cell(&robot_destinations, (new_x, new_y)) {
            board.board.set((new_x, new_y), Sprites::DeadRobot);
            robot_destinations = remove_cell(&robot_destinations, (new_x, new_y));
        } else {
            robot_destinations.push((new_x, new_y));
        }
        i = i + 1;
    }
    proof {
        lemma_settled_sound(m, resolve(m, roster, player), player, roster);
    }
    robot_destinations
}

/// Plays one turn: the player steps to `destination`, the robots answer,
/// their marks follow them on the board, and the roster becomes the list of
/// survivors. The player is caught where a robot ends on the player's cell;
/// short of that, the robots are destroyed where none is left.
pub fn take_turn(board: &mut Game, destination: Cell) -> (outcome: Outcome)
    requires
        old(board).wf(),
        ready(old(board)@, destination),
    ensures
        final(board)@ == turn(old(board)@, destination),
        outcome == outcome_of(destination, final(board)@.roster),
        final(board).wf(),
        agrees(final(board)@.board, final(board)@.roster),
        same_walls(old(board)@.board, final(board)@.board),
        off_walls(old(board)@.board, final(board)@.roster),
        outcome == Outcome::PlayerCaught <==> final(board)@.board[destination] == Sprites::Robot,
{
    let ghost before = board@.roster;
    proof {
        lemma_turn(board@.board, board@.player, before, destination);
    }
    board.update_player_position(destination);
    let robot_destinations = get_next_robot_positions(board);
    paint(&mut board.board, &board.robot_current_positions, Sprites::Empty);
    paint(&mut board.board, &robot_destinations, Sprites::Robot);
    let caught = contains_cell(&robot_destinations, destination);
    let none_left = robot_destinations.len() == 0;
    board.robot_current_positions = robot_destinations;
    if caught {
        Outcome::PlayerCaught
    } else if none_left {
        Outcome::AllRobotsDestroyed
    } else {
        Outcome::Continue
    }
}

} // verus!
