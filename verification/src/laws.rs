//! What holds of every turn, proved from the rules.
//!
//! The laws on a whole turn speak of the state before it and of the cell
//! the player steps to. The laws on single robots speak of the board `m` on
//! which the robots resolve, that is the board once the player has stepped,
//! and of the cell `player` on which the player then stands.

use vstd::prelude::*;
use vstd::seq_lib::lemma_seq_contains_after_push;
use crate::board::{in_bounds, interior, on_border, purged, total, Cell, Grid, Sprites};
use crate::engine::{ready, turn};
use crate::game::State;
use crate::rules::{
    agrees, aim, greedy, lemma_greedy_interior, lemma_resolve_settled, lemma_turn, lemma_without,
    off_walls, outcome_of, parked, resolve, resolve_first, robot_step, same_walls, settled, sound,
    synced, Outcome, Resolution,
};

verus! {

/// The direction of a difference: -1, 0 or 1.
pub open spec fn sign(d: int) -> int {
    if d < 0 {
        -1
    } else if d > 0 {
        1
    } else {
        0
    }
}

/// The cells of a board that are marked as robots.
pub open spec fn robot_cells(m: Grid) -> Set<Cell> {
    Set::new(|c: Cell| in_bounds(c) && m[c] == Sprites::Robot)
}

/// The cells of a board that are marked as the player.
pub open spec fn player_cells(m: Grid) -> Set<Cell> {
    Set::new(|c: Cell| in_bounds(c) && m[c] == Sprites::Player)
}

/// Every cell of the rim holds a wall before a turn and after it, and a
/// turn moves no wall anywhere on the board.
pub proof fn law_rim_stays_walled(s: State, destination: Cell)
    requires
        ready(s, destination),
    ensures
        forall|c: Cell|
            on_border(c) ==> {
                &&& s.board[c] == Sprites::Wall
                &&& turn(s, destination).board[c] == Sprites::Wall
            },
        same_walls(s.board, turn(s, destination).board),
{
    lemma_turn(s.board, s.player, s.roster, destination);
    let after = turn(s, destination).board;
    assert forall|c: Cell| on_border(c) implies s.board[c] == Sprites::Wall && after[c] == Sprites::Wall by {
        assert(s.board[c] == Sprites::Wall);
        assert(after[c] == Sprites::Wall);
    }
}

/// After a turn the cells marked as robots are exactly the cells of the
/// new roster.
pub proof fn law_roster_agrees(s: State, destination: Cell)
    requires
        ready(s, destination),
    ensures
        agrees(turn(s, destination).board, turn(s, destination).roster),
        robot_cells(turn(s, destination).board) == turn(s, destination).roster.to_set(),
{
    lemma_turn(s.board, s.player, s.roster, destination);
    let t = turn(s, destination);
    assert forall|c: Cell| robot_cells(t.board).contains(c) <==> t.roster.to_set().contains(c) by {
        if t.roster.contains(c) {
            let i = choose|i: int| 0 <= i < t.roster.len() && t.roster[i] == c;
            assert(interior(t.roster[i]));
        }
    }
    assert(robot_cells(t.board) =~= t.roster.to_set());
}

/// After a turn every robot of the roster stands off the rim on a cell
/// that held no wall before the turn and holds none after it.
pub proof fn law_no_robot_on_a_wall(s: State, destination: Cell)
    requires
        ready(s, destination),
    ensures
        off_walls(s.board, turn(s, destination).roster),
        off_walls(turn(s, destination).board, turn(s, destination).roster),
{
    lemma_turn(s.board, s.player, s.roster, destination);
}

/// In a sound game whose player's cell is marked as such, exactly one cell
/// holds the player.
pub proof fn law_single_player(m: Grid, player: Cell, roster: Seq<Cell>)
    requires
        sound(m, player, roster),
        m[player] == Sprites::Player,
    ensures
        player_cells(m) == set![player],
        player_cells(m).len() == 1,
{
    assert forall|c: Cell| player_cells(m).contains(c) <==> set![player].contains(c) by {
        if in_bounds(c) && c != player {
            assert(m[c] != Sprites::Player);
        }
    }
    assert(player_cells(m) =~= set![player]);
}

/// The player's mark through a turn. After a turn no cell but the player's
/// is marked as the player. The player's own cell holds a robot exactly
/// where the player was caught; short of that it holds the player, so that
/// exactly one cell does, unless two robots wrecked on it.
pub proof fn law_player_after_turn(s: State, destination: Cell)
    requires
        ready(s, destination),
    ensures
        ({
            let t = turn(s, destination);
            let here = t.board[destination];
            &&& forall|c: Cell| in_bounds(c) && c != destination ==> #[trigger] t.board[c] != Sprites::Player
            &&& here == Sprites::Robot <==> outcome_of(destination, t.roster) == Outcome::PlayerCaught
            &&& here != Sprites::Robot && here != Sprites::DeadRobot ==> {
                player_cells(t.board) == set![destination]
            }
        }),
{
    lemma_turn(s.board, s.player, s.roster, destination);
    let t = turn(s, destination);
    if t.board[destination] == Sprites::Player {
        law_single_player(t.board, destination, t.roster);
    }
}

/// Walls do not move during a resolution, so a robot heads for the same
/// cell at every point of it.
pub proof fn lemma_aim_fixed(m: Grid, s: Resolution, robot: Cell, player: Cell)
    requires
        total(m),
        settled(m, s),
        interior(robot),
        interior(player),
    ensures
        aim(s.board, robot, player) == aim(m, robot, player),
{
    lemma_greedy_interior(robot, player);
    assert(m.dom().contains(greedy(robot, player)));
}

/// The greedy step adds to each coordinate the direction in which the
/// player lies.
pub proof fn law_greedy_direction(robot: Cell, player: Cell)
    ensures
        greedy(robot, player).0 == robot.0 + sign(player.0 - robot.0),
        greedy(robot, player).1 == robot.1 + sign(player.1 - robot.1),
{
}

/// Every robot's greedy step, in roster order.
pub open spec fn greedy_steps(roster: Seq<Cell>, player: Cell) -> Seq<Cell> {
    Seq::new(roster.len(), |i: int| greedy(roster[i], player))
}

/// Where no robot's greedy step enters a wall and no two robots step to
/// the same cell, the first `n` robots each claim their greedy step and no
/// wreck is made.
pub proof fn lemma_greedy_prefix(m: Grid, roster: Seq<Cell>, player: Cell, n: int)
    requires
        sound(m, player, roster),
        0 <= n <= roster.len(),
        forall|i: int| 0 <= i < roster.len() ==> m[greedy(#[trigger] roster[i], player)] != Sprites::Wall,
        forall|i: int, j: int|
            0 <= i < j < roster.len() ==> {
                greedy(#[trigger] roster[i], player) != greedy(#[trigger] roster[j], player)
            },
    ensures
        resolve_first(m, roster, player, n).board == purged(m),
        resolve_first(m, roster, player, n).roster == greedy_steps(roster, player).take(n),
    decreases n,
{
    if n > 0 {
        lemma_greedy_prefix(m, roster, player, n - 1);
        let s = resolve_first(m, roster, player, n - 1);
        let robot = roster[n - 1];
        let g = greedy(robot, player);
        lemma_greedy_interior(robot, player);
        assert(m.dom().contains(g) && m.dom().contains(robot));
        assert(aim(s.board, robot, player) == g);
        assert(!parked(s, robot, player));
        assert(!s.roster.contains(g));
        assert(robot_step(s, robot, player).roster =~= greedy_steps(roster, player).take(n));
    } else {
        assert(resolve_first(m, roster, player, n).roster =~= greedy_steps(roster, player).take(n));
    }
}

/// Where no robot's greedy step enters a wall and no two robots step to
/// the same cell, every robot ends one greedy step closer to the player,
/// in roster order, and the turn makes no wreck.
pub proof fn law_greedy_step(m: Grid, roster: Seq<Cell>, player: Cell)
    requires
        sound(m, player, roster),
        forall|i: int| 0 <= i < roster.len() ==> m[greedy(#[trigger] roster[i], player)] != Sprites::Wall,
        forall|i: int, j: int|
            0 <= i < j < roster.len() ==> {
                greedy(#[trigger] roster[i], player) != greedy(#[trigger] roster[j], player)
            },
    ensures
        resolve(m, roster, player).board == purged(m),
        resolve(m, roster, player).roster == greedy_steps(roster, player),
        forall|i: int|
            0 <= i < roster.len() ==> {
                let after = #[trigger] resolve(m, roster, player).roster[i];
                &&& after.0 == roster[i].0 + sign(player.0 - roster[i].0)
                &&& after.1 == roster[i].1 + sign(player.1 - roster[i].1)
            },
{
    lemma_greedy_prefix(m, roster, player, roster.len() as int);
    assert(greedy_steps(roster, player).take(roster.len() as int) =~= greedy_steps(roster, player));
}

/// One robot of the roster is left alone: its greedy step enters no wall,
/// and no other robot starts on or heads for the cell it starts on or the
/// cell it steps to.
pub open spec fn lone_robot(m: Grid, roster: Seq<Cell>, player: Cell, i: int) -> bool {
    let a = roster[i];
    let g = greedy(a, player);
    &&& 0 <= i < roster.len()
    &&& m[g] != Sprites::Wall
    &&& forall|k: int|
        0 <= k < roster.len() && k != i ==> {
            &&& #[trigger] roster[k] != a
            &&& roster[k] != g
            &&& aim(m, roster[k], player) != a
            &&& aim(m, roster[k], player) != g
        }
}

/// How far a lone robot has come after the first `n` robots took their
/// turn: no wreck lies on its cell or on the cell it steps to, and that
/// cell is claimed from the robot's own turn on.
pub open spec fn lone_progress(m: Grid, roster: Seq<Cell>, player: Cell, i: int, n: int) -> bool {
    let s = resolve_first(m, roster, player, n);
    let a = roster[i];
    let g = greedy(a, player);
    &&& s.board[a] != Sprites::DeadRobot
    &&& s.board[g] != Sprites::DeadRobot
    &&& i < n <==> s.roster.contains(g)
    &&& a != g ==> !s.roster.contains(a)
}

/// A lone robot makes the progress described, at every point of the turn.
pub proof fn lemma_lone_progress(m: Grid, roster: Seq<Cell>, player: Cell, i: int, n: int)
    requires
        sound(m, player, roster),
        lone_robot(m, roster, player, i),
        0 <= n <= roster.len(),
    ensures
        lone_progress(m, roster, player, i, n),
    decreases n,
{
    let a = roster[i];
    let g = greedy(a, player);
    lemma_greedy_interior(a, player);
    assert(m.dom().contains(a) && m.dom().contains(g));
    if n > 0 {
        let k = n - 1;
        lemma_lone_progress(m, roster, player, i, k);
        lemma_resolve_settled(m, roster, player, k);
        let s = resolve_first(m, roster, player, k);
        let robot = roster[k];
        lemma_aim_fixed(m, s, robot, player);
        let dk = aim(m, robot, player);
        lemma_without(s.roster, dk);
        lemma_seq_contains_after_push(s.roster, robot, a);
        lemma_seq_contains_after_push(s.roster, robot, g);
        lemma_seq_contains_after_push(s.roster, dk, a);
        lemma_seq_contains_after_push(s.roster, dk, g);
        if k == i {
            assert(dk == g);
            assert(!parked(s, robot, player));
        } else {
            assert(robot != a && robot != g && dk != a && dk != g);
        }
    }
}

/// A robot left alone ends one greedy step closer to the player, whatever
/// becomes of the others: after the turn the roster names the cell it
/// stepped to, that cell holds a robot, and the cell it left is empty.
pub proof fn law_lone_robot_steps(m: Grid, roster: Seq<Cell>, player: Cell, i: int)
    requires
        sound(m, player, roster),
        lone_robot(m, roster, player, i),
    ensures
        ({
            let r = resolve(m, roster, player);
            let after = synced(roster, r);
            let g = greedy(roster[i], player);
            &&& g.0 == roster[i].0 + sign(player.0 - roster[i].0)
            &&& g.1 == roster[i].1 + sign(player.1 - roster[i].1)
            &&& r.roster.contains(g)
            &&& after[g] == Sprites::Robot
            &&& roster[i] != g ==> !r.roster.contains(roster[i]) && after[roster[i]] == Sprites::Empty
        }),
{
    let a = roster[i];
    let g = greedy(a, player);
    lemma_lone_progress(m, roster, player, i, roster.len() as int);
    lemma_resolve_settled(m, roster, player, roster.len() as int);
    lemma_greedy_interior(a, player);
    let r = resolve(m, roster, player);
    assert(r.board.dom().contains(a) && r.board.dom().contains(g));
    assert(roster.contains(a));
}

/// Two robots of the roster head for one cell and nothing else touches
/// the three cells involved: no robot starts on the cell they head for, no
/// robot heads for a cell on which one of the two starts, and no third
/// robot heads for their cell or starts where one of them starts.
pub open spec fn lone_pair(m: Grid, roster: Seq<Cell>, player: Cell, i: int, j: int) -> bool {
    let a = roster[i];
    let b = roster[j];
    let d = aim(m, a, player);
    &&& 0 <= i < j < roster.len()
    &&& aim(m, b, player) == d
    &&& forall|k: int|
        0 <= k < roster.len() ==> {
            &&& #[trigger] roster[k] != d
            &&& aim(m, roster[k], player) != a
            &&& aim(m, roster[k], player) != b
        }
    &&& forall|k: int|
        0 <= k < roster.len() && k != i && k != j ==> {
            &&& aim(m, #[trigger] roster[k], player) != d
            &&& roster[k] != a
            &&& roster[k] != b
        }
}

/// How far a lone pair has come after the first `n` robots took their
/// turn: neither of the two cells they start on is claimed or wrecked; the
/// cell they head for is untouched before the first of them moves, claimed
/// between the first and the second, and a wreck that nobody claims after
/// the second.
pub open spec fn pair_progress(
    m: Grid,
    roster: Seq<Cell>,
    player: Cell,
    i: int,
    j: int,
    n: int,
) -> bool {
    let s = resolve_first(m, roster, player, n);
    let a = roster[i];
    let b = roster[j];
    let d = aim(m, a, player);
    &&& s.board[a] != Sprites::DeadRobot
    &&& s.board[b] != Sprites::DeadRobot
    &&& !s.roster.contains(a)
    &&& !s.roster.contains(b)
    &&& n <= j ==> s.board[d] != Sprites::DeadRobot
    &&& j < n ==> s.board[d] == Sprites::DeadRobot
    &&& i < n <= j <==> s.roster.contains(d)
}

/// A lone pair makes the progress described, at every point of the turn.
pub proof fn lemma_pair_progress(m: Grid, roster: Seq<Cell>, player: Cell, i: int, j: int, n: int)
    requires
        sound(m, player, roster),
        lone_pair(m, roster, player, i, j),
        0 <= n <= roster.len(),
    ensures
        pair_progress(m, roster, player, i, j, n),
    decreases n,
{
    let a = roster[i];
    let b = roster[j];
    let d = aim(m, a, player);
    assert(m.dom().contains(a) && m.dom().contains(b));
    lemma_greedy_interior(a, player);
    assert(interior(d));
    assert(m.dom().contains(d));
    if n > 0 {
        let k = n - 1;
        lemma_pair_progress(m, roster, player, i, j, k);
        lemma_resolve_settled(m, roster, player, k);
        let s = resolve_first(m, roster, player, k);
        let robot = roster[k];
        lemma_aim_fixed(m, s, robot, player);
        let dk = aim(m, robot, player);
        lemma_without(s.roster, dk);
        lemma_seq_contains_after_push(s.roster, robot, a);
        lemma_seq_contains_after_push(s.roster, robot, b);
        lemma_seq_contains_after_push(s.roster, robot, d);
        lemma_seq_contains_after_push(s.roster, dk, a);
        lemma_seq_contains_after_push(s.roster, dk, b);
        lemma_seq_contains_after_push(s.roster, dk, d);
        if k == i || k == j {
            assert(dk == d);
            assert(!parked(s, robot, player));
        } else {
            assert(dk != d && dk != a && dk != b);
            assert(robot != a && robot != b && robot != d);
        }
    }
}

/// Two robots that start on `a` and `b` and head for one cell `d`, with
/// nothing else touching these cells, both wreck: after the turn `d` holds
/// a wreck, `a` and `b` are empty, and the roster names none of the three.
pub proof fn law_collision(m: Grid, roster: Seq<Cell>, player: Cell, i: int, j: int)
    requires
        sound(m, player, roster),
        lone_pair(m, roster, player, i, j),
    ensures
        ({
            let r = resolve(m, roster, player);
            let after = synced(roster, r);
            let d = aim(m, roster[i], player);
            &&& after[d] == Sprites::DeadRobot
            &&& after[roster[i]] == Sprites::Empty
            &&& after[roster[j]] == Sprites::Empty
            &&& !r.roster.contains(d)
            &&& !r.roster.contains(roster[i])
            &&& !r.roster.contains(roster[j])
        }),
{
    let a = roster[i];
    let b = roster[j];
    let d = aim(m, a, player);
    lemma_pair_progress(m, roster, player, i, j, roster.len() as int);
    lemma_resolve_settled(m, roster, player, roster.len() as int);
    lemma_greedy_interior(a, player);
    let r = resolve(m, roster, player);
    assert(r.board.dom().contains(a) && r.board.dom().contains(b) && r.board.dom().contains(d));
    assert(roster.contains(a) && roster.contains(b));
    if roster.contains(d) {
        let k = choose|k: int| 0 <= k < roster.len() && roster[k] == d;
    }
}

} // verus!
