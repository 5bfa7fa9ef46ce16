//! The rules of one turn, stated over plain values: how a robot picks its
//! step, when robots wreck, and how a turn ends.

use vstd::prelude::*;
use crate::board::{in_bounds, interior, on_border, purged, total, walled, Cell, Grid, Sprites};

verus! {

/// One coordinate moved one step closer to a target.
pub open spec fn toward(a: u16, target: u16) -> u16 {
    if a > target {
        (a - 1) as u16
    } else if a < target {
        (a + 1) as u16
    } else {
        a
    }
}

/// The cell one greedy step from `robot` toward `player`: diagonal while
/// neither coordinate agrees, straight once one does.
pub open spec fn greedy(robot: Cell, player: Cell) -> Cell {
    (toward(robot.0, player.0), toward(robot.1, player.1))
}

/// The cell a robot heads for: its greedy step, or its own cell where that
/// step would enter a wall.
pub open spec fn aim(m: Grid, robot: Cell, player: Cell) -> Cell {
    if m[greedy(robot, player)] == Sprites::Wall {
        robot
    } else {
        greedy(robot, player)
    }
}

/// The roster with every entry at `c` taken out, the others in their order.
pub open spec fn without(roster: Seq<Cell>, c: Cell) -> Seq<Cell> {
    roster.filter(|e: Cell| e != c)
}

/// Where the resolution of a turn stands: the board so far, and the cells
/// claimed so far in the order they were claimed.
pub struct Resolution {
    pub board: Grid,
    pub roster: Seq<Cell>,
}

/// A robot sits out the turn when a wreck of this turn lies on its own cell
/// or on the cell it heads for.
pub open spec fn parked(s: Resolution, robot: Cell, player: Cell) -> bool {
    s.board[robot] == Sprites::DeadRobot || s.board[aim(s.board, robot, player)] == Sprites::DeadRobot
}

/// One robot takes its turn. A parked robot keeps its cell. A robot that
/// heads for a claimed cell wrecks there together with every claimant.
/// Any other robot claims the cell it heads for.
pub open spec fn robot_step(s: Resolution, robot: Cell, player: Cell) -> Resolution {
    let d = aim(s.board, robot, player);
    if parked(s, robot, player) {
        Resolution { board: s.board, roster: s.roster.push(robot) }
    } else if s.roster.contains(d) {
        Resolution { board: s.board.insert(d, Sprites::DeadRobot), roster: without(s.roster, d) }
    } else {
        Resolution { board: s.board, roster: s.roster.push(d) }
    }
}

/// The resolution after the first `n` robots of the roster took their turn,
/// on a board purged of old wrecks.
pub open spec fn resolve_first(m: Grid, roster: Seq<Cell>, player: Cell, n: int) -> Resolution
    decreases n,
{
    if n <= 0 {
        Resolution { board: purged(m), roster: Seq::empty() }
    } else {
        robot_step(resolve_first(m, roster, player, n - 1), roster[n - 1], player)
    }
}

/// The resolution of a whole turn, robots taken in roster order.
pub open spec fn resolve(m: Grid, roster: Seq<Cell>, player: Cell) -> Resolution {
    resolve_first(m, roster, player, roster.len() as int)
}

/// The board with `what` on each of the given cells.
pub open spec fn painted(m: Grid, cells: Seq<Cell>, what: Sprites) -> Grid {
    Map::new(|c: Cell| m.dom().contains(c), |c: Cell| if cells.contains(c) { what } else { m[c] })
}

/// The board after the robots were moved on it: the cells of the new roster
/// hold robots, the cells that only the old roster names are empty, and
/// every other cell is as the resolution left it.
pub open spec fn synced(before: Seq<Cell>, s: Resolution) -> Grid {
    painted(painted(s.board, before, Sprites::Empty), s.roster, Sprites::Robot)
}

/// The board after the player left one cell for another.
pub open spec fn stepped(m: Grid, from: Cell, to: Cell) -> Grid {
    m.insert(from, Sprites::Empty).insert(to, Sprites::Player)
}

/// How a turn ends.
#[derive(Clone, Copy, Debug, PartialEq, Eq, Structural)]
pub enum Outcome {
    Continue,
    PlayerCaught,
    AllRobotsDestroyed,
}

/// How a turn ends for a player at `player` once the robots stand at
/// `roster`: capture comes before anything else.
pub open spec fn outcome_of(player: Cell, roster: Seq<Cell>) -> Outcome {
    if roster.contains(player) {
        Outcome::PlayerCaught
    } else if roster.len() == 0 {
        Outcome::AllRobotsDestroyed
    } else {
        Outcome::Continue
    }
}

/// The player may step onto the cell: it holds neither a wall nor a robot.
pub open spec fn open_to_player(m: Grid, c: Cell) -> bool {
    in_bounds(c) && m[c] != Sprites::Wall && m[c] != Sprites::Robot
}

/// Every one of the cells lies off the rim and off the walls of the board.
pub open spec fn off_walls(m: Grid, cells: Seq<Cell>) -> bool {
    forall|i: int| 0 <= i < cells.len() ==> interior(#[trigger] cells[i]) && m[cells[i]] != Sprites::Wall
}

/// What holds of board, player and roster at every point of a game: the
/// board is total with a rim of walls, player and robots stand off the rim
/// and off walls, and no cell but the player's is marked as the player.
pub open spec fn sound(m: Grid, player: Cell, roster: Seq<Cell>) -> bool {
    &&& total(m)
    &&& walled(m)
    &&& interior(player)
    &&& m[player] != Sprites::Wall
    &&& forall|c: Cell| in_bounds(c) && c != player ==> #[trigger] m[c] != Sprites::Player
    &&& off_walls(m, roster)
}

/// The cells marked as robots are the cells of the roster.
pub open spec fn agrees(m: Grid, roster: Seq<Cell>) -> bool {
    forall|c: Cell| in_bounds(c) ==> (#[trigger] m[c] == Sprites::Robot <==> roster.contains(c))
}

/// A layout from which a game can start: it is sound, the robots' marks
/// are the roster's cells, and the player's cell is marked as such.
pub open spec fn playable(m: Grid, player: Cell, roster: Seq<Cell>) -> bool {
    sound(m, player, roster) && agrees(m, roster) && m[player] == Sprites::Player
}

/// Walls stand where they stood.
pub open spec fn same_walls(a: Grid, b: Grid) -> bool {
    forall|c: Cell| in_bounds(c) ==> (#[trigger] a[c] == Sprites::Wall <==> #[trigger] b[c] == Sprites::Wall)
}

/// What holds at every point of a resolution that started from `m`: the
/// board is the purged `m` but for wrecks laid on cells off the rim and off
/// walls, and every claimed cell lies off the rim and off walls.
pub open spec fn settled(m: Grid, s: Resolution) -> bool {
    &&& total(s.board)
    &&& forall|c: Cell|
        in_bounds(c) ==> {
            ||| #[trigger] s.board[c] == purged(m)[c]
            ||| s.board[c] == Sprites::DeadRobot && interior(c) && m[c] != Sprites::Wall
        }
    &&& off_walls(m, s.roster)
}

/// Taking a cell out of a roster leaves exactly the other entries.
pub proof fn lemma_without(roster: Seq<Cell>, c: Cell)
    ensures
        without(roster, c).len() <= roster.len(),
        forall|e: Cell| #[trigger] without(roster, c).contains(e) <==> (roster.contains(e) && e != c),
    decreases roster.len(),
{
    reveal(Seq::filter);
    if roster.len() > 0 {
        let front = roster.drop_last();
        let last = roster.last();
        lemma_without(front, c);
        assert forall|e: Cell| {
            #[trigger] without(roster, c).contains(e) <==> (roster.contains(e) && e != c)
        } by {
            if roster.contains(e) {
                let i = choose|i: int| 0 <= i < roster.len() && roster[i] == e;
                if i < roster.len() - 1 {
                    assert(front[i] == e);
                }
            }
            if front.contains(e) {
                let i = choose|i: int| 0 <= i < front.len() && front[i] == e;
                assert(roster[i] == e);
            }
            if last != c {
                let kept = without(front, c);
                assert(without(roster, c) == kept.push(last));
                assert(kept.push(last)[kept.len() as int] == last);
                if kept.contains(e) {
                    let i = choose|i: int| 0 <= i < kept.len() && kept[i] == e;
                    assert(kept.push(last)[i] == e);
                }
            }
        }
    }
}

/// A greedy step between two cells off the rim ends off the rim.
pub proof fn lemma_greedy_interior(robot: Cell, player: Cell)
    requires
        interior(robot),
        interior(player),
    ensures
        interior(greedy(robot, player)),
{
}

/// One robot's turn keeps a resolution settled.
pub proof fn lemma_robot_step_settled(m: Grid, s: Resolution, robot: Cell, player: Cell)
    requires
        total(m),
        settled(m, s),
        interior(robot),
        interior(player),
        m[robot] != Sprites::Wall,
    ensures
        settled(m, robot_step(s, robot, player)),
        robot_step(s, robot, player).roster.len() <= s.roster.len() + 1,
        interior(aim(s.board, robot, player)),
        m[aim(s.board, robot, player)] != Sprites::Wall,
{
    let d = aim(s.board, robot, player);
    let t = robot_step(s, robot, player);
    lemma_greedy_interior(robot, player);
    lemma_without(s.roster, d);
    assert(m.dom().contains(greedy(robot, player)) && m.dom().contains(robot));
    assert(s.board[greedy(robot, player)] == Sprites::Wall <==> m[greedy(robot, player)] == Sprites::Wall);
    assert forall|i: int| 0 <= i < t.roster.len() implies {
        interior(#[trigger] t.roster[i]) && m[t.roster[i]] != Sprites::Wall
    } by {
        if !parked(s, robot, player) && s.roster.contains(d) {
            assert(without(s.roster, d).contains(t.roster[i]));
            let j = choose|j: int| 0 <= j < s.roster.len() && s.roster[j] == t.roster[i];
        }
    }
}

/// A settled resolution of a sound game leaves the game sound and its walls
/// where they stood.
pub proof fn lemma_settled_sound(m: Grid, s: Resolution, player: Cell, roster: Seq<Cell>)
    requires
        sound(m, player, roster),
        settled(m, s),
    ensures
        sound(s.board, player, roster),
        same_walls(m, s.board),
{
    assert forall|c: Cell| in_bounds(c) implies {
        #[trigger] m[c] == Sprites::Wall <==> #[trigger] s.board[c] == Sprites::Wall
    } by {
        assert(m.dom().contains(c));
    }
    assert forall|c: Cell| in_bounds(c) && c != player implies #[trigger] s.board[c] != Sprites::Player by {
        assert(m.dom().contains(c));
        assert(m[c] != Sprites::Player);
    }
    assert forall|i: int| 0 <= i < roster.len() implies {
        interior(#[trigger] roster[i]) && s.board[roster[i]] != Sprites::Wall
    } by {
        assert(m.dom().contains(roster[i]));
    }
    assert(m.dom().contains(player));
    assert forall|c: Cell| on_border(c) implies #[trigger] s.board[c] == Sprites::Wall by {
        assert(m.dom().contains(c));
        assert(m[c] == Sprites::Wall);
    }
}

/// Every prefix of a resolution on a sound game is settled.
pub proof fn lemma_resolve_settled(m: Grid, roster: Seq<Cell>, player: Cell, n: int)
    requires
        sound(m, player, roster),
        0 <= n <= roster.len(),
    ensures
        settled(m, resolve_first(m, roster, player, n)),
        resolve_first(m, roster, player, n).roster.len() <= n,
    decreases n,
{
    if n > 0 {
        lemma_resolve_settled(m, roster, player, n - 1);
        lemma_robot_step_settled(m, resolve_first(m, roster, player, n - 1), roster[n - 1], player);
    }
}

/// The player's step keeps a game sound. Walls stay unless the player
/// steps on one, and the robots' marks stay the roster's cells unless a
/// robot's mark is stepped on or left behind.
pub proof fn lemma_stepped(m: Grid, player: Cell, roster: Seq<Cell>, destination: Cell)
    requires
        sound(m, player, roster),
        interior(destination),
    ensures
        sound(stepped(m, player, destination), destination, roster),
        stepped(m, player, destination)[destination] == Sprites::Player,
        m[destination] != Sprites::Wall ==> same_walls(m, stepped(m, player, destination)),
        ({
            &&& agrees(m, roster)
            &&& m[destination] != Sprites::Robot
            &&& m[player] != Sprites::Robot
        }) ==> agrees(stepped(m, player, destination), roster),
{
    let after = stepped(m, player, destination);
    assert(m.dom().contains(player) && m.dom().contains(destination));
    assert forall|c: Cell| #[trigger] after.dom().contains(c) <==> in_bounds(c) by {
        assert(m.dom().contains(c) <==> in_bounds(c));
    }
    assert forall|c: Cell| on_border(c) implies #[trigger] after[c] == Sprites::Wall by {
        assert(m[c] == Sprites::Wall);
    }
    assert forall|c: Cell| in_bounds(c) && c != destination implies {
        #[trigger] after[c] != Sprites::Player
    } by {
        if c != player {
            assert(m[c] != Sprites::Player);
        }
    }
    assert forall|i: int| 0 <= i < roster.len() implies {
        interior(#[trigger] roster[i]) && after[roster[i]] != Sprites::Wall
    } by {
        assert(m[roster[i]] != Sprites::Wall);
    }
    if m[destination] != Sprites::Wall {
        assert forall|c: Cell| in_bounds(c) implies {
            #[trigger] m[c] == Sprites::Wall <==> #[trigger] after[c] == Sprites::Wall
        } by {}
    }
    if agrees(m, roster) && m[destination] != Sprites::Robot && m[player] != Sprites::Robot {
        assert forall|c: Cell| in_bounds(c) implies {
            #[trigger] after[c] == Sprites::Robot <==> roster.contains(c)
        } by {
            assert(m[c] == Sprites::Robot <==> roster.contains(c));
        }
    }
}

/// A turn keeps a game in order. From a sound game whose robots' marks are
/// the roster's cells, with the player not under a robot and stepping to a
/// cell open to it, the turn ends in a sound game whose robots' marks are
/// the new roster's cells; walls stand where they stood, so no robot ends
/// on a wall; and the player's cell holds the player, or the robot that
/// caught the player, or a wreck made on it.
pub proof fn lemma_turn(m: Grid, player: Cell, roster: Seq<Cell>, destination: Cell)
    requires
        sound(m, player, roster),
        agrees(m, roster),
        m[player] != Sprites::Robot,
        open_to_player(m, destination),
    ensures
        ({
            let r = resolve(stepped(m, player, destination), roster, destination);
            let after = synced(roster, r);
            &&& sound(after, destination, r.roster)
            &&& agrees(after, r.roster)
            &&& same_walls(m, after)
            &&& off_walls(m, r.roster)
            &&& after[destination] == Sprites::Robot <==> r.roster.contains(destination)
            &&& after[destination] == Sprites::Player || after[destination] == Sprites::Robot
                || after[destination] == Sprites::DeadRobot
        }),
{
    assert(m.dom().contains(destination));
    assert(interior(destination)) by {
        if on_border(destination) {
            assert(m[destination] == Sprites::Wall);
        }
    }
    let laid = stepped(m, player, destination);
    lemma_stepped(m, player, roster, destination);
    lemma_resolve_settled(laid, roster, destination, roster.len() as int);
    let r = resolve(laid, roster, destination);
    lemma_settled_sound(laid, r, destination, roster);
    let after = synced(roster, r);
    assert forall|c: Cell| in_bounds(c) implies {
        #[trigger] after[c] == Sprites::Robot <==> r.roster.contains(c)
    } by {
        assert(r.board.dom().contains(c));
        if !r.roster.contains(c) && !roster.contains(c) {
            assert(laid[c] != Sprites::Robot);
            assert(r.board[c] != Sprites::Robot);
        }
    }
    assert forall|i: int| 0 <= i < r.roster.len() implies {
        interior(#[trigger] r.roster[i]) && m[r.roster[i]] != Sprites::Wall
    } by {
        assert(laid[r.roster[i]] != Sprites::Wall);
        assert(in_bounds(r.roster[i]));
    }
    assert forall|c: Cell| in_bounds(c) implies {
        #[trigger] m[c] == Sprites::Wall <==> #[trigger] after[c] == Sprites::Wall
    } by {
        assert(r.board.dom().contains(c));
        assert(m[c] == Sprites::Wall <==> laid[c] == Sprites::Wall);
        assert(laid[c] == Sprites::Wall <==> r.board[c] == Sprites::Wall);
        if r.roster.contains(c) {
            let i = choose|i: int| 0 <= i < r.roster.len() && r.roster[i] == c;
            assert(m[r.roster[i]] != Sprites::Wall);
        }
        if roster.contains(c) {
            let i = choose|i: int| 0 <= i < roster.len() && roster[i] == c;
            assert(m[roster[i]] != Sprites::Wall);
        }
    }
    assert forall|c: Cell| #[trigger] after.dom().contains(c) <==> in_bounds(c) by {
        assert(r.board.dom().contains(c) <==> in_bounds(c));
    }
    assert forall|c: Cell| on_border(c) implies #[trigger] after[c] == Sprites::Wall by {
        assert(m[c] == Sprites::Wall);
    }
    assert forall|c: Cell| in_bounds(c) && c != destination implies {
        #[trigger] after[c] != Sprites::Player
    } by {
        assert(r.board.dom().contains(c));
        assert(r.board[c] != Sprites::Player);
    }
    assert forall|i: int| 0 <= i < r.roster.len() implies {
        interior(#[trigger] r.roster[i]) && after[r.roster[i]] != Sprites::Wall
    } by {
        assert(r.roster.contains(r.roster[i]));
    }
    assert(r.board.dom().contains(destination));
    assert(!roster.contains(destination));
    assert(laid[destination] == Sprites::Player);
}

} // verus!
