//! The state of one game and the operations that keep it sound.

use vstd::prelude::*;
use crate::board::{
    empties, in_bounds, interior, lemma_empties_insert, lemma_scan_order, Board, Cell, Grid, Sprites,
    CELLS, HEIGHT, INTERIOR_CELLS, WIDTH,
};
use crate::dice::{next_state, Dice};
use crate::input::{step, InputOptions};
use crate::roster::contains_cell;
use crate::rules::{agrees, lemma_stepped, open_to_player, playable, same_walls, sound, stepped};
use crate::seeding::{drawn, pick_empty, scatter, scattered};

verus! {

/// Walls laid inside the rim of a new game.
pub const NUM_WALLS: u16 = 100;

/// Wrecks lying about in a new game.
pub const NUM_DEAD_ROBOTS: u16 = 2;

/// Robots of a new game.
pub const NUM_ROBOTS: u16 = 10;

/// Teleports of a new game.
pub const NUM_TELEPORTS: u8 = 2;

/// A game as plain values.
pub struct State {
    pub board: Grid,
    pub player: Cell,
    pub teleports: u8,
    pub roster: Seq<Cell>,
    pub dice: u64,
}

/// One game: the board, where the player stands, the teleports left, the
/// live robots in roster order, and the generator that picks empty cells.
pub struct Game {
    pub(crate) board: Board,
    pub(crate) player_current_position: Cell,
    pub(crate) teleport_count: u8,
    pub(crate) robot_current_positions: Vec<Cell>,
    pub(crate) dice: Dice,
}

impl View for Game {
    type V = State;

    open(crate) spec fn view(&self) -> State {
        State {
            board: self.board@,
            player: self.player_current_position,
            teleports: self.teleport_count,
            roster: self.robot_current_positions@,
            dice: self.dice@,
        }
    }
}

/// The cell `dx` across and `dy` down from `origin`.
pub open spec fn shifted(origin: Cell, dx: i16, dy: i16) -> Cell {
    ((origin.0 + dx) as u16, (origin.1 + dy) as u16)
}

/// The nine moves between neighbours, staying put among them, in the order
/// in which they are offered.
pub open spec fn moves() -> Seq<InputOptions> {
    seq![
        step(-1, -1),
        step(-1, 1),
        step(-1, 0),
        step(1, 0),
        step(1, 1),
        step(1, -1),
        step(0, 1),
        step(0, -1),
        step(0, 0),
    ]
}

/// The request is a move that takes the player from `origin` to a cell
/// that holds neither a wall nor a robot.
pub open spec fn legal(m: Grid, origin: Cell, request: InputOptions) -> bool {
    match request {
        InputOptions::Move(dx, dy) => open_to_player(m, shifted(origin, dx, dy)),
        _ => false,
    }
}

/// The moves open to a player at `origin`, in the order in which they are offered.
pub open spec fn valid_destinations(m: Grid, origin: Cell) -> Seq<InputOptions> {
    moves().filter(|request: InputOptions| legal(m, origin, request))
}

/// The game laid out from `seed`: on an empty walled board the walls, the
/// wrecks and the robots are scattered in this order, each on a cell that
/// was empty, and the player takes one more empty cell.
pub open spec fn fresh(seed: u64) -> State {
    let walls = scattered(Board::blank(), seed, Sprites::Wall, NUM_WALLS as nat);
    let wrecks = scattered(walls.board, walls.dice, Sprites::DeadRobot, NUM_DEAD_ROBOTS as nat);
    let robots = scattered(wrecks.board, wrecks.dice, Sprites::Robot, NUM_ROBOTS as nat);
    let player = drawn(robots.board, robots.dice);
    State {
        board: robots.board.insert(player, Sprites::Player),
        player,
        teleports: NUM_TELEPORTS,
        roster: robots.placed,
        dice: next_state(robots.dice),
    }
}

impl Game {
    /// The board's storage has its full size.
    pub open(crate) spec fn stored(&self) -> bool {
        self.board.sized()
    }

    /// The game is sound: see [`sound`].
    pub open spec fn wf(&self) -> bool {
        self.stored() && sound(self@.board, self@.player, self@.roster)
    }

    /// A new game laid out from `seed`.
    pub fn new(seed: u64) -> (game: Game)
        ensures
            game@ == fresh(seed),
            game.wf(),
            agrees(game@.board, game@.roster),
            game@.board[game@.player] == Sprites::Player,
            game@.roster.len() == NUM_ROBOTS,
            game@.roster.no_duplicates(),
            game@.teleports == NUM_TELEPORTS,
            empties(game@.board) == INTERIOR_CELLS - NUM_WALLS - NUM_DEAD_ROBOTS - NUM_ROBOTS - 1,
    {
        let mut board = Board::new();
        let mut dice = Dice::seeded(seed);
        proof {
            Board::lemma_blank_empties();
        }
        let ghost blank = board@;
        let walls = scatter(&mut board, &mut dice, Sprites::Wall, NUM_WALLS);
        let ghost walled_board = board@;
        let wrecks = scatter(&mut board, &mut dice, Sprites::DeadRobot, NUM_DEAD_ROBOTS);
        let ghost wrecked_board = board@;
        let robots = scatter(&mut board, &mut dice, Sprites::Robot, NUM_ROBOTS);
        let ghost manned_board = board@;
        let player = pick_empty(&board, &mut dice);
        board.set(player, Sprites::Player);
        proof {
            let m = board@;
            lemma_empties_insert(manned_board, player, Sprites::Player, CELLS as int);
            lemma_scan_order(player);
            assert forall|c: Cell| in_bounds(c) implies {
                &&& #[trigger] m[c] == Sprites::Robot <==> robots@.contains(c)
                &&& c != player ==> m[c] != Sprites::Player
            } by {
                assert(blank.dom().contains(c));
                assert(blank[c] != Sprites::Robot && blank[c] != Sprites::Player);
                assert(walled_board[c] != Sprites::Robot && walled_board[c] != Sprites::Player);
                assert(wrecked_board[c] != Sprites::Robot && wrecked_board[c] != Sprites::Player);
            }
            assert forall|i: int| 0 <= i < robots@.len() implies {
                interior(#[trigger] robots@[i]) && m[robots@[i]] != Sprites::Wall
            } by {
                assert(robots@.contains(robots@[i]));
            }
        }
        Game {
            board,
            player_current_position: player,
            teleport_count: NUM_TELEPORTS,
            robot_current_positions: robots,
            dice,
        }
    }

    /// Whether a layout is sound and its robots' marks are the roster's cells.
    fn check_layout(board: &Board, player: Cell, robots: &Vec<Cell>) -> (ok: bool)
        requires
            board.wf(),
        ensures
            ok == (sound(board@, player, robots@) && agrees(board@, robots@)),
    {
        if !(0 < player.0 && player.0 < WIDTH && 0 < player.1 && player.1 < HEIGHT) {
            return false;
        }
        if board.get(player) == Sprites::Wall {
            return false;
        }
        let mut i: usize = 0;
        while i < robots.len()
            invariant
                board.wf(),
                i <= robots@.len(),
                forall|j: int|
                    0 <= j < i ==> interior(#[trigger] robots@[j]) && board@[robots@[j]] == Sprites::Robot,
            decreases robots@.len() - i,
        {
            let r = robots[i];
            if !(0 < r.0 && r.0 < WIDTH && 0 < r.1 && r.1 < HEIGHT) {
                return false;
            }
            if board.get(r) != Sprites::Robot {
                proof {
                    assert(robots@.contains(robots@[i as int]));
                }
                return false;
            }
            i = i + 1;
        }
        let mut x: u16 = 0;
        while x <= WIDTH
            invariant
                board.wf(),
                x <= WIDTH + 1,
                forall|c: Cell|
                    in_bounds(c) && c.0 < x ==> {
                        &&& #[trigger] board@[c] == Sprites::Player ==> c == player
                        &&& board@[c] == Sprites::Robot ==> robots@.contains(c)
                    },
            decreases WIDTH + 1 - x,
        {
            let mut y: u16 = 0;
            while y <= HEIGHT
                invariant
                    board.wf(),
                    x <= WIDTH,
                    y <= HEIGHT + 1,
                    forall|c: Cell|
                        in_bounds(c) && (c.0 < x || (c.0 == x && c.1 < y)) ==> {
                            &&& #[trigger] board@[c] == Sprites::Player ==> c == player
                            &&& board@[c] == Sprites::Robot ==> robots@.contains(c)
                        },
                decreases HEIGHT + 1 - y,
            {
                let s = board.get((x, y));
                if s == Sprites::Player && !(x == player.0 && y == player.1) {
                    return false;
                }
                if s == Sprites::Robot && !contains_cell(robots, (x, y)) {
                    return false;
                }
                y = y + 1;
            }
            x = x + 1;
        }
        proof {
            assert forall|c: Cell| in_bounds(c) implies {
                #[trigger] board@[c] == Sprites::Robot <==> robots@.contains(c)
            } by {
                if robots@.contains(c) {
                    let j = choose|j: int| 0 <= j < robots@.len() && robots@[j] == c;
                }
            }
        }
        true
    }

    /// A game on a board laid out by hand: the player at `player`, the
    /// robots at `robots` in this order. The layout is taken where a game
    /// can start from it, and refused otherwise.
    pub fn with_layout(
        board: Board,
        player: Cell,
        robots: Vec<Cell>,
        teleports: u8,
        seed: u64,
    ) -> (game: Option<Game>)
        ensures
            game is Some <==> board.wf() && playable(board@, player, robots@),
            game matches Some(g) ==> g.wf() && g@ == (State {
                board: board@,
                player,
                teleports,
                roster: robots@,
                dice: seed,
            }),
    {
        if !board.is_wf() {
            return None;
        }
        if !Self::check_layout(&board, player, &robots) {
            return None;
        }
        if board.get(player) != Sprites::Player {
            return None;
        }
        Some(
            Game {
                board,
                player_current_position: player,
                teleport_count: teleports,
                robot_current_positions: robots,
                dice: Dice::seeded(seed),
            },
        )
    }

    /// Whether the game is in order: sound, with the robots' marks on the
    /// roster's cells.
    pub fn in_order(&self) -> (ok: bool)
        ensures
            ok == (self.wf() && agrees(self@.board, self@.roster)),
    {
        self.board.is_wf() && Self::check_layout(
            &self.board,
            self.player_current_position,
            &self.robot_current_positions,
        )
    }

    /// Where the player stands.
    pub fn player_position(&self) -> (c: Cell)
        ensures
            c == self@.player,
    {
        self.player_current_position
    }

    /// How many teleports are left.
    pub fn teleports_left(&self) -> (n: u8)
        ensures
            n == self@.teleports,
    {
        self.teleport_count
    }

    /// The live robots, in roster order.
    pub fn robots(&self) -> (r: &Vec<Cell>)
        ensures
            r@ == self@.roster,
    {
        &self.robot_current_positions
    }

    /// What a cell of the board holds.
    pub fn sprite_at(&self, cell: Cell) -> (s: Sprites)
        requires
            self.wf(),
            in_bounds(cell),
        ensures
            s == self@.board[cell],
    {
        self.board.get(cell)
    }

    /// Whether the player may step onto a cell: it lies on the board and
    /// holds neither a wall nor a robot.
    pub fn is_open_to_player(&self, cell: Cell) -> (open: bool)
        requires
            self.wf(),
        ensures
            open == open_to_player(self@.board, cell),
    {
        if cell.0 > WIDTH || cell.1 > HEIGHT {
            return false;
        }
        let s = self.board.get(cell);
        s != Sprites::Wall && s != Sprites::Robot
    }

    /// Picks an empty cell by one step of the game's generator.
    pub fn get_random_empty_space(&mut self) -> (c: Cell)
        requires
            old(self).wf(),
            empties(old(self)@.board) > 0,
        ensures
            c == drawn(old(self)@.board, old(self)@.dice),
            interior(c),
            old(self)@.board[c] == Sprites::Empty,
            final(self)@ == (State { dice: next_state(old(self)@.dice), ..old(self)@ }),
            final(self).wf(),
    {
        pick_empty(&self.board, &mut self.dice)
    }

    /// The moves open to a player at `origin`, in the order in which they are offered.
    pub fn get_valid_destinations(&self, origin: Cell) -> (valid_options: Vec<InputOptions>)
        requires
            self.wf(),
            interior(origin),
        ensures
            valid_options@ == valid_destinations(self@.board, origin),
    {
        let neighbors: Vec<(i16, i16)> = vec![
            (-1, -1),
            (-1, 1),
            (-1, 0),
            (1, 0),
            (1, 1),
            (1, -1),
            (0, 1),
            (0, -1),
            (0, 0),
        ];
        let mut valid_options: Vec<InputOptions> = Vec::new();
        let ghost keep = |request: InputOptions| legal(self@.board, origin, request);
        assert(neighbors@.len() == 9 && moves().len() == 9);
        assert(moves().take(0).filter(keep) =~= Seq::empty()) by {
            reveal(Seq::filter);
        }
        let mut i: usize = 0;
        while i < neighbors.len()
            invariant
                self.wf(),
                interior(origin),
                i <= neighbors@.len() == moves().len(),
                forall|j: int|
                    0 <= j < neighbors@.len() ==> {
                        &&& moves()[j] == InputOptions::Move((#[trigger] neighbors@[j]).0, neighbors@[j].1)
                        &&& -1 <= neighbors@[j].0 <= 1
                        &&& -1 <= neighbors@[j].1 <= 1
                    },
                keep == |request: InputOptions| legal(self@.board, origin, request),
                valid_options@ == moves().take(i as int).filter(keep),
            decreases neighbors@.len() - i,
        {
            let (dx, dy) = neighbors[i];
            let destination = (
                origin.0.checked_add_signed(dx).unwrap(),
                origin.1.checked_add_signed(dy).unwrap(),
            );
            proof {
                reveal(Seq::filter);
                assert(moves().take(i + 1).drop_last() =~= moves().take(i as int));
                assert(moves().take(i + 1).last() == moves()[i as int]);
            }
            match self.board.get(destination) {
                Sprites::Wall | Sprites::Robot => {},
                _ => {
                    valid_options.push(InputOptions::Move(dx, dy));
                },
            }
            i = i + 1;
        }
        assert(moves().take(moves().len() as int) =~= moves());
        valid_options
    }

    /// Moves the player's mark: the cell left behind becomes empty, the
    /// destination holds the player. Walls stay unless the player steps on
    /// one, and the robots' marks stay the roster's cells unless a robot's
    /// mark is stepped on or left behind.
    pub fn update_player_position(&mut self, destination: Cell)
        requires
            old(self).wf(),
            interior(destination),
        ensures
            final(self)@ == (State {
                board: stepped(old(self)@.board, old(self)@.player, destination),
                player: destination,
                ..old(self)@
            }),
            final(self).wf(),
            final(self)@.board[destination] == Sprites::Player,
            old(self)@.board[destination] != Sprites::Wall ==> {
                same_walls(old(self)@.board, final(self)@.board)
            },
            ({
                &&& agrees(old(self)@.board, old(self)@.roster)
                &&& old(self)@.board[destination] != Sprites::Robot
                &&& old(self)@.board[old(self)@.player] != Sprites::Robot
            }) ==> agrees(final(self)@.board, final(self)@.roster),
    {
        proof {
            lemma_stepped(self@.board, self@.player, self@.roster, destination);
        }
        self.board.set(self.player_current_position, Sprites::Empty);
        self.board.set(destination, Sprites::Player);
        self.player_current_position = destination;
    }
}

} // verus!
