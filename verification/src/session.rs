//! Between the player and the turn: which requests are taken, what they
//! cost, where they lead, and what to say when the game is over.

use vstd::prelude::*;
use crate::board::{empties, Cell, Grid, Sprites};
use crate::dice::next_state;
use crate::engine::{take_turn, turn};
use crate::game::{legal, moves, shifted, valid_destinations, Game, State};
use crate::input::InputOptions;
use crate::rules::{agrees, open_to_player, outcome_of, Outcome};
use crate::seeding::drawn;

verus! {

/// What became of a request.
#[derive(Clone, Copy, Debug, PartialEq, Eq, Structural)]
pub enum PlayerInput {
    /// The request is not taken; the player is asked again.
    Rejected,
    /// The player leaves the game.
    Quit,
    /// The player goes to this cell.
    Destination(u16, u16),
}

/// Whether a request is taken in a state: a move where it is offered, a
/// teleport while one is left and an empty cell exists, leaving always.
pub open spec fn accepted(s: State, action: InputOptions) -> bool {
    match action {
        InputOptions::Quit => true,
        InputOptions::Move(_, _) => valid_destinations(s.board, s.player).contains(action),
        InputOptions::Teleport => s.teleports > 0 && empties(s.board) > 0,
        InputOptions::Invalid => false,
    }
}

/// What a request comes to in a state.
pub open spec fn answer(s: State, action: InputOptions) -> PlayerInput {
    if !accepted(s, action) {
        PlayerInput::Rejected
    } else {
        match action {
            InputOptions::Move(dx, dy) => PlayerInput::Destination(
                shifted(s.player, dx, dy).0,
                shifted(s.player, dx, dy).1,
            ),
            InputOptions::Teleport => PlayerInput::Destination(
                drawn(s.board, s.dice).0,
                drawn(s.board, s.dice).1,
            ),
            _ => PlayerInput::Quit,
        }
    }
}

/// The state once a request was answered: a teleport that is taken costs
/// one teleport and one step of the generator, nothing else costs anything.
pub open spec fn charged(s: State, action: InputOptions) -> State {
    if action is Teleport && accepted(s, action) {
        State { teleports: (s.teleports - 1) as u8, dice: next_state(s.dice), ..s }
    } else {
        s
    }
}

/// A move is offered exactly where it is one of the nine and leads to a
/// cell open to the player.
pub proof fn lemma_offered(m: Grid, origin: Cell, action: InputOptions)
    ensures
        valid_destinations(m, origin).contains(action) <==> {
            moves().contains(action) && legal(m, origin, action)
        },
{
    let keep = |request: InputOptions| legal(m, origin, request);
    let offered = valid_destinations(m, origin);
    if offered.contains(action) {
        let i = choose|i: int| 0 <= i < offered.len() && offered[i] == action;
        moves().lemma_filter_pred(keep, i);
        moves().lemma_filter_contains_rev(keep, action);
    }
    if moves().contains(action) && legal(m, origin, action) {
        let i = choose|i: int| 0 <= i < moves().len() && moves()[i] == action;
        moves().lemma_filter_contains(keep, i);
    }
}

/// Whether a request is among the given ones.
fn contains_option(options: &Vec<InputOptions>, action: InputOptions) -> (found: bool)
    ensures
        found == options@.contains(action),
{
    let mut i: usize = 0;
    while i < options.len()
        invariant
            i <= options@.len(),
            forall|j: int| 0 <= j < i ==> options@[j] != action,
        decreases options@.len() - i,
    {
        if options[i] == action {
            return true;
        }
        i = i + 1;
    }
    false
}

/// Answers one request of the player. A request that is not taken changes
/// nothing. A move that is offered leads to the neighbouring cell. A
/// teleport leads to an empty cell picked by the generator and uses up one
/// teleport.
pub fn get_player_input(board: &mut Game, action: InputOptions) -> (input: PlayerInput)
    requires
        old(board).wf(),
    ensures
        input == answer(old(board)@, action),
        final(board)@ == charged(old(board)@, action),
        final(board).wf(),
        input matches PlayerInput::Destination(x, y) ==> open_to_player(final(board)@.board, (x, y)),
        action is Teleport ==> (input matches PlayerInput::Destination(x, y) ==> {
            final(board)@.board[(x, y)] == Sprites::Empty
        }),
{
    match action {
        InputOptions::Invalid => PlayerInput::Rejected,
        InputOptions::Quit => PlayerInput::Quit,
        InputOptions::Teleport => {
            if board.teleport_count == 0 || board.board.count_empty() == 0 {
                PlayerInput::Rejected
            } else {
                let destination = board.get_random_empty_space();
                board.teleport_count = board.teleport_count - 1;
                PlayerInput::Destination(destination.0, destination.1)
            }
        },
        InputOptions::Move(dx, dy) => {
            let origin = board.player_current_position;
            let valid_options = board.get_valid_destinations(origin);
            proof {
                lemma_offered(board@.board, origin, action);
            }
            if contains_option(&valid_options, action) {
                proof {
                    let i = choose|i: int| 0 <= i < moves().len() && moves()[i] == action;
                    assert(-1 <= dx <= 1 && -1 <= dy <= 1);
                }
                PlayerInput::Destination(
                    origin.0.checked_add_signed(dx).unwrap(),
                    origin.1.checked_add_signed(dy).unwrap(),
                )
            } else {
                PlayerInput::Rejected
            }
        },
    }
}

/// What one request led to.
#[derive(Clone, Copy, Debug, PartialEq, Eq, Structural)]
pub enum Step {
    /// The request was not taken; the player is asked again.
    Rejected,
    /// The player left; the game halts with no turn played.
    Quit,
    /// A turn was played and ended this way.
    Played(Outcome),
}

/// The state after one request: a request that leads somewhere is paid for
/// and a turn is played to that cell; any other request plays no turn.
pub open spec fn played(s: State, action: InputOptions) -> State {
    match answer(s, action) {
        PlayerInput::Destination(x, y) => turn(charged(s, action), (x, y)),
        _ => charged(s, action),
    }
}

/// What one request leads to in a state.
pub open spec fn step_of(s: State, action: InputOptions) -> Step {
    match answer(s, action) {
        PlayerInput::Rejected => Step::Rejected,
        PlayerInput::Quit => Step::Quit,
        PlayerInput::Destination(x, y) => Step::Played(outcome_of((x, y), played(s, action).roster)),
    }
}

/// Takes one request of the player through the game: it is answered, and
/// where the answer is a cell to go to, the turn is played. A game in
/// order stays in order, and short of capture the player is free to be
/// asked again.
pub fn play(board: &mut Game, action: InputOptions) -> (step: Step)
    requires
        old(board).wf(),
        agrees(old(board)@.board, old(board)@.roster),
        old(board)@.board[old(board)@.player] != Sprites::Robot,
    ensures
        step == step_of(old(board)@, action),
        final(board)@ == played(old(board)@, action),
        final(board).wf(),
        agrees(final(board)@.board, final(board)@.roster),
        step != Step::Played(Outcome::PlayerCaught) ==> {
            final(board)@.board[final(board)@.player] != Sprites::Robot
        },
{
    match get_player_input(board, action) {
        PlayerInput::Rejected => Step::Rejected,
        PlayerInput::Quit => Step::Quit,
        PlayerInput::Destination(x, y) => Step::Played(take_turn(board, (x, y))),
    }
}

/// What is said when the player is caught.
pub open spec fn caught_message() -> Seq<char> {
    "You've been caught by a robot!"@
}

/// What is said when no robot is left.
pub open spec fn survived_message() -> Seq<char> {
    "All the robots have crashed and you live!"@
}

impl Outcome {
    /// What to tell the player when the game ends, and nothing while it goes on.
    pub fn message(&self) -> (text: Option<&'static str>)
        ensures
            *self is Continue <==> text is None,
            *self is PlayerCaught ==> text.unwrap()@ == caught_message(),
            *self is AllRobotsDestroyed ==> text.unwrap()@ == survived_message(),
    {
        match self {
            Outcome::Continue => None,
            Outcome::PlayerCaught => Some("You've been caught by a robot!"),
            Outcome::AllRobotsDestroyed => Some("All the robots have crashed and you live!"),
        }
    }
}

} // verus!
