//! What a player can ask for, and the keys that ask for it.

use vstd::prelude::*;

verus! {

/// One request of the player. A move is a pair of steps, across and down.
#[derive(Clone, Copy, Debug, PartialEq, Eq, Structural)]
pub enum InputOptions {
    Quit,
    Move(i16, i16),
    Teleport,
    Invalid,
}

/// The move of `dx` cells across and `dy` cells down.
pub open spec fn step(dx: int, dy: int) -> InputOptions {
    InputOptions::Move(dx as i16, dy as i16)
}

/// The request that a line of text stands for.
pub open spec fn request_of(text: Seq<char>) -> InputOptions {
    if text == seq!['Q', 'U', 'I', 'T'] {
        InputOptions::Quit
    } else if text == seq!['W'] {
        step(0, -1)
    } else if text == seq!['X'] {
        step(0, 1)
    } else if text == seq!['A'] {
        step(-1, 0)
    } else if text == seq!['D'] {
        step(1, 0)
    } else if text == seq!['Q'] {
        step(-1, -1)
    } else if text == seq!['Z'] {
        step(-1, 1)
    } else if text == seq!['C'] {
        step(1, 1)
    } else if text == seq!['E'] {
        step(1, -1)
    } else if text == seq!['S'] {
        step(0, 0)
    } else if text == seq!['T'] {
        InputOptions::Teleport
    } else {
        InputOptions::Invalid
    }
}

/// The text that asks for a request; empty where no key does.
pub open spec fn key_of(request: InputOptions) -> Seq<char> {
    match request {
        InputOptions::Quit => seq!['Q', 'U', 'I', 'T'],
        InputOptions::Teleport => seq!['T'],
        InputOptions::Invalid => Seq::empty(),
        InputOptions::Move(dx, dy) => if dx == 0 && dy == -1 {
            seq!['W']
        } else if dx == 0 && dy == 1 {
            seq!['X']
        } else if dx == -1 && dy == 0 {
            seq!['A']
        } else if dx == 1 && dy == 0 {
            seq!['D']
        } else if dx == -1 && dy == -1 {
            seq!['Q']
        } else if dx == -1 && dy == 1 {
            seq!['Z']
        } else if dx == 1 && dy == 1 {
            seq!['C']
        } else if dx == 1 && dy == -1 {
            seq!['E']
        } else if dx == 0 && dy == 0 {
            seq!['S']
        } else {
            Seq::empty()
        },
    }
}

impl InputOptions {
    /// Reads a request from a line of text, already trimmed and in upper case.
    pub fn get_from_string(str: String) -> (request: InputOptions)
        ensures
            request == request_of(str@),
    {
        let text = str.as_str();
        let n = text.unicode_len();
        if n == 1 {
            let c = text.get_char(0);
            assert(text@ =~= seq![c]);
            if c == 'W' {
                InputOptions::Move(0, -1)
            } else if c == 'X' {
                InputOptions::Move(0, 1)
            } else if c == 'A' {
                InputOptions::Move(-1, 0)
            } else if c == 'D' {
                InputOptions::Move(1, 0)
            } else if c == 'Q' {
                InputOptions::Move(-1, -1)
            } else if c == 'Z' {
                InputOptions::Move(-1, 1)
            } else if c == 'C' {
                InputOptions::Move(1, 1)
            } else if c == 'E' {
                InputOptions::Move(1, -1)
            } else if c == 'S' {
                InputOptions::Move(0, 0)
            } else if c == 'T' {
                InputOptions::Teleport
            } else {
                InputOptions::Invalid
            }
        } else if n == 4 {
            let c0 = text.get_char(0);
            let c1 = text.get_char(1);
            let c2 = text.get_char(2);
            let c3 = text.get_char(3);
            assert(text@ =~= seq![c0, c1, c2, c3]);
            if c0 == 'Q' && c1 == 'U' && c2 == 'I' && c3 == 'T' {
                InputOptions::Quit
            } else {
                InputOptions::Invalid
            }
        } else {
            InputOptions::Invalid
        }
    }

    /// Whether the request is a move.
    pub fn is_movement(&self) -> (b: bool)
        ensures
            b == (self is Move),
    {
        match self {
            InputOptions::Move(_, _) => true,
            _ => false,
        }
    }

    /// The key that asks for this request; empty where no key does.
    pub fn to_string(&self) -> (key: &'static str)
        ensures
            key@ == key_of(*self),
    {
        proof {
            reveal_strlit("QUIT");
            reveal_strlit("W");
            reveal_strlit("X");
            reveal_strlit("A");
            reveal_strlit("D");
            reveal_strlit("Q");
            reveal_strlit("Z");
            reveal_strlit("C");
            reveal_strlit("E");
            reveal_strlit("S");
            reveal_strlit("T");
            reveal_strlit("");
        }
        match *self {
            InputOptions::Quit => "QUIT",
            InputOptions::Teleport => "T",
            InputOptions::Invalid => "",
            InputOptions::Move(dx, dy) => if dx == 0 && dy == -1 {
                "W"
            } else if dx == 0 && dy == 1 {
                "X"
            } else if dx == -1 && dy == 0 {
                "A"
            } else if dx == 1 && dy == 0 {
                "D"
            } else if dx == -1 && dy == -1 {
                "Q"
            } else if dx == -1 && dy == 1 {
                "Z"
            } else if dx == 1 && dy == 1 {
                "C"
            } else if dx == 1 && dy == -1 {
                "E"
            } else if dx == 0 && dy == 0 {
                "S"
            } else {
                ""
            },
        }
    }
}

} // verus!
