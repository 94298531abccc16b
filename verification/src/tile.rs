//! The tiles of the game, the seats of the players and the errors that the
//! engine reports.

use vstd::prelude::*;

verus! {

/// The colour that names a player's seat. Seats are handed out in the order
/// in which the variants stand here.
#[derive(Clone, Copy, Debug, PartialEq, Eq, Structural)]
pub enum PlayerColor {
    White,
    Black,
    Gray,
    Brown,
}

impl PlayerColor {
    /// The colour of the seat with the given number; seats beyond the
    /// fourth do not exist and are mapped to the last colour.
    pub open spec fn of_seat(seat: int) -> PlayerColor {
        if seat == 0 {
            PlayerColor::White
        } else if seat == 1 {
            PlayerColor::Black
        } else if seat == 2 {
            PlayerColor::Gray
        } else {
            PlayerColor::Brown
        }
    }

    /// The character by which a seat is shown.
    pub open spec fn glyph(self) -> char {
        match self {
            PlayerColor::White => '1',
            PlayerColor::Black => '2',
            PlayerColor::Gray => '3',
            PlayerColor::Brown => '4',
        }
    }

    /// The colour of a seat, for the four seats that exist.
    pub fn from_seat(seat: usize) -> (color: Option<PlayerColor>)
        ensures
            color == if seat < 4 {
                Some(PlayerColor::of_seat(seat as int))
            } else {
                None
            },
    {
        if seat == 0 {
            Some(PlayerColor::White)
        } else if seat == 1 {
            Some(PlayerColor::Black)
        } else if seat == 2 {
            Some(PlayerColor::Gray)
        } else if seat == 3 {
            Some(PlayerColor::Brown)
        } else {
            None
        }
    }

    /// The number of the seat that has this colour.
    pub fn seat(self) -> (seat: usize)
        ensures
            seat < 4,
            PlayerColor::of_seat(seat as int) == self,
    {
        match self {
            PlayerColor::White => 0,
            PlayerColor::Black => 1,
            PlayerColor::Gray => 2,
            PlayerColor::Brown => 3,
        }
    }

    pub fn symbol(self) -> (c: char)
        ensures
            c == self.glyph(),
    {
        match self {
            PlayerColor::White => '1',
            PlayerColor::Black => '2',
            PlayerColor::Gray => '3',
            PlayerColor::Brown => '4',
        }
    }
}

/// A tile: one of the five playable colours, or the marker that names the
/// player who starts the next round.
#[derive(Clone, Copy, Debug, PartialEq, Eq, Structural)]
pub enum Tile {
    Blue,
    Yellow,
    Red,
    Black,
    Teal,
    FirstPlayer,
}

impl Tile {
    /// Whether the tile is one of the five playable colours.
    pub open spec fn is_color(self) -> bool {
        self != Tile::FirstPlayer
    }

    /// The place of the tile in the order of the variants.
    pub open spec fn ordinal(self) -> int {
        match self {
            Tile::Blue => 0,
            Tile::Yellow => 1,
            Tile::Red => 2,
            Tile::Black => 3,
            Tile::Teal => 4,
            Tile::FirstPlayer => 5,
        }
    }

    /// The playable colour with the given ordinal, for ordinals below five.
    pub open spec fn color(ordinal: int) -> Tile {
        if ordinal == 0 {
            Tile::Blue
        } else if ordinal == 1 {
            Tile::Yellow
        } else if ordinal == 2 {
            Tile::Red
        } else if ordinal == 3 {
            Tile::Black
        } else {
            Tile::Teal
        }
    }

    /// The character by which a tile is shown.
    pub open spec fn glyph(self) -> char {
        match self {
            Tile::Blue => 'B',
            Tile::Yellow => 'Y',
            Tile::Red => 'R',
            Tile::Black => 'K',
            Tile::Teal => 'T',
            Tile::FirstPlayer => '1',
        }
    }

    pub fn is_playable(self) -> (b: bool)
        ensures
            b == self.is_color(),
    {
        match self {
            Tile::FirstPlayer => false,
            _ => true,
        }
    }

    pub fn index(self) -> (i: usize)
        ensures
            i == self.ordinal(),
            self.is_color() ==> i < 5 && Tile::color(i as int) == self,
    {
        match self {
            Tile::Blue => 0,
            Tile::Yellow => 1,
            Tile::Red => 2,
            Tile::Black => 3,
            Tile::Teal => 4,
            Tile::FirstPlayer => 5,
        }
    }

    /// The playable colour with the given ordinal; there are five.
    pub fn from_index(i: usize) -> (tile: Option<Tile>)
        ensures
            tile == if i < 5 {
                Some(Tile::color(i as int))
            } else {
                None
            },
            i < 5 ==> Tile::color(i as int).is_color() && Tile::color(i as int).ordinal() == i,
    {
        if i == 0 {
            Some(Tile::Blue)
        } else if i == 1 {
            Some(Tile::Yellow)
        } else if i == 2 {
            Some(Tile::Red)
        } else if i == 3 {
            Some(Tile::Black)
        } else if i == 4 {
            Some(Tile::Teal)
        } else {
            None
        }
    }

    pub fn symbol(self) -> (c: char)
        ensures
            c == self.glyph(),
    {
        match self {
            Tile::Blue => 'B',
            Tile::Yellow => 'Y',
            Tile::Red => 'R',
            Tile::Black => 'K',
            Tile::Teal => 'T',
            Tile::FirstPlayer => '1',
        }
    }
}

/// What the engine answers to a call that it does not carry out.
#[derive(Clone, Copy, Debug, PartialEq, Eq, Structural)]
pub enum GameError {
    /// The chosen display does not exist or does not hold the chosen colour.
    InvalidSelection,
    /// The chosen pattern line cannot take the colour.
    IllegalPlacement,
    /// A game is for one to four players.
    InvalidPlayerCount,
    /// The action is not due: it is another player's turn, or the game is in
    /// another phase.
    OutOfTurn,
    /// The state breaks one of the engine's invariants.
    InternalInconsistency,
}

} // verus!
