//! The two sides and the six kinds of piece.

use vstd::prelude::*;

verus! {

pub const SIDES_COUNT: usize = 2;

pub const PIECES_COUNT: usize = 6;

/// The player a piece belongs to.
#[derive(Debug, Clone, Copy, PartialEq, Eq, Structural)]
pub enum Sides {
    White,
    Black,
}

impl Sides {
    /// The opponent.
    pub fn other(&self) -> (r: Sides)
        ensures
            r == self.spec_other(),
    {
        match self {
            Sides::White => Sides::Black,
            Sides::Black => Sides::White,
        }
    }

    pub open spec fn spec_other(self) -> Sides {
        match self {
            Sides::White => Sides::Black,
            Sides::Black => Sides::White,
        }
    }

    /// The side's row in the board's tables: 0 for White, 1 for Black.
    pub open spec fn spec_index(self) -> int {
        match self {
            Sides::White => 0,
            Sides::Black => 1,
        }
    }

    pub fn index(&self) -> (r: usize)
        ensures
            r == self.spec_index(),
            r < SIDES_COUNT,
    {
        match self {
            Sides::White => 0,
            Sides::Black => 1,
        }
    }
}

/// The opponent of the opponent is the side itself, and never the side.
pub proof fn lemma_other_involutive(side: Sides)
    ensures
        side.spec_other().spec_other() == side,
        side.spec_other() != side,
{
}

/// The kind of a piece.
#[derive(Debug, Clone, Copy, PartialEq, Eq, Structural)]
pub enum Pieces {
    Pawn,
    Rook,
    Knight,
    Bishop,
    Queen,
    King,
}

impl Pieces {
    /// The kind's column in the board's tables, in the order of declaration.
    pub open spec fn spec_index(self) -> int {
        match self {
            Pieces::Pawn => 0,
            Pieces::Rook => 1,
            Pieces::Knight => 2,
            Pieces::Bishop => 3,
            Pieces::Queen => 4,
            Pieces::King => 5,
        }
    }

    pub fn index(&self) -> (r: usize)
        ensures
            r == self.spec_index(),
            r < PIECES_COUNT,
    {
        match self {
            Pieces::Pawn => 0,
            Pieces::Rook => 1,
            Pieces::Knight => 2,
            Pieces::Bishop => 3,
            Pieces::Queen => 4,
            Pieces::King => 5,
        }
    }

    /// The kind with the given column; the inverse of [`Pieces::spec_index`].
    pub open spec fn spec_from_index(i: int) -> Pieces {
        if i == 0 {
            Pieces::Pawn
        } else if i == 1 {
            Pieces::Rook
        } else if i == 2 {
            Pieces::Knight
        } else if i == 3 {
            Pieces::Bishop
        } else if i == 4 {
            Pieces::Queen
        } else {
            Pieces::King
        }
    }

    pub fn from_index(i: usize) -> (r: Pieces)
        requires
            i < PIECES_COUNT,
        ensures
            r == Pieces::spec_from_index(i as int),
            r.spec_index() == i,
    {
        if i == 0 {
            Pieces::Pawn
        } else if i == 1 {
            Pieces::Rook
        } else if i == 2 {
            Pieces::Knight
        } else if i == 3 {
            Pieces::Bishop
        } else if i == 4 {
            Pieces::Queen
        } else {
            Pieces::King
        }
    }

    /// Strength of the kind relative to a pawn worth ten.
    pub open spec fn spec_relative_strength(self) -> int {
        match self {
            Pieces::Pawn => 10,
            Pieces::Knight => 30,
            Pieces::Bishop => 30,
            Pieces::Rook => 50,
            Pieces::Queen => 90,
            Pieces::King => 900,
        }
    }

    pub fn relative_strength(&self) -> (r: i32)
        ensures
            r == self.spec_relative_strength(),
    {
        match self {
            Pieces::Pawn => 10,
            Pieces::Knight => 30,
            Pieces::Bishop => 30,
            Pieces::Rook => 50,
            Pieces::Queen => 90,
            Pieces::King => 900,
        }
    }

    /// Material weight of the kind in the static evaluation.
    pub open spec fn weight(self) -> int {
        match self {
            Pieces::Pawn => 1,
            Pieces::Knight => 3,
            Pieces::Bishop => 3,
            Pieces::Rook => 5,
            Pieces::Queen => 9,
            Pieces::King => 200,
        }
    }

    /// Whether a pawn may be promoted to this kind.
    pub open spec fn promotable(self) -> bool {
        self == Pieces::Rook || self == Pieces::Knight || self == Pieces::Bishop || self
            == Pieces::Queen
    }
}

} // verus!
