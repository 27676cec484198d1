//! The mathematical model of a board: what stands on each of the 64
//! squares, and the castling rights. The rules of the game are stated over
//! this model.

use vstd::prelude::*;
use crate::board::MoveRights;
use crate::pieces::{Pieces, Sides};

verus! {

/// What stands on a square: nothing, or a piece of a side.
pub type Cell = Option<(Sides, Pieces)>;

/// A position: the cells by square index, and the castling rights.
pub struct Position {
    pub cells: Seq<Cell>,
    pub rights: MoveRights,
}

impl Position {
    /// A position has exactly 64 cells.
    pub open spec fn wf(self) -> bool {
        self.cells.len() == 64
    }

    /// What stands on square `sq`; nothing outside the board.
    pub open spec fn at(self, sq: int) -> Cell {
        if 0 <= sq < 64 {
            self.cells[sq]
        } else {
            None
        }
    }

    /// The squares on which something stands.
    pub open spec fn occupied(self) -> Set<int> {
        Set::new(|sq: int| self.at(sq) is Some)
    }

    /// The squares on which a piece of `side` stands.
    pub open spec fn side_squares(self, side: Sides) -> Set<int> {
        Set::new(|sq: int| self.at(sq) is Some && self.at(sq).unwrap().0 == side)
    }

    /// The position with the cell of square `sq` replaced.
    pub open spec fn put(self, sq: int, cell: Cell) -> Position {
        Position { cells: self.cells.update(sq, cell), rights: self.rights }
    }

    /// The position with other castling rights.
    pub open spec fn with_rights(self, rights: MoveRights) -> Position {
        Position { cells: self.cells, rights }
    }

    /// How many pieces of `side` and `kind` stand on the squares below `n`.
    pub open spec fn count_below(self, side: Sides, kind: Pieces, n: int) -> int
        decreases n,
    {
        if n <= 0 {
            0
        } else {
            self.count_below(side, kind, n - 1) + if self.at(n - 1) == Some((side, kind)) {
                1int
            } else {
                0int
            }
        }
    }

    /// How many pieces of `side` and `kind` stand on the board.
    pub open spec fn count(self, side: Sides, kind: Pieces) -> int {
        self.count_below(side, kind, 64)
    }
}

/// The position with no piece and no right.
pub open spec fn empty_position() -> Position {
    Position { cells: Seq::new(64, |sq: int| None), rights: MoveRights::spec_none() }
}

/// A count of pieces lies between nothing and the squares looked at.
pub proof fn lemma_count_bounds(pos: Position, side: Sides, kind: Pieces, n: int)
    requires
        0 <= n,
    ensures
        0 <= pos.count_below(side, kind, n) <= n,
    decreases n,
{
    if n > 0 {
        lemma_count_bounds(pos, side, kind, n - 1);
    }
}


/// The kind of piece that starts on the given file of a side's first rank.
pub open spec fn back_rank_kind(file: int) -> Pieces {
    if file == 0 || file == 7 {
        Pieces::Rook
    } else if file == 1 || file == 6 {
        Pieces::Knight
    } else if file == 2 || file == 5 {
        Pieces::Bishop
    } else if file == 3 {
        Pieces::Queen
    } else {
        Pieces::King
    }
}

/// What stands on square `sq` when a game starts.
pub open spec fn start_cell(sq: int) -> Cell {
    if sq / 8 == 0 {
        Some((Sides::White, back_rank_kind(sq % 8)))
    } else if sq / 8 == 1 {
        Some((Sides::White, Pieces::Pawn))
    } else if sq / 8 == 6 {
        Some((Sides::Black, Pieces::Pawn))
    } else if sq / 8 == 7 {
        Some((Sides::Black, back_rank_kind(sq % 8)))
    } else {
        None
    }
}

/// The position in which a game starts: the standard layout of the pieces,
/// and no castling right.
pub open spec fn start_position() -> Position {
    Position { cells: Seq::new(64, |sq: int| start_cell(sq)), rights: MoveRights::spec_none() }
}

} // verus!
