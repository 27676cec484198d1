//! The four kinds of move, and what each does to a board.
//!
//! Applying a move either succeeds and changes the board as the move says,
//! or fails with the reason and leaves the board as it was.

use vstd::prelude::*;
use crate::board::Board;
use crate::pieces::{Pieces, Sides};
use crate::position::Position;
use crate::square::Square;

verus! {

/// Why a move cannot be applied to a board.
#[derive(Clone, Copy, Debug, PartialEq, Eq, Structural)]
pub enum MoveError {
    /// A square of the move does not lie on the board.
    OffBoard,
    /// No piece stands on the square the move starts from.
    EmptySource,
    /// A square that has to be free is occupied.
    Occupied,
    /// The target does not hold a piece of the opponent of the named kind.
    BadCapture,
    /// The piece to promote is no pawn.
    NotAPawn,
    /// A pawn is promoted to rook, knight, bishop or queen only.
    BadPromotion,
    /// The side does not hold the right to castle on this wing.
    NoCastlingRight,
    /// King or rook does not stand on its home square.
    NotInPlace,
}

/// A piece goes from one square to an empty one.
#[derive(Clone, Copy, Debug, PartialEq, Eq, Structural)]
pub struct BasicMove {
    pub from: Square,
    pub to: Square,
}

/// A piece goes to the square of a piece of the opponent and takes it.
#[derive(Clone, Copy, Debug, PartialEq, Eq, Structural)]
pub struct Capture {
    pub from: Square,
    pub to: Square,
    pub capture: Pieces,
}

/// A pawn goes to a square and becomes a piece of another kind.
#[derive(Clone, Copy, Debug, PartialEq, Eq, Structural)]
pub struct Promotion {
    pub from: Square,
    pub to: Square,
    pub piece: Pieces,
}

/// King and rook of a side change places on one wing.
#[derive(Clone, Copy, Debug, PartialEq, Eq, Structural)]
pub struct Castle {
    pub side: Sides,
    pub king_side: bool,
}

/// A move of any of the four kinds.
#[derive(Clone, Copy, Debug, PartialEq, Eq, Structural)]
pub enum Move {
    Basic(BasicMove),
    Capture(Capture),
    Promotion(Promotion),
    Castle(Castle),
}

/// The position after the piece on `from` has gone to `to`, as `cell`.
pub open spec fn relocated(pos: Position, from: int, to: int, cell: (Sides, Pieces)) -> Position {
    pos.put(from, None).put(to, Some(cell))
}

/// The rank on which king and rooks of `side` start.
pub open spec fn home_rank(side: Sides) -> int {
    match side {
        Sides::White => 0,
        Sides::Black => 7,
    }
}

/// The square on which the king of `side` starts.
pub open spec fn king_home(side: Sides) -> int {
    home_rank(side) * 8 + 4
}

/// The square on which the rook of `side` on the given wing starts.
pub open spec fn rook_home(side: Sides, king_side: bool) -> int {
    home_rank(side) * 8 + if king_side {
        7int
    } else {
        0int
    }
}

/// The square the king of `side` castles to.
pub open spec fn king_castled(side: Sides, king_side: bool) -> int {
    home_rank(side) * 8 + if king_side {
        6int
    } else {
        2int
    }
}

/// The square the rook of `side` castles to.
pub open spec fn rook_castled(side: Sides, king_side: bool) -> int {
    home_rank(side) * 8 + if king_side {
        5int
    } else {
        3int
    }
}

/// The squares between the homes of king and rook on the given wing.
pub open spec fn castle_path(side: Sides, king_side: bool) -> Set<int> {
    let r = home_rank(side) * 8;
    if king_side {
        set![r + 5, r + 6]
    } else {
        set![r + 1, r + 2, r + 3]
    }
}

impl BasicMove {
    pub fn new(from: Square, to: Square) -> (m: BasicMove)
        ensures
            m.from == from,
            m.to == to,
    {
        BasicMove { from, to }
    }

    /// What the move does to a position.
    pub open spec fn apply_to(self, pos: Position) -> Result<Position, MoveError> {
        let from = self.from.spec_idx();
        let to = self.to.spec_idx();
        if !self.from.wf() || !self.to.wf() {
            Err(MoveError::OffBoard)
        } else if pos.at(from) is None {
            Err(MoveError::EmptySource)
        } else if pos.at(to) is Some {
            Err(MoveError::Occupied)
        } else {
            Ok(relocated(pos, from, to, pos.at(from).unwrap()))
        }
    }

    /// Moves the piece on `from` to the empty square `to`.
    pub fn apply(&self, board: &mut Board) -> (r: Result<(), MoveError>)
        requires
            old(board).wf(),
        ensures
            applied(self.apply_to(old(board)@), r, *old(board), *final(board)),
    {
        if !self.from.on_board() || !self.to.on_board() {
            return Err(MoveError::OffBoard);
        }
        match board.piece_at(self.from) {
            None => Err(MoveError::EmptySource),
            Some((side, kind)) => {
                if board.piece_at(self.to).is_some() {
                    return Err(MoveError::Occupied);
                }
                board.place_piece(side, kind, self.from);
                board.place_piece(side, kind, self.to);
                Ok(())
            },
        }
    }

    /// A move to an empty square takes nothing.
    pub fn capture(&self) -> (r: Option<Pieces>)
        ensures
            r is None,
    {
        None
    }
}

impl Capture {
    pub fn new(from: Square, to: Square, capture: Pieces) -> (m: Capture)
        ensures
            m.from == from,
            m.to == to,
            m.capture == capture,
    {
        Capture { from, to, capture }
    }

    /// What the move does to a position.
    pub open spec fn apply_to(self, pos: Position) -> Result<Position, MoveError> {
        let from = self.from.spec_idx();
        let to = self.to.spec_idx();
        if !self.from.wf() || !self.to.wf() {
            Err(MoveError::OffBoard)
        } else if pos.at(from) is None {
            Err(MoveError::EmptySource)
        } else if pos.at(to) != Some((pos.at(from).unwrap().0.spec_other(), self.capture)) {
            Err(MoveError::BadCapture)
        } else {
            Ok(relocated(pos, from, to, pos.at(from).unwrap()))
        }
    }

    /// Removes the piece of the opponent on `to`, then moves the piece on
    /// `from` there.
    pub fn apply(&self, board: &mut Board) -> (r: Result<(), MoveError>)
        requires
            old(board).wf(),
        ensures
            applied(self.apply_to(old(board)@), r, *old(board), *final(board)),
    {
        if !self.from.on_board() || !self.to.on_board() {
            return Err(MoveError::OffBoard);
        }
        match board.piece_at(self.from) {
            None => Err(MoveError::EmptySource),
            Some((side, kind)) => {
                match board.piece_at(self.to) {
                    None => Err(MoveError::BadCapture),
                    Some((other, taken)) => {
                        if other == side || taken != self.capture {
                            return Err(MoveError::BadCapture);
                        }
                        let ghost start = board@;
                        board.place_piece(other, taken, self.to);
                        board.place_piece(side, kind, self.from);
                        board.place_piece(side, kind, self.to);
                        proof {
                            let from = self.from.spec_idx();
                            let to = self.to.spec_idx();
                            assert(board@.cells =~= relocated(start, from, to, (side, kind)).cells);
                        }
                        Ok(())
                    },
                }
            },
        }
    }

    /// The kind of the piece that the move takes.
    pub fn capture(&self) -> (r: Option<Pieces>)
        ensures
            r == Some(self.capture),
    {
        Some(self.capture)
    }
}

impl Promotion {
    pub fn new(from: Square, to: Square, piece: Pieces) -> (m: Promotion)
        ensures
            m.from == from,
            m.to == to,
            m.piece == piece,
    {
        Promotion { from, to, piece }
    }

    /// What the move does to a position.
    pub open spec fn apply_to(self, pos: Position) -> Result<Position, MoveError> {
        let from = self.from.spec_idx();
        let to = self.to.spec_idx();
        if !self.from.wf() || !self.to.wf() {
            Err(MoveError::OffBoard)
        } else if pos.at(from) is None {
            Err(MoveError::EmptySource)
        } else if pos.at(from).unwrap().1 != Pieces::Pawn {
            Err(MoveError::NotAPawn)
        } else if !self.piece.promotable() {
            Err(MoveError::BadPromotion)
        } else if pos.at(to) is Some && pos.at(to).unwrap().0 == pos.at(from).unwrap().0 {
            Err(MoveError::Occupied)
        } else {
            Ok(relocated(pos, from, to, (pos.at(from).unwrap().0, self.piece)))
        }
    }

    /// Removes the pawn on `from` and whatever piece of the opponent
    /// stands on `to`, and puts a piece of the new kind on `to`.
    pub fn apply(&self, board: &mut Board) -> (r: Result<(), MoveError>)
        requires
            old(board).wf(),
        ensures
            applied(self.apply_to(old(board)@), r, *old(board), *final(board)),
    {
        if !self.from.on_board() || !self.to.on_board() {
            return Err(MoveError::OffBoard);
        }
        match board.piece_at(self.from) {
            None => Err(MoveError::EmptySource),
            Some((side, kind)) => {
                if kind != Pieces::Pawn {
                    return Err(MoveError::NotAPawn);
                }
                match self.piece {
                    Pieces::Pawn => {
                        return Err(MoveError::BadPromotion);
                    },
                    Pieces::King => {
                        return Err(MoveError::BadPromotion);
                    },
                    _ => {},
                }
                let ghost start = board@;
                let ghost from = self.from.spec_idx();
                let ghost to = self.to.spec_idx();
                match board.piece_at(self.to) {
                    None => {},
                    Some((other, taken)) => {
                        if other == side {
                            return Err(MoveError::Occupied);
                        }
                        board.place_piece(other, taken, self.to);
                    },
                }
                board.place_piece(side, Pieces::Pawn, self.from);
                board.place_piece(side, self.piece, self.to);
                proof {
                    assert(board@.cells =~= relocated(start, from, to, (side, self.piece)).cells);
                }
                Ok(())
            },
        }
    }

    /// A promotion does not count as a capture.
    pub fn capture(&self) -> (r: Option<Pieces>)
        ensures
            r is None,
    {
        None
    }
}

impl Board {
    /// Whether the squares between king and rook of `side` are empty.
    pub fn castle_path_free(&self, side: Sides, king_side: bool) -> (r: bool)
        requires
            self.wf(),
        ensures
            r == forall|sq: int| castle_path(side, king_side).contains(sq) ==> self@.at(sq) is None,
    {
        let rank: usize = match side {
            Sides::White => 0,
            Sides::Black => 7,
        };
        let r = if king_side {
            self.piece_at(Square::new(5, rank)).is_none() && self.piece_at(
                Square::new(6, rank),
            ).is_none()
        } else {
            self.piece_at(Square::new(1, rank)).is_none() && self.piece_at(
                Square::new(2, rank),
            ).is_none() && self.piece_at(Square::new(3, rank)).is_none()
        };
        proof {
            let base = home_rank(side) * 8;
            if king_side {
                assert(castle_path(side, king_side).contains(base + 5));
                assert(castle_path(side, king_side).contains(base + 6));
            } else {
                assert(castle_path(side, king_side).contains(base + 1));
                assert(castle_path(side, king_side).contains(base + 2));
                assert(castle_path(side, king_side).contains(base + 3));
            }
        }
        r
    }
}

impl Castle {
    pub fn new(side: Sides, king_side: bool) -> (m: Castle)
        ensures
            m.side == side,
            m.king_side == king_side,
    {
        Castle { side, king_side }
    }

    /// What the move does to a position.
    pub open spec fn apply_to(self, pos: Position) -> Result<Position, MoveError> {
        let side = self.side;
        let wing = self.king_side;
        if !pos.rights.holds(side, wing) {
            Err(MoveError::NoCastlingRight)
        } else if pos.at(king_home(side)) != Some((side, Pieces::King)) || pos.at(
            rook_home(side, wing),
        ) != Some((side, Pieces::Rook)) {
            Err(MoveError::NotInPlace)
        } else if exists|sq: int| castle_path(side, wing).contains(sq) && pos.at(sq) is Some {
            Err(MoveError::Occupied)
        } else {
            Ok(
                pos.put(king_home(side), None).put(rook_home(side, wing), None).put(
                    king_castled(side, wing),
                    Some((side, Pieces::King)),
                ).put(rook_castled(side, wing), Some((side, Pieces::Rook))).with_rights(
                    pos.rights.without(side),
                ),
            )
        }
    }

    /// Moves king and rook of the side to their castled squares and takes
    /// both castling rights from the side.
    pub fn apply(&self, board: &mut Board) -> (r: Result<(), MoveError>)
        requires
            old(board).wf(),
        ensures
            applied(self.apply_to(old(board)@), r, *old(board), *final(board)),
    {
        let side = self.side;
        let wing = self.king_side;
        if !board.move_rights.allows(side, wing) {
            return Err(MoveError::NoCastlingRight);
        }
        let rank: usize = match side {
            Sides::White => 0,
            Sides::Black => 7,
        };
        let king_from = Square::new(4, rank);
        let rook_from = Square::new(
            if wing {
                7
            } else {
                0
            },
            rank,
        );
        let king_to = Square::new(
            if wing {
                6
            } else {
                2
            },
            rank,
        );
        let rook_to = Square::new(
            if wing {
                5
            } else {
                3
            },
            rank,
        );
        let king_ok = match board.piece_at(king_from) {
            Some((s, k)) => s == side && k == Pieces::King,
            None => false,
        };
        let rook_ok = match board.piece_at(rook_from) {
            Some((s, k)) => s == side && k == Pieces::Rook,
            None => false,
        };
        if !king_ok || !rook_ok {
            return Err(MoveError::NotInPlace);
        }
        let free = board.castle_path_free(side, wing);
        if !free {
            return Err(MoveError::Occupied);
        }
        proof {
            assert(castle_path(side, wing).contains(king_castled(side, wing)));
            assert(castle_path(side, wing).contains(rook_castled(side, wing)));
        }
        let ghost start = board@;
        relocate(board, side, Pieces::King, king_from, king_to);
        let ghost mid = board@;
        relocate(board, side, Pieces::Rook, rook_from, rook_to);
        let ghost moved = board@;
        let rights = board.move_rights.cleared(side);
        board.set_rights(rights);
        proof {
            let kf = king_home(side);
            let kt = king_castled(side, wing);
            let rf = rook_home(side, wing);
            let rt = rook_castled(side, wing);
            assert(mid == relocated(start, kf, kt, (side, Pieces::King)));
            assert(moved == relocated(mid, rf, rt, (side, Pieces::Rook)));
            assert(board@.cells =~= self.apply_to(start).unwrap().cells);
        }
        Ok(())
    }

    /// Castling takes nothing.
    pub fn capture(&self) -> (r: Option<Pieces>)
        ensures
            r is None,
    {
        None
    }
}

/// Moves the piece of `side` and `kind` on `from` to the empty square `to`.
fn relocate(board: &mut Board, side: Sides, kind: Pieces, from: Square, to: Square)
    requires
        old(board).wf(),
        from.wf(),
        to.wf(),
        old(board)@.at(from.spec_idx()) == Some((side, kind)),
        old(board)@.at(to.spec_idx()) is None,
    ensures
        final(board).wf(),
        final(board)@ == relocated(old(board)@, from.spec_idx(), to.spec_idx(), (side, kind)),
{
    board.place_piece(side, kind, from);
    board.place_piece(side, kind, to);
}

/// How the outcome of applying a move relates to what the move does to the
/// position: on success the board is well-formed and stands for the new
/// position, on failure the same error is returned and the board is as it was.
pub open spec fn applied(
    outcome: Result<Position, MoveError>,
    returned: Result<(), MoveError>,
    before: Board,
    after: Board,
) -> bool {
    match outcome {
        Ok(p) => returned is Ok && after.wf() && after@ == p,
        Err(e) => returned == Err::<(), MoveError>(e) && after == before,
    }
}

/// A move that can be applied goes from one square to another, and a
/// capture names the piece that stood on its target.
pub proof fn lemma_applied_move_is_sound(m: Move, pos: Position)
    requires
        m.apply_to(pos) is Ok,
    ensures
        m matches Move::Basic(b) ==> b.from != b.to,
        m matches Move::Capture(c) ==> c.from != c.to && pos.at(c.to.spec_idx()).unwrap().1
            == c.capture,
        m matches Move::Promotion(p) ==> p.from != p.to,
{
}

impl Move {
    /// What the move does to a position.
    pub open spec fn apply_to(self, pos: Position) -> Result<Position, MoveError> {
        match self {
            Move::Basic(m) => m.apply_to(pos),
            Move::Capture(m) => m.apply_to(pos),
            Move::Promotion(m) => m.apply_to(pos),
            Move::Castle(m) => m.apply_to(pos),
        }
    }

    /// The kind of piece that the move is said to take, if any.
    pub open spec fn spec_capture(self) -> Option<Pieces> {
        match self {
            Move::Capture(m) => Some(m.capture),
            _ => None,
        }
    }

    /// Applies the move to the board, or fails and leaves the board as it was.
    pub fn apply(&self, board: &mut Board) -> (r: Result<(), MoveError>)
        requires
            old(board).wf(),
        ensures
            applied(self.apply_to(old(board)@), r, *old(board), *final(board)),
    {
        match self {
            Move::Basic(m) => m.apply(board),
            Move::Capture(m) => m.apply(board),
            Move::Promotion(m) => m.apply(board),
            Move::Castle(m) => m.apply(board),
        }
    }

    /// The kind of piece that the move is said to take, if any.
    pub fn capture(&self) -> (r: Option<Pieces>)
        ensures
            r == self.spec_capture(),
    {
        match self {
            Move::Basic(m) => m.capture(),
            Move::Capture(m) => m.capture(),
            Move::Promotion(m) => m.capture(),
            Move::Castle(m) => m.capture(),
        }
    }
}

} // verus!
