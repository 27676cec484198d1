//! The board: one bitboard per side and kind of piece, one per side, and
//! the castling rights.

use vstd::prelude::*;
use crate::bitboard::Bitboard;
use crate::bits::{has_bit, lemma_or, lemma_xor, lemma_zero, lemma_not};
use crate::pieces::{Pieces, Sides, PIECES_COUNT, SIDES_COUNT};
use crate::position::{Cell, Position};
use crate::square::Square;

verus! {

/// Which castling moves each side may still make.
#[derive(Clone, Copy, Debug, PartialEq, Eq, Structural)]
pub struct MoveRights {
    pub white_king_side: bool,
    pub white_queen_side: bool,
    pub black_king_side: bool,
    pub black_queen_side: bool,
}

impl MoveRights {
    /// No right at all.
    pub open spec fn spec_none() -> MoveRights {
        MoveRights {
            white_king_side: false,
            white_queen_side: false,
            black_king_side: false,
            black_queen_side: false,
        }
    }

    /// Every right.
    pub open spec fn spec_all() -> MoveRights {
        MoveRights {
            white_king_side: true,
            white_queen_side: true,
            black_king_side: true,
            black_queen_side: true,
        }
    }

    /// Whether `side` may castle on the king's side (or the queen's).
    pub open spec fn holds(self, side: Sides, king_side: bool) -> bool {
        match side {
            Sides::White => if king_side {
                self.white_king_side
            } else {
                self.white_queen_side
            },
            Sides::Black => if king_side {
                self.black_king_side
            } else {
                self.black_queen_side
            },
        }
    }

    /// The rights once `side` has given up both of its own.
    pub open spec fn without(self, side: Sides) -> MoveRights {
        match side {
            Sides::White => MoveRights {
                white_king_side: false,
                white_queen_side: false,
                black_king_side: self.black_king_side,
                black_queen_side: self.black_queen_side,
            },
            Sides::Black => MoveRights {
                white_king_side: self.white_king_side,
                white_queen_side: self.white_queen_side,
                black_king_side: false,
                black_queen_side: false,
            },
        }
    }

    /// Every right.
    pub fn new() -> (r: MoveRights)
        ensures
            r == MoveRights::spec_all(),
    {
        MoveRights {
            white_king_side: true,
            white_queen_side: true,
            black_king_side: true,
            black_queen_side: true,
        }
    }

    /// The rights once `side` has given up both of its own.
    pub fn cleared(&self, side: Sides) -> (r: MoveRights)
        ensures
            r == self.without(side),
    {
        match side {
            Sides::White => MoveRights {
                white_king_side: false,
                white_queen_side: false,
                black_king_side: self.black_king_side,
                black_queen_side: self.black_queen_side,
            },
            Sides::Black => MoveRights {
                white_king_side: self.white_king_side,
                white_queen_side: self.white_queen_side,
                black_king_side: false,
                black_queen_side: false,
            },
        }
    }

    /// Whether `side` may castle on the king's side (or the queen's).
    pub fn allows(&self, side: Sides, king_side: bool) -> (r: bool)
        ensures
            r == self.holds(side, king_side),
    {
        match side {
            Sides::White => if king_side {
                self.white_king_side
            } else {
                self.white_queen_side
            },
            Sides::Black => if king_side {
                self.black_king_side
            } else {
                self.black_queen_side
            },
        }
    }
}

impl Default for MoveRights {
    /// No right at all.
    fn default() -> (r: MoveRights)
        ensures
            r == MoveRights::spec_none(),
    {
        MoveRights {
            white_king_side: false,
            white_queen_side: false,
            black_king_side: false,
            black_queen_side: false,
        }
    }
}

/// The board. `pieces[side][kind]` holds the squares of the pieces of that
/// side and kind, `sides[side]` the squares of all pieces of that side.
#[derive(Clone, Copy, Debug)]
pub struct Board {
    pub pieces: [[Bitboard; PIECES_COUNT]; SIDES_COUNT],
    pub sides: [Bitboard; SIDES_COUNT],
    pub move_rights: MoveRights,
}

impl View for Board {
    type V = Position;

    /// The position that the bitboards stand for.
    open spec fn view(&self) -> Position {
        Position { cells: Seq::new(64, |sq: int| self.cell(sq)), rights: self.move_rights }
    }
}

impl Board {
    /// The bitboard of the pieces of `side` and `kind`.
    pub open spec fn bb(self, side: Sides, kind: Pieces) -> Bitboard {
        self.pieces[side.spec_index()][kind.spec_index()]
    }

    /// The bitboard of all pieces of `side`.
    pub open spec fn side_bb(self, side: Sides) -> Bitboard {
        self.sides[side.spec_index()]
    }

    /// The first kind, in the order of declaration, of which `side` has a
    /// piece on `sq`.
    pub open spec fn first_kind(self, side: Sides, sq: int) -> Option<Pieces> {
        if self.bb(side, Pieces::Pawn)@.contains(sq) {
            Some(Pieces::Pawn)
        } else if self.bb(side, Pieces::Rook)@.contains(sq) {
            Some(Pieces::Rook)
        } else if self.bb(side, Pieces::Knight)@.contains(sq) {
            Some(Pieces::Knight)
        } else if self.bb(side, Pieces::Bishop)@.contains(sq) {
            Some(Pieces::Bishop)
        } else if self.bb(side, Pieces::Queen)@.contains(sq) {
            Some(Pieces::Queen)
        } else if self.bb(side, Pieces::King)@.contains(sq) {
            Some(Pieces::King)
        } else {
            None
        }
    }

    /// What the piece bitboards hold on `sq`.
    pub open spec fn cell(self, sq: int) -> Cell {
        match self.first_kind(Sides::White, sq) {
            Some(k) => Some((Sides::White, k)),
            None => match self.first_kind(Sides::Black, sq) {
                Some(k) => Some((Sides::Black, k)),
                None => None,
            },
        }
    }

    /// The invariant of a board: a square is in the bitboard of a side and
    /// kind exactly when that piece is what stands on it, and in the bitboard
    /// of a side exactly when a piece of that side stands on it. So no square
    /// is in two piece bitboards, nor in both side bitboards.
    pub open spec fn wf(self) -> bool {
        &&& forall|s: Sides, k: Pieces, sq: int| #[trigger]
            self.bb(s, k)@.contains(sq) <==> self.cell(sq) == Some((s, k))
        &&& forall|s: Sides, sq: int| #[trigger]
            self.side_bb(s)@.contains(sq) <==> (self.cell(sq) is Some && self.cell(sq).unwrap().0
                == s)
    }

    /// The side that [`Board::get_side`] gives for `sq`.
    pub open spec fn spec_get_side(self, sq: int) -> Sides {
        if self.side_bb(Sides::White)@.contains(sq) {
            Sides::White
        } else if self.side_bb(Sides::Black)@.contains(sq) {
            Sides::Black
        } else {
            Sides::White
        }
    }

    /// The kind that [`Board::get_piece`] gives for `sq`.
    pub open spec fn spec_get_piece(self, sq: int) -> Pieces {
        match self.first_kind(self.spec_get_side(sq), sq) {
            Some(k) => k,
            None => Pieces::Pawn,
        }
    }

    /// All occupied squares.
    pub fn occupied(&self) -> (r: Bitboard)
        ensures
            r@ == self.sides[0]@.union(self.sides[1]@),
            self.wf() ==> r@ == self@.occupied(),
    {
        let r = Bitboard(self.sides[0].0 | self.sides[1].0);
        proof {
            lemma_or(self.sides[0].0, self.sides[1].0);
            assert(r@ =~= self.sides[0]@.union(self.sides[1]@));
            if self.wf() {
                assert forall|sq: int| r@.contains(sq) == self@.occupied().contains(sq) by {
                    assert(self.side_bb(Sides::White)@.contains(sq) <==> (self.cell(sq) is Some
                        && self.cell(sq).unwrap().0 == Sides::White));
                    assert(self.side_bb(Sides::Black)@.contains(sq) <==> (self.cell(sq) is Some
                        && self.cell(sq).unwrap().0 == Sides::Black));
                }
                assert(r@ =~= self@.occupied());
            }
        }
        r
    }

    /// All empty squares of the board.
    pub fn empty(&self) -> (r: Bitboard)
        ensures
            r@ == Set::new(|sq: int| 0 <= sq < 64 && !self.sides[0]@.union(self.sides[1]@).contains(sq)),
            self.wf() ==> r@ == Set::new(|sq: int| 0 <= sq < 64 && self@.at(sq) is None),
    {
        let occ = self.occupied();
        let r = Bitboard(!occ.0);
        proof {
            lemma_not(occ.0);
            assert(r@ =~= Set::new(
                |sq: int| 0 <= sq < 64 && !self.sides[0]@.union(self.sides[1]@).contains(sq),
            ));
            if self.wf() {
                assert forall|sq: int|
                    r@.contains(sq) == (0 <= sq < 64 && self@.at(sq) is None) by {
                    assert(occ@.contains(sq) == self@.occupied().contains(sq));
                }
                assert(r@ =~= Set::new(|sq: int| 0 <= sq < 64 && self@.at(sq) is None));
            }
        }
        r
    }

    /// The squares of the pieces of `side`.
    pub fn friendly(&self, side: Sides) -> (r: Bitboard)
        ensures
            r == self.side_bb(side),
            self.wf() ==> r@ == self@.side_squares(side),
    {
        let r = self.sides[side.index()];
        proof {
            if self.wf() {
                assert forall|sq: int| r@.contains(sq) == self@.side_squares(side).contains(sq) by {
                    assert(self.side_bb(side)@.contains(sq) <==> (self.cell(sq) is Some
                        && self.cell(sq).unwrap().0 == side));
                }
                assert(r@ =~= self@.side_squares(side));
            }
        }
        r
    }

    /// The squares of the pieces of the opponent of `side`.
    pub fn enemy(&self, side: Sides) -> (r: Bitboard)
        ensures
            r == self.side_bb(side.spec_other()),
            self.wf() ==> r@ == self@.side_squares(side.spec_other()),
    {
        self.friendly(side.other())
    }

    /// The side of the piece on `pos`; White where the square is empty.
    pub fn get_side(&self, pos: Square) -> (r: Sides)
        requires
            pos.wf(),
        ensures
            r == self.spec_get_side(pos.spec_idx()),
            self.wf() && self@.at(pos.spec_idx()) is Some ==> r == self@.at(
                pos.spec_idx(),
            ).unwrap().0,
    {
        let idx = pos.idx();
        proof {
            if self.wf() {
                assert(self.side_bb(Sides::White)@.contains(idx as int) <==> (self.cell(idx as int) is Some
                    && self.cell(idx as int).unwrap().0 == Sides::White));
                assert(self.side_bb(Sides::Black)@.contains(idx as int) <==> (self.cell(idx as int) is Some
                    && self.cell(idx as int).unwrap().0 == Sides::Black));
            }
        }
        if self.sides[0].contains(idx) {
            Sides::White
        } else if self.sides[1].contains(idx) {
            Sides::Black
        } else {
            Sides::White
        }
    }

    /// The kind of the piece on `pos`; a pawn where the square is empty.
    pub fn get_piece(&self, pos: Square) -> (r: Pieces)
        requires
            pos.wf(),
        ensures
            r == self.spec_get_piece(pos.spec_idx()),
            self.wf() && self@.at(pos.spec_idx()) is Some ==> r == self@.at(
                pos.spec_idx(),
            ).unwrap().1,
    {
        let side = self.get_side(pos);
        let idx = pos.idx();
        let s = side.index();
        let mut k: usize = 0;
        while k < PIECES_COUNT
            invariant
                k <= PIECES_COUNT,
                s == side.spec_index(),
                idx < 64,
                idx == pos.spec_idx(),
                side == self.spec_get_side(idx as int),
                forall|j: int|
                    0 <= j < k ==> !self.bb(side, #[trigger] Pieces::spec_from_index(j))@.contains(
                        idx as int,
                    ),
            decreases PIECES_COUNT - k,
        {
            let kind = Pieces::from_index(k);
            if self.pieces[s][k].contains(idx) {
                proof {
                    self.lemma_first_kind(side, idx as int, k as int);
                    self.lemma_side_and_kind(idx as int);
                }
                return kind;
            }
            k = k + 1;
        }
        proof {
            self.lemma_first_kind(side, idx as int, 6);
            self.lemma_side_and_kind(idx as int);
        }
        Pieces::Pawn
    }

    /// What stands on `pos`.
    pub fn piece_at(&self, pos: Square) -> (r: Cell)
        requires
            pos.wf(),
            self.wf(),
        ensures
            r == self@.at(pos.spec_idx()),
    {
        let idx = pos.idx();
        proof {
            let sq = idx as int;
            assert(self.side_bb(Sides::White)@.contains(sq) <==> (self.cell(sq) is Some
                && self.cell(sq).unwrap().0 == Sides::White));
            assert(self.side_bb(Sides::Black)@.contains(sq) <==> (self.cell(sq) is Some
                && self.cell(sq).unwrap().0 == Sides::Black));
        }
        if self.sides[0].contains(idx) || self.sides[1].contains(idx) {
            Some((self.get_side(pos), self.get_piece(pos)))
        } else {
            None
        }
    }

    /// The first kind found is the one at which a scan in the order of
    /// declaration stops.
    proof fn lemma_first_kind(self, side: Sides, sq: int, k: int)
        requires
            0 <= k <= 6,
            forall|j: int|
                0 <= j < k ==> !self.bb(side, #[trigger] Pieces::spec_from_index(j))@.contains(sq),
            k < 6 ==> self.bb(side, Pieces::spec_from_index(k))@.contains(sq),
        ensures
            k < 6 ==> self.first_kind(side, sq) == Some(Pieces::spec_from_index(k)),
            k == 6 ==> self.first_kind(side, sq) is None,
    {
        assert(Pieces::spec_from_index(0) == Pieces::Pawn);
        assert(Pieces::spec_from_index(1) == Pieces::Rook);
        assert(Pieces::spec_from_index(2) == Pieces::Knight);
        assert(Pieces::spec_from_index(3) == Pieces::Bishop);
        assert(Pieces::spec_from_index(4) == Pieces::Queen);
        assert(Pieces::spec_from_index(5) == Pieces::King);
    }

    /// On a well-formed board, the side and kind found on a square are those
    /// of the piece that stands there.
    pub proof fn lemma_side_and_kind(self, sq: int)
        ensures
            self.wf() && self.cell(sq) is Some ==> self.cell(sq) == Some(
                (self.spec_get_side(sq), self.spec_get_piece(sq)),
            ),
    {
        if self.wf() && self.cell(sq) is Some {
            assert(self.side_bb(Sides::White)@.contains(sq) <==> (self.cell(sq) is Some
                && self.cell(sq).unwrap().0 == Sides::White));
            assert(self.side_bb(Sides::Black)@.contains(sq) <==> (self.cell(sq) is Some
                && self.cell(sq).unwrap().0 == Sides::Black));
            let s = self.cell(sq).unwrap().0;
            let k = self.cell(sq).unwrap().1;
            assert(self.bb(s, k)@.contains(sq));
            self.lemma_one_kind(s, sq);
        }
    }

    /// On a well-formed board a square is in at most one piece bitboard of
    /// a side: the one that `first_kind` names.
    proof fn lemma_one_kind(self, side: Sides, sq: int)
        requires
            self.wf(),
        ensures
            forall|k: Pieces| #[trigger]
                self.bb(side, k)@.contains(sq) ==> self.first_kind(side, sq) == Some(k),
    {
        assert forall|k: Pieces| #[trigger] self.bb(side, k)@.contains(sq) implies self.first_kind(
            side,
            sq,
        ) == Some(k) by {
            assert(self.cell(sq) == Some((side, k)));
            let f = self.first_kind(side, sq);
            assert(f is Some);
            assert(self.bb(side, f.unwrap())@.contains(sq));
            assert(self.cell(sq) == Some((side, f.unwrap())));
        }
    }
}

/// Whether `after` is `before` with square `sq` toggled in the bitboard of
/// `side` and `kind` and in the bitboard of `side`, and nothing else changed.
pub open spec fn toggled(before: Board, after: Board, side: Sides, kind: Pieces, sq: int) -> bool {
    &&& after.move_rights == before.move_rights
    &&& forall|s: Sides, k: Pieces, i: int| #[trigger]
        after.bb(s, k)@.contains(i) <==> (before.bb(s, k)@.contains(i) != (s == side && k == kind
            && i == sq))
    &&& forall|s: Sides, i: int| #[trigger]
        after.side_bb(s)@.contains(i) <==> (before.side_bb(s)@.contains(i) != (s == side && i
            == sq))
}

/// Toggling an empty square puts the piece there.
pub proof fn lemma_toggle_puts(before: Board, after: Board, side: Sides, kind: Pieces, sq: int)
    requires
        before.wf(),
        0 <= sq < 64,
        toggled(before, after, side, kind, sq),
        before.cell(sq) is None,
    ensures
        after.wf(),
        after@ == before@.put(sq, Some((side, kind))),
{
    assert forall|i: int| after.cell(i) == (if i == sq {
        Some((side, kind))
    } else {
        before.cell(i)
    }) by {
        lemma_cell_by_bits(before, i);
        lemma_cell_by_bits(after, i);
    }
    lemma_wf_by_cells(before, after, side, kind, sq, Some((side, kind)));
    assert(after@.cells =~= before@.put(sq, Some((side, kind))).cells);
}

/// Toggling the square of a piece of that side and kind takes it away.
pub proof fn lemma_toggle_takes(before: Board, after: Board, side: Sides, kind: Pieces, sq: int)
    requires
        before.wf(),
        0 <= sq < 64,
        toggled(before, after, side, kind, sq),
        before.cell(sq) == Some((side, kind)),
    ensures
        after.wf(),
        after@ == before@.put(sq, None),
{
    assert forall|s: Sides, k: Pieces| #[trigger]
        before.bb(s, k)@.contains(sq) <==> (s == side && k == kind) by {}
    assert forall|i: int| after.cell(i) == (if i == sq {
        None
    } else {
        before.cell(i)
    }) by {
        lemma_cell_by_bits(before, i);
        lemma_cell_by_bits(after, i);
    }
    lemma_wf_by_cells(before, after, side, kind, sq, None);
    assert(after@.cells =~= before@.put(sq, None).cells);
}

/// What stands on a square, read off the twelve piece bitboards.
proof fn lemma_cell_by_bits(b: Board, i: int)
    ensures
        forall|s: Sides, k: Pieces|
            b.cell(i) == Some((s, k)) ==> #[trigger] b.bb(s, k)@.contains(i),
        b.cell(i) is None ==> forall|s: Sides, k: Pieces| !#[trigger] b.bb(s, k)@.contains(i),
{
    if b.cell(i) is None {
        assert forall|s: Sides, k: Pieces| !#[trigger] b.bb(s, k)@.contains(i) by {
            assert(b.first_kind(s, i) is None);
        }
    }
}

/// A board whose cells differ from those of a well-formed board on one
/// square only, by one toggle, is well-formed.
proof fn lemma_wf_by_cells(
    before: Board,
    after: Board,
    side: Sides,
    kind: Pieces,
    sq: int,
    cell: Cell,
)
    requires
        before.wf(),
        toggled(before, after, side, kind, sq),
        forall|i: int|
            after.cell(i) == (if i == sq {
                cell
            } else {
                before.cell(i)
            }),
        cell == Some((side, kind)) && before.cell(sq) is None || cell is None && before.cell(sq)
            == Some((side, kind)),
    ensures
        after.wf(),
{
    assert forall|s: Sides, k: Pieces, i: int| #[trigger]
        after.bb(s, k)@.contains(i) <==> after.cell(i) == Some((s, k)) by {
        assert(before.bb(s, k)@.contains(i) <==> before.cell(i) == Some((s, k)));
    }
    assert forall|s: Sides, i: int| #[trigger]
        after.side_bb(s)@.contains(i) <==> (after.cell(i) is Some && after.cell(i).unwrap().0
            == s) by {
        assert(before.side_bb(s)@.contains(i) <==> (before.cell(i) is Some && before.cell(
            i,
        ).unwrap().0 == s));
    }
}

impl Board {
    /// Toggles `square` in the bitboards of `side` and `piece`: on an empty
    /// square this places the piece, on a square that holds it, it removes it.
    pub fn place_piece(&mut self, side: Sides, piece: Pieces, square: Square)
        requires
            square.wf(),
        ensures
            toggled(*old(self), *final(self), side, piece, square.spec_idx()),
            old(self).wf() && old(self)@.at(square.spec_idx()) is None ==> final(self).wf()
                && final(self)@ == old(self)@.put(square.spec_idx(), Some((side, piece))),
            old(self).wf() && old(self)@.at(square.spec_idx()) == Some((side, piece))
                ==> final(self).wf() && final(self)@ == old(self)@.put(square.spec_idx(), None),
    {
        let idx = square.idx();
        let bit = crate::bits::single_bit(idx);
        let s = side.index();
        let k = piece.index();
        let ghost before = *self;
        proof {
            lemma_xor(self.sides[s as int].0, bit);
            lemma_xor(self.pieces[s as int][k as int].0, bit);
        }
        self.sides[s] = Bitboard(self.sides[s].0 ^ bit);
        self.pieces[s][k] = Bitboard(self.pieces[s][k].0 ^ bit);
        proof {
            assert(toggled(before, *self, side, piece, idx as int));
            if before.wf() && before@.at(idx as int) is None {
                lemma_toggle_puts(before, *self, side, piece, idx as int);
            }
            if before.wf() && before@.at(idx as int) == Some((side, piece)) {
                lemma_toggle_takes(before, *self, side, piece, idx as int);
            }
        }
    }

    /// Replaces the castling rights; the pieces stay where they are.
    pub fn set_rights(&mut self, rights: MoveRights)
        requires
            old(self).wf(),
        ensures
            final(self).wf(),
            final(self)@ == old(self)@.with_rights(rights),
    {
        let ghost before = *self;
        self.move_rights = rights;
        proof {
            assert(self.pieces == before.pieces);
            assert(self.sides == before.sides);
            assert forall|s: Sides, k: Pieces| #[trigger] self.bb(s, k) == before.bb(s, k) by {}
            assert forall|s: Sides| #[trigger] self.side_bb(s) == before.side_bb(s) by {}
            assert forall|sq: int| self.cell(sq) == before.cell(sq) by {}
            assert(self@.cells =~= before@.cells);
        }
    }

    /// How many pieces of `side` and kind `piece` the board holds.
    pub fn count_piece(&self, side: Sides, piece: Pieces) -> (r: i32)
        ensures
            r == crate::bits::popcount_below(self.bb(side, piece).0, 64),
            0 <= r <= 64,
            self.wf() ==> r == self@.count(side, piece),
    {
        proof {
            if self.wf() {
                self.lemma_count(side, piece, 64);
            }
        }
        crate::bits::popcount(self.pieces[side.index()][piece.index()].0)
    }

    /// On a well-formed board the bits of a piece bitboard are the pieces
    /// of that side and kind.
    proof fn lemma_count(self, side: Sides, kind: Pieces, n: int)
        requires
            self.wf(),
            0 <= n <= 64,
        ensures
            crate::bits::popcount_below(self.bb(side, kind).0, n) == self@.count_below(
                side,
                kind,
                n,
            ),
        decreases n,
    {
        if n > 0 {
            self.lemma_count(side, kind, n - 1);
            assert(self.bb(side, kind)@.contains(n - 1) <==> self.cell(n - 1) == Some(
                (side, kind),
            ));
        }
    }
}

impl Default for Board {
    /// The board without pieces or rights.
    fn default() -> (r: Board)
        ensures
            r.wf(),
            r@ == crate::position::empty_position(),
    {
        let r = Board {
            pieces: [[Bitboard(0); PIECES_COUNT]; SIDES_COUNT],
            sides: [Bitboard(0); SIDES_COUNT],
            move_rights: MoveRights::default(),
        };
        proof {
            lemma_zero();
            assert forall|s: Sides, k: Pieces, sq: int| !#[trigger] r.bb(s, k)@.contains(sq) by {
                assert(r.bb(s, k).0 == 0);
            }
            assert forall|s: Sides, sq: int| !#[trigger] r.side_bb(s)@.contains(sq) by {
                assert(r.side_bb(s).0 == 0);
            }
            assert(r@.cells =~= crate::position::empty_position().cells);
        }
        r
    }
}


/// The kind of piece that starts on the given file of a side's first rank.
fn back_rank_piece(file: usize) -> (k: Pieces)
    requires
        file < 8,
    ensures
        k == crate::position::back_rank_kind(file as int),
{
    if file == 0 || file == 7 {
        Pieces::Rook
    } else if file == 1 || file == 6 {
        Pieces::Knight
    } else if file == 2 || file == 5 {
        Pieces::Bishop
    } else if file == 3 {
        Pieces::Queen
    } else {
        Pieces::King
    }
}

impl Board {
    /// The board on which a game starts.
    pub fn new() -> (board: Board)
        ensures
            board.wf(),
            board@ == crate::position::start_position(),
    {
        let mut board = Board::default();
        let mut file: usize = 0;
        while file < 8
            invariant
                file <= 8,
                board.wf(),
                board@.rights == MoveRights::spec_none(),
                forall|sq: int|
                    0 <= sq < 64 ==> #[trigger] board@.cells[sq] == (if sq % 8 < file {
                        crate::position::start_cell(sq)
                    } else {
                        None
                    }),
            decreases 8 - file,
        {
            let kind = back_rank_piece(file);
            let ghost b0 = board@;
            assert(b0.cells[0 * 8 + file as int] is None);
            board.place_piece(Sides::White, kind, Square::new(file, 0));
            let ghost b1 = board@;
            assert(b1.cells[1 * 8 + file as int] == b0.cells[1 * 8 + file as int]);
            board.place_piece(Sides::White, Pieces::Pawn, Square::new(file, 1));
            let ghost b2 = board@;
            assert(b2.cells[6 * 8 + file as int] == b0.cells[6 * 8 + file as int]);
            board.place_piece(Sides::Black, Pieces::Pawn, Square::new(file, 6));
            let ghost b3 = board@;
            assert(b3.cells[7 * 8 + file as int] == b0.cells[7 * 8 + file as int]);
            board.place_piece(Sides::Black, kind, Square::new(file, 7));
            file = file + 1;
        }
        assert(board@.cells =~= crate::position::start_position().cells);
        board
    }
}


/// The union of the six piece bitboards of a side, as one word.
pub open spec fn pieces_union(b: Board, side: Sides) -> u64 {
    b.bb(side, Pieces::Pawn).0 | b.bb(side, Pieces::Rook).0 | b.bb(side, Pieces::Knight).0 | b.bb(
        side,
        Pieces::Bishop,
    ).0 | b.bb(side, Pieces::Queen).0 | b.bb(side, Pieces::King).0
}

/// The bits of the union of the piece bitboards of a side.
proof fn lemma_pieces_union(b: Board, side: Sides)
    ensures
        forall|j: int|
            has_bit(pieces_union(b, side), j) <==> exists|k: Pieces| #[trigger]
                b.bb(side, k)@.contains(j),
{
    let p = b.bb(side, Pieces::Pawn).0;
    let r = b.bb(side, Pieces::Rook).0;
    let n = b.bb(side, Pieces::Knight).0;
    let bi = b.bb(side, Pieces::Bishop).0;
    let q = b.bb(side, Pieces::Queen).0;
    let k = b.bb(side, Pieces::King).0;
    lemma_or(p, r);
    lemma_or(p | r, n);
    lemma_or(p | r | n, bi);
    lemma_or(p | r | n | bi, q);
    lemma_or(p | r | n | bi | q, k);
    assert forall|j: int|
        has_bit(pieces_union(b, side), j) <==> exists|k: Pieces| #[trigger]
            b.bb(side, k)@.contains(j) by {
        if has_bit(pieces_union(b, side), j) {
            if has_bit(p, j) {
                assert(b.bb(side, Pieces::Pawn)@.contains(j));
            } else if has_bit(r, j) {
                assert(b.bb(side, Pieces::Rook)@.contains(j));
            } else if has_bit(n, j) {
                assert(b.bb(side, Pieces::Knight)@.contains(j));
            } else if has_bit(bi, j) {
                assert(b.bb(side, Pieces::Bishop)@.contains(j));
            } else if has_bit(q, j) {
                assert(b.bb(side, Pieces::Queen)@.contains(j));
            } else {
                assert(b.bb(side, Pieces::King)@.contains(j));
            }
        }
        if exists|k: Pieces| #[trigger] b.bb(side, k)@.contains(j) {
            let kind = choose|k: Pieces| #[trigger] b.bb(side, k)@.contains(j);
            assert(b.bb(side, kind)@.contains(j));
            match kind {
                Pieces::Pawn => {},
                Pieces::Rook => {},
                Pieces::Knight => {},
                Pieces::Bishop => {},
                Pieces::Queen => {},
                Pieces::King => {},
            }
        }
    }
}

/// On a well-formed board the two side bitboards share no square, each is
/// the union of the six piece bitboards of its side, both together are the
/// union of all twelve, and no two piece bitboards share a square.
pub proof fn lemma_wf_bitboards(b: Board)
    requires
        b.wf(),
    ensures
        b.side_bb(Sides::White).0 & b.side_bb(Sides::Black).0 == 0,
        b.side_bb(Sides::White).0 == pieces_union(b, Sides::White),
        b.side_bb(Sides::Black).0 == pieces_union(b, Sides::Black),
        b.side_bb(Sides::White).0 | b.side_bb(Sides::Black).0 == pieces_union(b, Sides::White)
            | pieces_union(b, Sides::Black),
        forall|s1: Sides, k1: Pieces, s2: Sides, k2: Pieces|
            (s1 != s2 || k1 != k2) ==> #[trigger] b.bb(s1, k1).0 & #[trigger] b.bb(s2, k2).0 == 0,
{
    let w = b.side_bb(Sides::White).0;
    let bl = b.side_bb(Sides::Black).0;
    crate::bits::lemma_and(w, bl);
    assert forall|j: int| 0 <= j < 64 implies !has_bit(w & bl, j) by {
        assert(b.side_bb(Sides::White)@.contains(j) == has_bit(w, j));
        assert(b.side_bb(Sides::Black)@.contains(j) == has_bit(bl, j));
    }
    crate::bits::lemma_empty_is_zero(w & bl);
    lemma_side_is_union(b, Sides::White);
    lemma_side_is_union(b, Sides::Black);
    assert forall|s1: Sides, k1: Pieces, s2: Sides, k2: Pieces| (s1 != s2 || k1 != k2) implies #[trigger]
        b.bb(s1, k1).0 & #[trigger] b.bb(s2, k2).0 == 0 by {
        let x = b.bb(s1, k1).0;
        let y = b.bb(s2, k2).0;
        crate::bits::lemma_and(x, y);
        assert forall|j: int| 0 <= j < 64 implies !has_bit(x & y, j) by {
            assert(b.bb(s1, k1)@.contains(j) == has_bit(x, j));
            assert(b.bb(s2, k2)@.contains(j) == has_bit(y, j));
        }
        crate::bits::lemma_empty_is_zero(x & y);
    }
}

proof fn lemma_side_is_union(b: Board, side: Sides)
    requires
        b.wf(),
    ensures
        b.side_bb(side).0 == pieces_union(b, side),
{
    lemma_pieces_union(b, side);
    assert forall|j: int| 0 <= j < 64 implies has_bit(b.side_bb(side).0, j) == has_bit(
        pieces_union(b, side),
        j,
    ) by {
        assert(b.side_bb(side)@.contains(j) == has_bit(b.side_bb(side).0, j));
        if b.side_bb(side)@.contains(j) {
            let k = b.cell(j).unwrap().1;
            assert(b.bb(side, k)@.contains(j));
        }
        if exists|k: Pieces| #[trigger] b.bb(side, k)@.contains(j) {
            let k = choose|k: Pieces| #[trigger] b.bb(side, k)@.contains(j);
            assert(b.cell(j) == Some((side, k)));
        }
    }
    crate::bits::lemma_ext(b.side_bb(side).0, pieces_union(b, side));
}

/// Two well-formed boards that stand for the same position are the same
/// board: the position determines every bitboard.
pub proof fn lemma_board_determined(a: Board, b: Board)
    requires
        a.wf(),
        b.wf(),
        a@ == b@,
    ensures
        a == b,
{
    assert forall|sq: int| a.cell(sq) == b.cell(sq) by {
        if 0 <= sq < 64 {
            assert(a@.cells[sq] == b@.cells[sq]);
        } else {
            lemma_cell_by_bits(a, sq);
            lemma_cell_by_bits(b, sq);
            if a.cell(sq) is Some {
                assert(a.bb(a.cell(sq).unwrap().0, a.cell(sq).unwrap().1)@.contains(sq));
            }
            if b.cell(sq) is Some {
                assert(b.bb(b.cell(sq).unwrap().0, b.cell(sq).unwrap().1)@.contains(sq));
            }
        }
    }
    assert forall|s: Sides, k: Pieces| a.bb(s, k) == b.bb(s, k) by {
        assert forall|sq: int| a.bb(s, k)@.contains(sq) == b.bb(s, k)@.contains(sq) by {
            assert(a.bb(s, k)@.contains(sq) <==> a.cell(sq) == Some((s, k)));
            assert(b.bb(s, k)@.contains(sq) <==> b.cell(sq) == Some((s, k)));
        }
        assert(a.bb(s, k)@ =~= b.bb(s, k)@);
        crate::bitboard::lemma_view_injective(a.bb(s, k), b.bb(s, k));
    }
    assert forall|s: Sides| a.side_bb(s) == b.side_bb(s) by {
        assert forall|sq: int| a.side_bb(s)@.contains(sq) == b.side_bb(s)@.contains(sq) by {
            assert(a.side_bb(s)@.contains(sq) <==> (a.cell(sq) is Some && a.cell(sq).unwrap().0
                == s));
            assert(b.side_bb(s)@.contains(sq) <==> (b.cell(sq) is Some && b.cell(sq).unwrap().0
                == s));
        }
        assert(a.side_bb(s)@ =~= b.side_bb(s)@);
        crate::bitboard::lemma_view_injective(a.side_bb(s), b.side_bb(s));
    }
    assert forall|i: int, j: int| 0 <= i < 2 && 0 <= j < 6 implies a.pieces[i][j] == b.pieces[i][j] by {
        let s = if i == 0 {
            Sides::White
        } else {
            Sides::Black
        };
        let k = Pieces::spec_from_index(j);
        assert(a.bb(s, k) == b.bb(s, k));
    }
    assert forall|i: int| 0 <= i < 2 implies a.pieces[i] == b.pieces[i] by {
        assert(a.pieces[i] =~= b.pieces[i]);
    }
    assert(a.pieces =~= b.pieces);
    assert forall|i: int| 0 <= i < 2 implies a.sides[i] == b.sides[i] by {
        let s = if i == 0 {
            Sides::White
        } else {
            Sides::Black
        };
        assert(a.side_bb(s) == b.side_bb(s));
    }
    assert(a.sides =~= b.sides);
    assert(a.move_rights == b.move_rights);
}

/// The invariant of a board in terms of the words: the side bitboards
/// share no bit, each is the union of the piece bitboards of its side, and
/// no two piece bitboards of a side share a bit.
pub open spec fn words_agree(b: Board) -> bool {
    &&& b.side_bb(Sides::White).0 & b.side_bb(Sides::Black).0 == 0
    &&& forall|s: Sides| #[trigger] b.side_bb(s).0 == pieces_union(b, s)
    &&& forall|s: Sides, k1: Pieces, k2: Pieces|
        k1 != k2 ==> #[trigger] b.bb(s, k1).0 & #[trigger] b.bb(s, k2).0 == 0
}

/// A board is well-formed exactly when its words agree.
pub proof fn lemma_wf_is_words_agree(b: Board)
    ensures
        b.wf() <==> words_agree(b),
{
    if b.wf() {
        lemma_wf_bitboards(b);
    }
    if words_agree(b) {
        lemma_pieces_union(b, Sides::White);
        lemma_pieces_union(b, Sides::Black);
        lemma_zero();
        crate::bits::lemma_and(b.side_bb(Sides::White).0, b.side_bb(Sides::Black).0);
        assert forall|s: Sides, k: Pieces, sq: int| #[trigger]
            b.bb(s, k)@.contains(sq) implies b.first_kind(s, sq) == Some(k) by {
            assert forall|k2: Pieces| k2 != k implies !b.bb(s, k2)@.contains(sq) by {
                crate::bits::lemma_and(b.bb(s, k).0, b.bb(s, k2).0);
                assert(b.bb(s, k).0 & b.bb(s, k2).0 == 0);
            }
        }
        assert forall|s: Sides, sq: int| #[trigger]
            b.side_bb(s)@.contains(sq) <==> b.first_kind(s, sq) is Some by {
            assert(b.side_bb(s).0 == pieces_union(b, s));
            if b.first_kind(s, sq) is Some {
                assert(b.bb(s, b.first_kind(s, sq).unwrap())@.contains(sq));
            }
            if b.side_bb(s)@.contains(sq) {
                let k = choose|k: Pieces| #[trigger] b.bb(s, k)@.contains(sq);
                assert(b.first_kind(s, sq) == Some(k));
            }
        }
        assert forall|sq: int|
            !(b.first_kind(Sides::White, sq) is Some && b.first_kind(Sides::Black, sq) is Some) by {
            assert(b.side_bb(Sides::White)@.contains(sq) <==> b.first_kind(Sides::White, sq) is Some);
            assert(b.side_bb(Sides::Black)@.contains(sq) <==> b.first_kind(Sides::Black, sq) is Some);
        }
        assert forall|s: Sides, k: Pieces, sq: int| #[trigger]
            b.bb(s, k)@.contains(sq) <==> b.cell(sq) == Some((s, k)) by {
            if b.bb(s, k)@.contains(sq) {
                assert(b.first_kind(s, sq) == Some(k));
            }
            if b.cell(sq) == Some((s, k)) {
                assert(b.first_kind(s, sq) == Some(k));
            }
        }
        assert forall|s: Sides, sq: int| #[trigger]
            b.side_bb(s)@.contains(sq) <==> (b.cell(sq) is Some && b.cell(sq).unwrap().0 == s) by {
            assert(b.side_bb(s)@.contains(sq) <==> b.first_kind(s, sq) is Some);
        }
    }
}

impl Board {
    /// Whether the piece bitboards of `side` share no bit and their union is
    /// the side's bitboard.
    fn side_agrees(&self, side: Sides) -> (r: bool)
        ensures
            r == (self.side_bb(side).0 == pieces_union(*self, side) && forall|
                k1: Pieces,
                k2: Pieces,
            |
                k1 != k2 ==> #[trigger] self.bb(side, k1).0 & #[trigger] self.bb(side, k2).0 == 0),
    {
        let s = side.index();
        let union = self.pieces[s][0].0 | self.pieces[s][1].0 | self.pieces[s][2].0
            | self.pieces[s][3].0 | self.pieces[s][4].0 | self.pieces[s][5].0;
        if union != self.sides[s].0 {
            return false;
        }
        let mut i: usize = 0;
        while i < PIECES_COUNT
            invariant
                i <= PIECES_COUNT,
                s == side.spec_index(),
                forall|a: int, b: int|
                    0 <= a < i && 0 <= b < 6 && a != b ==> #[trigger] self.pieces[s as int][a].0
                        & #[trigger] self.pieces[s as int][b].0 == 0,
            decreases PIECES_COUNT - i,
        {
            let mut j: usize = 0;
            while j < PIECES_COUNT
                invariant
                    i < PIECES_COUNT,
                    j <= PIECES_COUNT,
                    s == side.spec_index(),
                    forall|b: int|
                        0 <= b < j && i != b ==> self.pieces[s as int][i as int].0
                            & #[trigger] self.pieces[s as int][b].0 == 0,
                decreases PIECES_COUNT - j,
            {
                if i != j && self.pieces[s][i].0 & self.pieces[s][j].0 != 0 {
                    proof {
                        let k1 = Pieces::spec_from_index(i as int);
                        let k2 = Pieces::spec_from_index(j as int);
                        assert(self.bb(side, k1).0 & self.bb(side, k2).0 != 0);
                    }
                    return false;
                }
                j = j + 1;
            }
            i = i + 1;
        }
        proof {
            assert forall|k1: Pieces, k2: Pieces| k1 != k2 implies #[trigger] self.bb(side, k1).0
                & #[trigger] self.bb(side, k2).0 == 0 by {
                let a = k1.spec_index();
                let b = k2.spec_index();
                assert(self.pieces[s as int][a].0 & self.pieces[s as int][b].0 == 0);
            }
        }
        true
    }

    /// Whether the board is well-formed.
    pub fn is_valid(&self) -> (r: bool)
        ensures
            r == self.wf(),
    {
        proof {
            lemma_wf_is_words_agree(*self);
        }
        let apart = self.sides[0].0 & self.sides[1].0 == 0;
        let white = self.side_agrees(Sides::White);
        let black = self.side_agrees(Sides::Black);
        proof {
            if white && black {
                assert forall|s: Sides| #[trigger] self.side_bb(s).0 == pieces_union(*self, s) by {
                    match s {
                        Sides::White => {},
                        Sides::Black => {},
                    }
                }
                assert forall|s: Sides, k1: Pieces, k2: Pieces| k1 != k2 implies #[trigger] self.bb(
                    s,
                    k1,
                ).0 & #[trigger] self.bb(s, k2).0 == 0 by {
                    match s {
                        Sides::White => {},
                        Sides::Black => {},
                    }
                }
            }
        }
        apart && white && black
    }
}

} // verus!
