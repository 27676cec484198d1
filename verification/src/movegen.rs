//! Generation of moves, and check, checkmate and stalemate.
//!
//! The pseudo-legal moves of a side are listed kind by kind (pawn, rook,
//! knight, bishop, queen, king), within a kind by the square the piece
//! stands on, and for one piece first the moves to empty squares by target
//! square, then the captures by target square, then, for a king, castling.
//! The legal moves are those after which the mover's king is not attacked.

use vstd::prelude::*;
use crate::attacks::{
    pawn_moves,
    pawn_pushes,
    sliding_attacks,
    sliding_targets,
    step_attacks,
    step_targets,
    Rays,
};
use crate::bitboard::{lemma_ops, Bitboard};
use crate::board::Board;
use crate::moves::{castle_path, BasicMove, Capture, Castle, Move, Promotion};
use crate::pieces::{Pieces, Sides, PIECES_COUNT};
use crate::position::Position;
use crate::square::Square;

verus! {

/// The four directions of a rook.
pub open spec fn rook_dirs() -> Seq<usize> {
    seq![0usize, 1usize, 4usize, 5usize]
}

/// The four directions of a bishop.
pub open spec fn bishop_dirs() -> Seq<usize> {
    seq![2usize, 3usize, 6usize, 7usize]
}

/// The steps of a knight.
pub open spec fn knight_deltas() -> Seq<i8> {
    seq![15i8, 17i8, 10i8, 6i8, -15i8, -17i8, -10i8, -6i8]
}

/// The steps of a king.
pub open spec fn king_deltas() -> Seq<i8> {
    seq![1i8, -1i8, 8i8, -8i8, 7i8, -7i8, 9i8, -9i8]
}

/// The steps by which a pawn of `side` captures.
pub open spec fn pawn_capture_deltas(side: Sides) -> Seq<i8> {
    match side {
        Sides::White => seq![7i8, 9i8],
        Sides::Black => seq![-7i8, -9i8],
    }
}

/// The rank on which a pawn of `side` is promoted.
pub open spec fn promotion_rank(side: Sides) -> int {
    match side {
        Sides::White => 7,
        Sides::Black => 0,
    }
}

/// The squares that a piece of `side` and `kind` on `from` may go to, as far
/// as its way of moving goes: for a pawn the squares it may advance to and
/// the squares of enemy pieces it attacks, for the others every square they
/// attack, whoever stands there.
pub open spec fn targets(pos: Position, side: Sides, kind: Pieces, from: int) -> Set<int> {
    match kind {
        Pieces::Pawn => step_targets(from, pawn_capture_deltas(side)).intersect(
            pos.side_squares(side.spec_other()),
        ).union(pawn_pushes(from, side, pos.occupied())),
        Pieces::Rook => sliding_targets(from, pos.occupied(), rook_dirs()),
        Pieces::Knight => step_targets(from, knight_deltas()),
        Pieces::Bishop => sliding_targets(from, pos.occupied(), bishop_dirs()),
        Pieces::Queen => sliding_targets(from, pos.occupied(), rook_dirs()).union(
            sliding_targets(from, pos.occupied(), bishop_dirs()),
        ),
        Pieces::King => step_targets(from, king_deltas()),
    }
}

/// The square with index `i`.
pub open spec fn square_of(i: int) -> Square {
    Square { file: (i % 8) as usize, rank: (i / 8) as usize }
}

/// The moves of the piece on `from` to the square `to`, if it is a target
/// and empty: one move, or for a pawn that reaches its promotion rank one
/// promotion to each of rook, knight, bishop and queen.
pub open spec fn quiet_at(
    pos: Position,
    side: Sides,
    kind: Pieces,
    from: int,
    reach: Set<int>,
    to: int,
) -> Seq<Move> {
    if reach.contains(to) && pos.at(to) is None {
        if kind == Pieces::Pawn {
            if to / 8 == promotion_rank(side) {
                seq![
                    Move::Promotion(
                        Promotion { from: square_of(from), to: square_of(to), piece: Pieces::Rook },
                    ),
                    Move::Promotion(
                        Promotion { from: square_of(from), to: square_of(to), piece: Pieces::Knight },
                    ),
                    Move::Promotion(
                        Promotion { from: square_of(from), to: square_of(to), piece: Pieces::Bishop },
                    ),
                    Move::Promotion(
                        Promotion { from: square_of(from), to: square_of(to), piece: Pieces::Queen },
                    ),
                ]
            } else {
                seq![Move::Basic(BasicMove { from: square_of(from), to: square_of(to) })]
            }
        } else {
            seq![Move::Basic(BasicMove { from: square_of(from), to: square_of(to) })]
        }
    } else {
        Seq::empty()
    }
}

/// The moves of the piece on `from` to the empty squares below `n`.
pub open spec fn quiet_moves(
    pos: Position,
    side: Sides,
    kind: Pieces,
    from: int,
    reach: Set<int>,
    n: int,
) -> Seq<Move>
    decreases n,
{
    if n <= 0 {
        Seq::empty()
    } else {
        quiet_moves(pos, side, kind, from, reach, n - 1) + quiet_at(
            pos,
            side,
            kind,
            from,
            reach,
            n - 1,
        )
    }
}

/// The capture by the piece on `from` on the square `to`, if it is a target
/// and a piece of the opponent stands there; the move names that piece's kind.
pub open spec fn capture_at(pos: Position, side: Sides, from: int, reach: Set<int>, to: int) -> Seq<
    Move,
> {
    if reach.contains(to) && pos.at(to) is Some && pos.at(to).unwrap().0 == side.spec_other() {
        seq![
            Move::Capture(
                Capture { from: square_of(from), to: square_of(to), capture: pos.at(to).unwrap().1 },
            ),
        ]
    } else {
        Seq::empty()
    }
}

/// The captures by the piece on `from` on the squares below `n`.
pub open spec fn capture_moves(pos: Position, side: Sides, from: int, reach: Set<int>, n: int) -> Seq<
    Move,
>
    decreases n,
{
    if n <= 0 {
        Seq::empty()
    } else {
        capture_moves(pos, side, from, reach, n - 1) + capture_at(pos, side, from, reach, n - 1)
    }
}

/// Whether `side` may castle on the given wing as far as move generation
/// goes: it holds the right, and the squares between king and rook are empty.
pub open spec fn castle_eligible(pos: Position, side: Sides, king_side: bool) -> bool {
    pos.rights.holds(side, king_side) && forall|sq: int|
        castle_path(side, king_side).contains(sq) ==> pos.at(sq) is None
}

/// The castling moves of `side`: the king's wing first.
pub open spec fn castle_moves(pos: Position, side: Sides) -> Seq<Move> {
    (if castle_eligible(pos, side, true) {
        seq![Move::Castle(Castle { side, king_side: true })]
    } else {
        Seq::empty()
    }) + (if castle_eligible(pos, side, false) {
        seq![Move::Castle(Castle { side, king_side: false })]
    } else {
        Seq::empty()
    })
}

/// The moves of the piece of `side` and `kind` on `from`; none if no such
/// piece stands there.
pub open spec fn moves_from(pos: Position, side: Sides, kind: Pieces, from: int) -> Seq<Move> {
    if pos.at(from) == Some((side, kind)) {
        let reach = targets(pos, side, kind, from);
        quiet_moves(pos, side, kind, from, reach, 64) + capture_moves(pos, side, from, reach, 64)
            + (if kind == Pieces::King {
            castle_moves(pos, side)
        } else {
            Seq::empty()
        })
    } else {
        Seq::empty()
    }
}

/// The moves of the pieces of `side` and `kind` on the squares below `n`.
pub open spec fn moves_of_kind(pos: Position, side: Sides, kind: Pieces, n: int) -> Seq<Move>
    decreases n,
{
    if n <= 0 {
        Seq::empty()
    } else {
        moves_of_kind(pos, side, kind, n - 1) + moves_from(pos, side, kind, n - 1)
    }
}

/// The moves of the pieces of `side` of the first `n` kinds.
pub open spec fn moves_of_kinds(pos: Position, side: Sides, n: int) -> Seq<Move>
    decreases n,
{
    if n <= 0 {
        Seq::empty()
    } else {
        moves_of_kinds(pos, side, n - 1) + moves_of_kind(
            pos,
            side,
            Pieces::spec_from_index(n - 1),
            64,
        )
    }
}

/// The pseudo-legal moves of `side`, in the order of generation.
pub open spec fn pseudo_legal(pos: Position, side: Sides) -> Seq<Move> {
    moves_of_kinds(pos, side, 6)
}

/// Whether one of the moves takes a king.
pub open spec fn takes_king(moves: Seq<Move>) -> bool {
    exists|i: int| 0 <= i < moves.len() && (#[trigger] moves[i]).spec_capture() == Some(Pieces::King)
}

/// Whether `side` is in check: some pseudo-legal move of the opponent is a
/// capture of a king.
pub open spec fn in_check(pos: Position, side: Sides) -> bool {
    takes_king(pseudo_legal(pos, side.spec_other()))
}

/// Whether `side` may make the move: it can be applied, and afterwards the
/// side's own king is not attacked.
pub open spec fn keeps_king_safe(pos: Position, side: Sides, m: Move) -> bool {
    m.apply_to(pos) is Ok && !in_check(m.apply_to(pos).unwrap(), side)
}

/// [`keeps_king_safe`] as a predicate on moves.
pub open spec fn safe_moves(pos: Position, side: Sides) -> spec_fn(Move) -> bool {
    |m: Move| keeps_king_safe(pos, side, m)
}

/// The legal moves of `side`: its pseudo-legal moves that keep its king
/// safe, in the same order.
pub open spec fn legal(pos: Position, side: Sides) -> Seq<Move> {
    pseudo_legal(pos, side).filter(safe_moves(pos, side))
}

/// Whether `side` is in check and has no legal move.
pub open spec fn checkmated(pos: Position, side: Sides) -> bool {
    in_check(pos, side) && legal(pos, side).len() == 0
}

/// Whether `side` is not in check and has no legal move.
pub open spec fn stalemated(pos: Position, side: Sides) -> bool {
    !in_check(pos, side) && legal(pos, side).len() == 0
}

impl Board {
    /// The squares that the piece of `side` and `kind` on `from` may go to.
    fn targets_of(&self, rays: &Rays, side: Sides, kind: Pieces, from: usize) -> (bb: Bitboard)
        requires
            self.wf(),
            from < 64,
        ensures
            bb@ == targets(self@, side, kind, from as int),
    {
        let occupied = self.occupied();
        let rook: [usize; 4] = [0, 1, 4, 5];
        let bishop: [usize; 4] = [2, 3, 6, 7];
        proof {
            assert(rook@ =~= rook_dirs());
            assert(bishop@ =~= bishop_dirs());
        }
        match kind {
            Pieces::Pawn => {
                let steps = match side {
                    Sides::White => {
                        let deltas: [i8; 2] = [7, 9];
                        assert(deltas@ =~= pawn_capture_deltas(side));
                        step_attacks(from, deltas.as_slice())
                    },
                    Sides::Black => {
                        let deltas: [i8; 2] = [-7, -9];
                        assert(deltas@ =~= pawn_capture_deltas(side));
                        step_attacks(from, deltas.as_slice())
                    },
                };
                let enemy = self.enemy(side);
                let pushes = pawn_moves(from, side, occupied);
                let hits = steps & enemy;
                let bb = hits | pushes;
                proof {
                    lemma_ops(steps, enemy);
                    lemma_ops(hits, pushes);
                }
                bb
            },
            Pieces::Rook => sliding_attacks(rays, from, occupied, rook.as_slice()),
            Pieces::Knight => {
                let deltas: [i8; 8] = [15, 17, 10, 6, -15, -17, -10, -6];
                assert(deltas@ =~= knight_deltas());
                step_attacks(from, deltas.as_slice())
            },
            Pieces::Bishop => sliding_attacks(rays, from, occupied, bishop.as_slice()),
            Pieces::Queen => {
                let straight = sliding_attacks(rays, from, occupied, rook.as_slice());
                let diagonal = sliding_attacks(rays, from, occupied, bishop.as_slice());
                proof {
                    lemma_ops(straight, diagonal);
                }
                straight | diagonal
            },
            Pieces::King => {
                let deltas: [i8; 8] = [1, -1, 8, -8, 7, -7, 9, -9];
                assert(deltas@ =~= king_deltas());
                step_attacks(from, deltas.as_slice())
            },
        }
    }

    /// Appends the moves of the piece on `from` to empty squares.
    fn push_quiets(
        &self,
        side: Sides,
        kind: Pieces,
        from: usize,
        reach: Bitboard,
        moves: &mut Vec<Move>,
    )
        requires
            self.wf(),
            from < 64,
        ensures
            final(moves)@ == old(moves)@ + quiet_moves(self@, side, kind, from as int, reach@, 64),
    {
        let ghost start = moves@;
        let ghost pos = self@;
        let source = Square::from_idx(from);
        let is_pawn = match kind {
            Pieces::Pawn => true,
            _ => false,
        };
        let last_rank: usize = match side {
            Sides::White => 7,
            Sides::Black => 0,
        };
        let mut j: usize = 0;
        assert(moves@ =~= start + quiet_moves(pos, side, kind, from as int, reach@, 0));
        while j < 64
            invariant
                j <= 64,
                from < 64,
                self.wf(),
                pos == self@,
                source == square_of(from as int),
                is_pawn == (kind == Pieces::Pawn),
                last_rank == promotion_rank(side),
                moves@ == start + quiet_moves(pos, side, kind, from as int, reach@, j as int),
            decreases 64 - j,
        {
            let ghost before = moves@;
            let target = Square::from_idx(j);
            if reach.contains(j) && self.piece_at(target).is_none() {
                if is_pawn && j / 8 == last_rank {
                    moves.push(Move::Promotion(Promotion::new(source, target, Pieces::Rook)));
                    moves.push(Move::Promotion(Promotion::new(source, target, Pieces::Knight)));
                    moves.push(Move::Promotion(Promotion::new(source, target, Pieces::Bishop)));
                    moves.push(Move::Promotion(Promotion::new(source, target, Pieces::Queen)));
                } else {
                    moves.push(Move::Basic(BasicMove::new(source, target)));
                }
            }
            proof {
                let here = quiet_at(pos, side, kind, from as int, reach@, j as int);
                assert(moves@ =~= before + here);
                assert(moves@ =~= start + (quiet_moves(pos, side, kind, from as int, reach@, j as int)
                    + here));
            }
            j = j + 1;
        }
    }

    /// Appends the captures by the piece on `from`.
    fn push_captures(&self, side: Sides, from: usize, reach: Bitboard, moves: &mut Vec<Move>)
        requires
            self.wf(),
            from < 64,
        ensures
            final(moves)@ == old(moves)@ + capture_moves(self@, side, from as int, reach@, 64),
    {
        let ghost start = moves@;
        let ghost pos = self@;
        let source = Square::from_idx(from);
        let enemy = self.enemy(side);
        let captures = reach & enemy;
        proof {
            lemma_ops(reach, enemy);
        }
        let mut j: usize = 0;
        assert(moves@ =~= start + capture_moves(pos, side, from as int, reach@, 0));
        while j < 64
            invariant
                j <= 64,
                from < 64,
                self.wf(),
                pos == self@,
                source == square_of(from as int),
                captures@ == reach@.intersect(pos.side_squares(side.spec_other())),
                moves@ == start + capture_moves(pos, side, from as int, reach@, j as int),
            decreases 64 - j,
        {
            let ghost before = moves@;
            let target = Square::from_idx(j);
            if captures.contains(j) {
                let taken = self.get_piece(target);
                moves.push(Move::Capture(Capture::new(source, target, taken)));
            }
            proof {
                let here = capture_at(pos, side, from as int, reach@, j as int);
                assert(moves@ =~= before + here);
                assert(moves@ =~= start + (capture_moves(pos, side, from as int, reach@, j as int)
                    + here));
            }
            j = j + 1;
        }
    }

    /// Appends the castling moves of `side`.
    fn push_castles(&self, side: Sides, moves: &mut Vec<Move>)
        requires
            self.wf(),
        ensures
            final(moves)@ == old(moves)@ + castle_moves(self@, side),
    {
        let ghost start = moves@;
        if self.move_rights.allows(side, true) && self.castle_path_free(side, true) {
            moves.push(Move::Castle(Castle::new(side, true)));
        }
        let ghost mid = moves@;
        if self.move_rights.allows(side, false) && self.castle_path_free(side, false) {
            moves.push(Move::Castle(Castle::new(side, false)));
        }
        proof {
            let first = if castle_eligible(self@, side, true) {
                seq![Move::Castle(Castle { side, king_side: true })]
            } else {
                Seq::empty()
            };
            let second = if castle_eligible(self@, side, false) {
                seq![Move::Castle(Castle { side, king_side: false })]
            } else {
                Seq::empty()
            };
            assert(mid =~= start + first);
            assert(moves@ =~= mid + second);
            assert(moves@ =~= start + (first + second));
        }
    }

    /// Appends the moves of the piece of `side` and `kind` on `from`.
    fn push_moves_from(
        &self,
        rays: &Rays,
        side: Sides,
        kind: Pieces,
        from: usize,
        moves: &mut Vec<Move>,
    )
        requires
            self.wf(),
            from < 64,
            self@.at(from as int) == Some((side, kind)),
        ensures
            final(moves)@ == old(moves)@ + moves_from(self@, side, kind, from as int),
    {
        let ghost start = moves@;
        let reach = self.targets_of(rays, side, kind, from);
        self.push_quiets(side, kind, from, reach, moves);
        let ghost one = moves@;
        self.push_captures(side, from, reach, moves);
        let ghost two = moves@;
        match kind {
            Pieces::King => {
                self.push_castles(side, moves);
            },
            _ => {},
        }
        proof {
            let pos = self@;
            let q = quiet_moves(pos, side, kind, from as int, reach@, 64);
            let c = capture_moves(pos, side, from as int, reach@, 64);
            let k = if kind == Pieces::King {
                castle_moves(pos, side)
            } else {
                Seq::empty()
            };
            assert(one == start + q);
            assert(two == one + c);
            assert(moves@ =~= two + k);
            assert(moves@ =~= start + (q + c + k));
        }
    }

    /// The pseudo-legal moves of `side`: what its pieces may do by their way
    /// of moving, whether or not the side's king is attacked afterwards.
    pub fn pseudo_legal_moves(&self, rays: &Rays, side_to_move: Sides) -> (moves: Vec<Move>)
        requires
            self.wf(),
        ensures
            moves@ == pseudo_legal(self@, side_to_move),
    {
        let mut moves: Vec<Move> = Vec::new();
        let ghost pos = self@;
        let s = side_to_move.index();
        let mut k: usize = 0;
        assert(moves@ =~= moves_of_kinds(pos, side_to_move, 0));
        while k < PIECES_COUNT
            invariant
                k <= PIECES_COUNT,
                self.wf(),
                pos == self@,
                s == side_to_move.spec_index(),
                moves@ == moves_of_kinds(pos, side_to_move, k as int),
            decreases PIECES_COUNT - k,
        {
            let kind = Pieces::from_index(k);
            let ghost done = moves@;
            let mut i: usize = 0;
            assert(moves@ =~= done + moves_of_kind(pos, side_to_move, kind, 0));
            while i < 64
                invariant
                    i <= 64,
                    k < PIECES_COUNT,
                    self.wf(),
                    pos == self@,
                    s == side_to_move.spec_index(),
                    kind == Pieces::spec_from_index(k as int),
                    kind.spec_index() == k,
                    moves@ == done + moves_of_kind(pos, side_to_move, kind, i as int),
                decreases 64 - i,
            {
                let ghost before = moves@;
                proof {
                    assert(self.bb(side_to_move, kind)@.contains(i as int) <==> self.cell(i as int)
                        == Some((side_to_move, kind)));
                }
                if self.pieces[s][k].contains(i) {
                    self.push_moves_from(rays, side_to_move, kind, i, &mut moves);
                }
                proof {
                    let here = moves_from(pos, side_to_move, kind, i as int);
                    assert(moves@ =~= before + here);
                    assert(moves@ =~= done + (moves_of_kind(pos, side_to_move, kind, i as int)
                        + here));
                }
                i = i + 1;
            }
            k = k + 1;
        }
        moves
    }

    /// Whether `side` is in check.
    pub fn is_check(&self, rays: &Rays, side: Sides) -> (r: bool)
        requires
            self.wf(),
        ensures
            r == in_check(self@, side),
    {
        let moves = self.pseudo_legal_moves(rays, side.other());
        let mut i: usize = 0;
        while i < moves.len()
            invariant
                i <= moves.len(),
                moves@ == pseudo_legal(self@, side.spec_other()),
                forall|j: int| 0 <= j < i ==> (#[trigger] moves@[j]).spec_capture() != Some(Pieces::King),
            decreases moves.len() - i,
        {
            match moves[i].capture() {
                Some(Pieces::King) => {
                    return true;
                },
                _ => {},
            }
            i = i + 1;
        }
        false
    }

    /// The legal moves of `side`. Each candidate is tried on a copy of the
    /// board.
    pub fn legal_moves(&self, rays: &Rays, side_to_move: Sides) -> (moves: Vec<Move>)
        requires
            self.wf(),
        ensures
            moves@ == legal(self@, side_to_move),
    {
        let candidates = self.pseudo_legal_moves(rays, side_to_move);
        let mut moves: Vec<Move> = Vec::new();
        let ghost pos = self@;
        let ghost keep = safe_moves(pos, side_to_move);
        let mut i: usize = 0;
        assert(candidates@.take(0) =~= Seq::<Move>::empty());
        while i < candidates.len()
            invariant
                i <= candidates.len(),
                self.wf(),
                pos == self@,
                keep == safe_moves(pos, side_to_move),
                candidates@ == pseudo_legal(pos, side_to_move),
                moves@ == candidates@.take(i as int).filter(keep),
            decreases candidates.len() - i,
        {
            let m = candidates[i];
            let mut copy = *self;
            let safe = match m.apply(&mut copy) {
                Ok(()) => !copy.is_check(rays, side_to_move),
                Err(_) => false,
            };
            proof {
                assert(safe == keep(m));
                candidates@.lemma_take_succ_push(i as int);
                candidates@.take(i as int).lemma_filter_push(m, keep);
            }
            if safe {
                moves.push(m);
            }
            i = i + 1;
        }
        proof {
            assert(candidates@.take(candidates.len() as int) =~= candidates@);
        }
        moves
    }

    /// Whether `side` is in check and has no legal move.
    pub fn is_checkmate(&self, rays: &Rays, side: Sides) -> (r: bool)
        requires
            self.wf(),
        ensures
            r == checkmated(self@, side),
    {
        self.is_check(rays, side) && self.legal_moves(rays, side).len() == 0
    }

    /// Whether `side` is not in check and has no legal move.
    pub fn is_stalemate(&self, rays: &Rays, side: Sides) -> (r: bool)
        requires
            self.wf(),
        ensures
            r == stalemated(self@, side),
    {
        !self.is_check(rays, side) && self.legal_moves(rays, side).len() == 0
    }
}

} // verus!
