//! What the list of pseudo-legal moves holds, said without the order in
//! which it is made: a move is in the list exactly when it is
//! [`generated`]. From this follow that every listed move but a castle can
//! be applied, and that check means an attack on a king.

use vstd::prelude::*;
use crate::movegen::{
    capture_at,
    capture_moves,
    castle_eligible,
    castle_moves,
    in_check,
    moves_from,
    moves_of_kind,
    moves_of_kinds,
    promotion_rank,
    pseudo_legal,
    quiet_at,
    quiet_moves,
    square_of,
    takes_king,
    targets,
};
use crate::moves::{king_home, rook_home, BasicMove, Capture, Castle, Move, Promotion};
use crate::pieces::{Pieces, Sides};
use crate::position::Position;

verus! {

/// Whether `m` is a pseudo-legal move of `side` in `pos`.
///
/// A move to an empty square or a capture starts on a square of the board
/// where a piece of `side` stands and ends on one of its targets; the
/// target is empty, or holds the piece of the opponent that the capture
/// names. A pawn that reaches its promotion rank on an empty square is
/// promoted, to rook, knight, bishop or queen, and makes no plain move
/// there. A castle is of `side`, which has a king, holds the right and
/// finds the squares between king and rook empty.
pub open spec fn generated(pos: Position, side: Sides, m: Move) -> bool {
    match m {
        Move::Basic(b) => {
            let from = b.from.spec_idx();
            let to = b.to.spec_idx();
            &&& b.from.wf() && b.to.wf()
            &&& pos.at(from) is Some && pos.at(from).unwrap().0 == side
            &&& targets(pos, side, pos.at(from).unwrap().1, from).contains(to)
            &&& pos.at(to) is None
            &&& !(pos.at(from).unwrap().1 == Pieces::Pawn && to / 8 == promotion_rank(side))
        },
        Move::Promotion(p) => {
            let from = p.from.spec_idx();
            let to = p.to.spec_idx();
            &&& p.from.wf() && p.to.wf()
            &&& pos.at(from) == Some((side, Pieces::Pawn))
            &&& targets(pos, side, Pieces::Pawn, from).contains(to)
            &&& pos.at(to) is None
            &&& to / 8 == promotion_rank(side)
            &&& p.piece.promotable()
        },
        Move::Capture(c) => {
            let from = c.from.spec_idx();
            let to = c.to.spec_idx();
            &&& c.from.wf() && c.to.wf()
            &&& pos.at(from) is Some && pos.at(from).unwrap().0 == side
            &&& targets(pos, side, pos.at(from).unwrap().1, from).contains(to)
            &&& pos.at(to) == Some((side.spec_other(), c.capture))
        },
        Move::Castle(c) => {
            &&& c.side == side
            &&& castle_eligible(pos, side, c.king_side)
            &&& exists|sq: int| 0 <= sq < 64 && #[trigger] pos.at(sq) == Some((side, Pieces::King))
        },
    }
}

proof fn lemma_concat_contains<A>(a: Seq<A>, b: Seq<A>, x: A)
    ensures
        (a + b).contains(x) <==> a.contains(x) || b.contains(x),
{
    if a.contains(x) {
        let i = choose|i: int| 0 <= i < a.len() && a[i] == x;
        assert((a + b)[i] == x);
    }
    if b.contains(x) {
        let i = choose|i: int| 0 <= i < b.len() && b[i] == x;
        assert((a + b)[a.len() + i] == x);
    }
    if (a + b).contains(x) {
        let i = choose|i: int| 0 <= i < (a + b).len() && (a + b)[i] == x;
        if i < a.len() {
            assert(a[i] == x);
        } else {
            assert(b[i - a.len()] == x);
        }
    }
}

proof fn lemma_square_of(i: int)
    requires
        0 <= i < 64,
    ensures
        square_of(i).wf(),
        square_of(i).spec_idx() == i,
{
}

proof fn lemma_square_of_idx(s: crate::square::Square)
    requires
        s.wf(),
    ensures
        square_of(s.spec_idx()) == s,
        0 <= s.spec_idx() < 64,
{
}

/// Whether the moves made for the target `to` hold `m`.
spec fn in_quiet_at(
    pos: Position,
    side: Sides,
    kind: Pieces,
    from: int,
    reach: Set<int>,
    to: int,
    m: Move,
) -> bool {
    quiet_at(pos, side, kind, from, reach, to).contains(m)
}

/// Whether the capture made for the target `to` is `m`.
spec fn in_capture_at(pos: Position, side: Sides, from: int, reach: Set<int>, to: int, m: Move) -> bool {
    capture_at(pos, side, from, reach, to).contains(m)
}

/// Whether the moves made for the piece on `from` hold `m`.
spec fn in_moves_from(pos: Position, side: Sides, kind: Pieces, from: int, m: Move) -> bool {
    moves_from(pos, side, kind, from).contains(m)
}

/// Whether the moves made for the kind with index `k` hold `m`.
spec fn in_moves_of_kind(pos: Position, side: Sides, k: int, m: Move) -> bool {
    moves_of_kind(pos, side, Pieces::spec_from_index(k), 64).contains(m)
}

proof fn lemma_in_quiet_moves(
    pos: Position,
    side: Sides,
    kind: Pieces,
    from: int,
    reach: Set<int>,
    n: int,
    m: Move,
)
    ensures
        quiet_moves(pos, side, kind, from, reach, n).contains(m) <==> exists|to: int|
            0 <= to < n && #[trigger] in_quiet_at(pos, side, kind, from, reach, to, m),
    decreases n,
{
    if n > 0 {
        lemma_in_quiet_moves(pos, side, kind, from, reach, n - 1, m);
        lemma_concat_contains(
            quiet_moves(pos, side, kind, from, reach, n - 1),
            quiet_at(pos, side, kind, from, reach, n - 1),
            m,
        );
        if in_quiet_at(pos, side, kind, from, reach, n - 1, m) {
        }
    }
}

proof fn lemma_in_capture_moves(
    pos: Position,
    side: Sides,
    from: int,
    reach: Set<int>,
    n: int,
    m: Move,
)
    ensures
        capture_moves(pos, side, from, reach, n).contains(m) <==> exists|to: int|
            0 <= to < n && #[trigger] in_capture_at(pos, side, from, reach, to, m),
    decreases n,
{
    if n > 0 {
        lemma_in_capture_moves(pos, side, from, reach, n - 1, m);
        lemma_concat_contains(
            capture_moves(pos, side, from, reach, n - 1),
            capture_at(pos, side, from, reach, n - 1),
            m,
        );
        if in_capture_at(pos, side, from, reach, n - 1, m) {
        }
    }
}

proof fn lemma_in_moves_of_kind(pos: Position, side: Sides, kind: Pieces, n: int, m: Move)
    ensures
        moves_of_kind(pos, side, kind, n).contains(m) <==> exists|from: int|
            0 <= from < n && #[trigger] in_moves_from(pos, side, kind, from, m),
    decreases n,
{
    if n > 0 {
        lemma_in_moves_of_kind(pos, side, kind, n - 1, m);
        lemma_concat_contains(
            moves_of_kind(pos, side, kind, n - 1),
            moves_from(pos, side, kind, n - 1),
            m,
        );
        if in_moves_from(pos, side, kind, n - 1, m) {
        }
    }
}

proof fn lemma_in_moves_of_kinds(pos: Position, side: Sides, n: int, m: Move)
    ensures
        moves_of_kinds(pos, side, n).contains(m) <==> exists|k: int|
            0 <= k < n && #[trigger] in_moves_of_kind(pos, side, k, m),
    decreases n,
{
    if n > 0 {
        lemma_in_moves_of_kinds(pos, side, n - 1, m);
        lemma_concat_contains(
            moves_of_kinds(pos, side, n - 1),
            moves_of_kind(pos, side, Pieces::spec_from_index(n - 1), 64),
            m,
        );
        if in_moves_of_kind(pos, side, n - 1, m) {
        }
    }
}

/// What the moves made for one target hold.
proof fn lemma_quiet_at(
    pos: Position,
    side: Sides,
    kind: Pieces,
    from: int,
    reach: Set<int>,
    to: int,
    m: Move,
)
    ensures
        in_quiet_at(pos, side, kind, from, reach, to, m) <==> {
            &&& reach.contains(to)
            &&& pos.at(to) is None
            &&& if kind == Pieces::Pawn && to / 8 == promotion_rank(side) {
                &&& m is Promotion
                &&& m->Promotion_0.from == square_of(from)
                &&& m->Promotion_0.to == square_of(to)
                &&& m->Promotion_0.piece.promotable()
            } else {
                m == Move::Basic(BasicMove { from: square_of(from), to: square_of(to) })
            }
        },
{
    let s = quiet_at(pos, side, kind, from, reach, to);
    if reach.contains(to) && pos.at(to) is None {
        if kind == Pieces::Pawn && to / 8 == promotion_rank(side) {
            let f = square_of(from);
            let t = square_of(to);
            assert(s[0] == Move::Promotion(Promotion { from: f, to: t, piece: Pieces::Rook }));
            assert(s[1] == Move::Promotion(Promotion { from: f, to: t, piece: Pieces::Knight }));
            assert(s[2] == Move::Promotion(Promotion { from: f, to: t, piece: Pieces::Bishop }));
            assert(s[3] == Move::Promotion(Promotion { from: f, to: t, piece: Pieces::Queen }));
            assert(s.len() == 4);
        } else {
            assert(s[0] == Move::Basic(BasicMove { from: square_of(from), to: square_of(to) }));
            assert(s.len() == 1);
        }
    } else {
        assert(s.len() == 0);
    }
}

/// What the capture made for one target is.
proof fn lemma_capture_at(pos: Position, side: Sides, from: int, reach: Set<int>, to: int, m: Move)
    ensures
        in_capture_at(pos, side, from, reach, to, m) <==> {
            &&& reach.contains(to)
            &&& pos.at(to) is Some
            &&& pos.at(to).unwrap().0 == side.spec_other()
            &&& m == Move::Capture(
                Capture { from: square_of(from), to: square_of(to), capture: pos.at(to).unwrap().1 },
            )
        },
{
    let s = capture_at(pos, side, from, reach, to);
    if reach.contains(to) && pos.at(to) is Some && pos.at(to).unwrap().0 == side.spec_other() {
        assert(s[0] == Move::Capture(
            Capture { from: square_of(from), to: square_of(to), capture: pos.at(to).unwrap().1 },
        ));
        assert(s.len() == 1);
    } else {
        assert(s.len() == 0);
    }
}

/// What the castling moves hold.
proof fn lemma_castle_moves(pos: Position, side: Sides, m: Move)
    ensures
        castle_moves(pos, side).contains(m) <==> m is Castle && m->Castle_0.side == side
            && castle_eligible(pos, side, m->Castle_0.king_side),
{
    let first: Seq<Move> = if castle_eligible(pos, side, true) {
        seq![Move::Castle(Castle { side, king_side: true })]
    } else {
        Seq::empty()
    };
    let second: Seq<Move> = if castle_eligible(pos, side, false) {
        seq![Move::Castle(Castle { side, king_side: false })]
    } else {
        Seq::empty()
    };
    lemma_concat_contains(first, second, m);
    if castle_eligible(pos, side, true) {
        assert(first[0] == Move::Castle(Castle { side, king_side: true }));
    }
    if castle_eligible(pos, side, false) {
        assert(second[0] == Move::Castle(Castle { side, king_side: false }));
    }
}

/// What the moves made for the piece on one square hold.
proof fn lemma_moves_from(pos: Position, side: Sides, kind: Pieces, from: int, m: Move)
    requires
        0 <= from < 64,
    ensures
        in_moves_from(pos, side, kind, from, m) <==> {
            &&& pos.at(from) == Some((side, kind))
            &&& generated(pos, side, m)
            &&& match m {
                Move::Basic(b) => b.from == square_of(from),
                Move::Capture(c) => c.from == square_of(from),
                Move::Promotion(p) => p.from == square_of(from),
                Move::Castle(_) => kind == Pieces::King,
            }
        },
{
    lemma_square_of(from);
    if pos.at(from) == Some((side, kind)) {
        let reach = targets(pos, side, kind, from);
        let q = quiet_moves(pos, side, kind, from, reach, 64);
        let c = capture_moves(pos, side, from, reach, 64);
        let k = if kind == Pieces::King {
            castle_moves(pos, side)
        } else {
            Seq::empty()
        };
        lemma_concat_contains(q, c, m);
        lemma_concat_contains(q + c, k, m);
        lemma_in_quiet_moves(pos, side, kind, from, reach, 64, m);
        lemma_in_capture_moves(pos, side, from, reach, 64, m);
        lemma_castle_moves(pos, side, m);
        assert forall|to: int| 0 <= to < 64 implies square_of(to).wf() && #[trigger] square_of(
            to,
        ).spec_idx() == to by {
            lemma_square_of(to);
        }
        assert forall|to: int| #![trigger in_quiet_at(pos, side, kind, from, reach, to, m)]
            in_quiet_at(pos, side, kind, from, reach, to, m) <==> {
                &&& reach.contains(to)
                &&& pos.at(to) is None
                &&& if kind == Pieces::Pawn && to / 8 == promotion_rank(side) {
                    &&& m is Promotion
                    &&& m->Promotion_0.from == square_of(from)
                    &&& m->Promotion_0.to == square_of(to)
                    &&& m->Promotion_0.piece.promotable()
                } else {
                    m == Move::Basic(BasicMove { from: square_of(from), to: square_of(to) })
                }
            } by {
            lemma_quiet_at(pos, side, kind, from, reach, to, m);
        }
        assert forall|to: int| #![trigger in_capture_at(pos, side, from, reach, to, m)]
            in_capture_at(pos, side, from, reach, to, m) <==> {
                &&& reach.contains(to)
                &&& pos.at(to) is Some
                &&& pos.at(to).unwrap().0 == side.spec_other()
                &&& m == Move::Capture(
                    Capture {
                        from: square_of(from),
                        to: square_of(to),
                        capture: pos.at(to).unwrap().1,
                    },
                )
            } by {
            lemma_capture_at(pos, side, from, reach, to, m);
        }
        match m {
            Move::Basic(b) => {
                if b.from == square_of(from) && generated(pos, side, m) {
                    lemma_square_of_idx(b.to);
                    let to = b.to.spec_idx();
                    assert(in_quiet_at(pos, side, kind, from, reach, to, m));
                }
            },
            Move::Promotion(p) => {
                if p.from == square_of(from) && generated(pos, side, m) {
                    lemma_square_of_idx(p.to);
                    let to = p.to.spec_idx();
                    assert(in_quiet_at(pos, side, kind, from, reach, to, m));
                }
            },
            Move::Capture(c) => {
                if c.from == square_of(from) && generated(pos, side, m) {
                    lemma_square_of_idx(c.to);
                    let to = c.to.spec_idx();
                    assert(in_capture_at(pos, side, from, reach, to, m));
                }
            },
            Move::Castle(c) => {
                if kind == Pieces::King {
                    assert(pos.at(from) == Some((side, Pieces::King)));
                }
            },
        }
    } else {
        assert(moves_from(pos, side, kind, from).len() == 0);
    }
}

/// The list of pseudo-legal moves holds exactly the moves that are
/// [`generated`].
pub proof fn lemma_pseudo_legal_is_generated(pos: Position, side: Sides, m: Move)
    ensures
        pseudo_legal(pos, side).contains(m) <==> generated(pos, side, m),
{
    lemma_in_moves_of_kinds(pos, side, 6, m);
    assert forall|k: int| 0 <= k < 6 implies (#[trigger] in_moves_of_kind(pos, side, k, m)
        <==> exists|from: int|
        0 <= from < 64 && #[trigger] in_moves_from(pos, side, Pieces::spec_from_index(k), from, m)) by {
        lemma_in_moves_of_kind(pos, side, Pieces::spec_from_index(k), 64, m);
    }
    assert forall|k: int, from: int| 0 <= k < 6 && 0 <= from < 64 implies (#[trigger] in_moves_from(
        pos,
        side,
        Pieces::spec_from_index(k),
        from,
        m,
    ) <==> {
        &&& pos.at(from) == Some((side, Pieces::spec_from_index(k)))
        &&& generated(pos, side, m)
        &&& match m {
            Move::Basic(b) => b.from == square_of(from),
            Move::Capture(c) => c.from == square_of(from),
            Move::Promotion(p) => p.from == square_of(from),
            Move::Castle(_) => Pieces::spec_from_index(k) == Pieces::King,
        }
    }) by {
        lemma_moves_from(pos, side, Pieces::spec_from_index(k), from, m);
    }
    if generated(pos, side, m) {
        let from = match m {
            Move::Basic(b) => b.from.spec_idx(),
            Move::Capture(c) => c.from.spec_idx(),
            Move::Promotion(p) => p.from.spec_idx(),
            Move::Castle(_) => choose|sq: int|
                0 <= sq < 64 && #[trigger] pos.at(sq) == Some((side, Pieces::King)),
        };
        match m {
            Move::Basic(b) => {
                lemma_square_of_idx(b.from);
            },
            Move::Capture(c) => {
                lemma_square_of_idx(c.from);
            },
            Move::Promotion(p) => {
                lemma_square_of_idx(p.from);
            },
            Move::Castle(_) => {},
        }
        let kind = pos.at(from).unwrap().1;
        let k = kind.spec_index();
        assert(Pieces::spec_from_index(k) == kind);
        assert(in_moves_from(pos, side, Pieces::spec_from_index(k), from, m));
        assert(in_moves_of_kind(pos, side, k, m));
    }
}

/// Every pseudo-legal move other than a castle can be applied. A
/// pseudo-legal castle can be applied exactly when king and rook stand on
/// their home squares.
pub proof fn lemma_pseudo_legal_applies(pos: Position, side: Sides, m: Move)
    requires
        pseudo_legal(pos, side).contains(m),
    ensures
        m !is Castle ==> m.apply_to(pos) is Ok,
        m matches Move::Castle(c) ==> (m.apply_to(pos) is Ok <==> pos.at(king_home(side)) == Some(
            (side, Pieces::King),
        ) && pos.at(rook_home(side, c.king_side)) == Some((side, Pieces::Rook))),
{
    lemma_pseudo_legal_is_generated(pos, side, m);
}

/// A side is in check exactly when a piece of the opponent has a king of
/// the side among its targets.
pub proof fn lemma_check_is_attack(pos: Position, side: Sides)
    ensures
        in_check(pos, side) <==> exists|from: int, to: int|
            {
                &&& 0 <= from < 64 && 0 <= to < 64
                &&& pos.at(from) is Some && pos.at(from).unwrap().0 == side.spec_other()
                &&& pos.at(to) == Some((side, Pieces::King))
                &&& #[trigger] targets(pos, side.spec_other(), pos.at(from).unwrap().1, from).contains(
                    to,
                )
            },
{
    let foe = side.spec_other();
    let moves = pseudo_legal(pos, foe);
    if in_check(pos, side) {
        let i = choose|i: int|
            0 <= i < moves.len() && (#[trigger] moves[i]).spec_capture() == Some(Pieces::King);
        let m = moves[i];
        assert(moves.contains(m));
        lemma_pseudo_legal_is_generated(pos, foe, m);
        let c = m->Capture_0;
        lemma_square_of_idx(c.from);
        lemma_square_of_idx(c.to);
        let from = c.from.spec_idx();
        let to = c.to.spec_idx();
        assert(targets(pos, foe, pos.at(from).unwrap().1, from).contains(to));
    }
    if exists|from: int, to: int|
        {
            &&& 0 <= from < 64 && 0 <= to < 64
            &&& pos.at(from) is Some && pos.at(from).unwrap().0 == foe
            &&& pos.at(to) == Some((side, Pieces::King))
            &&& #[trigger] targets(pos, foe, pos.at(from).unwrap().1, from).contains(to)
        } {
        let (from, to) = choose|from: int, to: int|
            {
                &&& 0 <= from < 64 && 0 <= to < 64
                &&& pos.at(from) is Some && pos.at(from).unwrap().0 == foe
                &&& pos.at(to) == Some((side, Pieces::King))
                &&& #[trigger] targets(pos, foe, pos.at(from).unwrap().1, from).contains(to)
            };
        lemma_square_of(from);
        lemma_square_of(to);
        let m = Move::Capture(
            Capture { from: square_of(from), to: square_of(to), capture: Pieces::King },
        );
        assert(generated(pos, foe, m));
        lemma_pseudo_legal_is_generated(pos, foe, m);
        let i = choose|i: int| 0 <= i < moves.len() && moves[i] == m;
        assert(moves[i].spec_capture() == Some(Pieces::King));
    }
}

} // verus!
