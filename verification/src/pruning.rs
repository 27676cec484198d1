//! Why pruning is safe: the search with alpha-beta pruning over the full
//! window returns the score and the move of plain minimax.

use vstd::prelude::*;
use crate::bot::{
    after,
    better,
    evaluation,
    lemma_evaluation_bounds,
    seeker,
    minimax,
    pruned,
    pruned_scan,
    scan,
    worst,
    Scan,
};
use crate::movegen::legal;
use crate::moves::Move;
use crate::pieces::Sides;
use crate::position::Position;

verus! {

/// The score of minimax is a value of `i32`.
pub proof fn lemma_minimax_range(pos: Position, depth: nat, side: Sides, maximizing: bool)
    ensures
        i32::MIN <= minimax(pos, depth, side, maximizing).0 <= i32::MAX,
    decreases depth, legal(pos, side).len() + 1,
{
    if depth == 0 {
        lemma_evaluation_bounds(pos, seeker(side, maximizing));
    } else {
        lemma_scan_range(pos, depth, side, maximizing, legal(pos, side), legal(pos, side).len());
    }
}

/// The best score of a scan is a value of `i32`.
proof fn lemma_scan_range(
    pos: Position,
    depth: nat,
    side: Sides,
    maximizing: bool,
    moves: Seq<Move>,
    n: nat,
)
    ensures
        i32::MIN <= scan(pos, depth, side, maximizing, moves, n).0 <= i32::MAX,
    decreases depth, n,
{
    if n == 0 || depth == 0 {
    } else {
        lemma_scan_range(pos, depth, side, maximizing, moves, (n - 1) as nat);
        lemma_minimax_range(
            after(pos, moves[n - 1]),
            (depth - 1) as nat,
            side.spec_other(),
            !maximizing,
        );
    }
}

/// How the score `r` of a pruned search within the window from `alpha` to
/// `beta` relates to the score `v` of minimax: inside the window they are
/// equal; where `v` lies at or below the window, `r` lies between `v` and
/// `alpha`; where `v` lies at or above it, `r` lies between `beta` and `v`.
pub open spec fn within(v: int, r: int, alpha: int, beta: int) -> bool {
    &&& v <= alpha ==> v <= r <= alpha
    &&& alpha < v < beta ==> r == v
    &&& v >= beta ==> beta <= r <= v
}

/// What holds of a pruned scan `s` that started with the window from
/// `alpha` to `beta`, where `m` is the best score of the plain scan of the
/// same moves.
spec fn scan_within(maximizing: bool, alpha: int, beta: int, m: int, s: Scan) -> bool {
    if maximizing {
        if s.cut {
            beta <= s.best <= m
        } else {
            &&& s.beta == beta
            &&& s.alpha < beta
            &&& s.alpha == if s.best > alpha {
                s.best
            } else {
                alpha
            }
            &&& m > alpha ==> s.best == m
            &&& m <= alpha ==> m <= s.best <= alpha
        }
    } else {
        if s.cut {
            m <= s.best <= alpha
        } else {
            &&& s.alpha == alpha
            &&& alpha < s.beta
            &&& s.beta == if s.best < beta {
                s.best
            } else {
                beta
            }
            &&& m < beta ==> s.best == m
            &&& m >= beta ==> beta <= s.best <= m
        }
    }
}

/// The score of the pruned search lies to the score of minimax as
/// [`within`] says, for every window that is not empty.
pub proof fn lemma_pruned_within(
    pos: Position,
    depth: nat,
    side: Sides,
    maximizing: bool,
    alpha: int,
    beta: int,
)
    requires
        i32::MIN <= alpha < beta <= i32::MAX,
    ensures
        within(
            minimax(pos, depth, side, maximizing).0,
            pruned(pos, depth, side, maximizing, alpha, beta).0,
            alpha,
            beta,
        ),
    decreases depth, legal(pos, side).len() + 1,
{
    if depth > 0 {
        lemma_scan_within(
            pos,
            depth,
            side,
            maximizing,
            legal(pos, side),
            legal(pos, side).len(),
            alpha,
            beta,
        );
    }
}

proof fn lemma_scan_within(
    pos: Position,
    depth: nat,
    side: Sides,
    maximizing: bool,
    moves: Seq<Move>,
    n: nat,
    alpha: int,
    beta: int,
)
    requires
        i32::MIN <= alpha < beta <= i32::MAX,
        depth > 0,
    ensures
        scan_within(
            maximizing,
            alpha,
            beta,
            scan(pos, depth, side, maximizing, moves, n).0,
            pruned_scan(pos, depth, side, maximizing, moves, n, alpha, beta),
        ),
    decreases depth, n,
{
    if n > 0 {
        let prev = pruned_scan(pos, depth, side, maximizing, moves, (n - 1) as nat, alpha, beta);
        lemma_scan_within(pos, depth, side, maximizing, moves, (n - 1) as nat, alpha, beta);
        let plain = scan(pos, depth, side, maximizing, moves, (n - 1) as nat).0;
        let child = after(pos, moves[n - 1]);
        let v = minimax(child, (depth - 1) as nat, side.spec_other(), !maximizing).0;
        let now = pruned_scan(pos, depth, side, maximizing, moves, n, alpha, beta);
        let m = scan(pos, depth, side, maximizing, moves, n).0;
        assert(m == if better(maximizing, v, plain) {
            v
        } else {
            plain
        });
        if !prev.cut {
            lemma_pruned_within(
                child,
                (depth - 1) as nat,
                side.spec_other(),
                !maximizing,
                prev.alpha,
                prev.beta,
            );
            let r = pruned(
                child,
                (depth - 1) as nat,
                side.spec_other(),
                !maximizing,
                prev.alpha,
                prev.beta,
            ).0;
            assert(within(v, r, prev.alpha, prev.beta));
            lemma_step_within(maximizing, alpha, beta, plain, prev, v, r, m, now);
        } else {
            assert(now == prev);
        }
    }
}

/// One step of the pruned scan keeps what [`scan_within`] says.
proof fn lemma_step_within(
    maximizing: bool,
    alpha: int,
    beta: int,
    plain: int,
    prev: Scan,
    v: int,
    r: int,
    m: int,
    now: Scan,
)
    requires
        i32::MIN <= alpha < beta <= i32::MAX,
        !prev.cut,
        scan_within(maximizing, alpha, beta, plain, prev),
        within(v, r, prev.alpha, prev.beta),
        m == if better(maximizing, v, plain) {
            v
        } else {
            plain
        },
        now.best == if better(maximizing, r, prev.best) {
            r
        } else {
            prev.best
        },
        now.alpha == if maximizing && r > prev.alpha {
            r
        } else {
            prev.alpha
        },
        now.beta == if !maximizing && r < prev.beta {
            r
        } else {
            prev.beta
        },
        now.cut == (now.beta <= now.alpha),
    ensures
        scan_within(maximizing, alpha, beta, m, now),
{
}

/// What holds of a pruned scan `s` over the full window, where `u` is the
/// outcome of the plain scan of the same moves.
spec fn scan_agrees(maximizing: bool, u: (int, Option<Move>), s: Scan) -> bool {
    &&& s.best == u.0
    &&& s.mv == u.1
    &&& if maximizing {
        &&& s.beta == i32::MAX
        &&& s.alpha == s.best
        &&& s.cut ==> s.best == i32::MAX
        &&& !s.cut ==> s.best < i32::MAX
    } else {
        &&& s.alpha == i32::MIN
        &&& s.beta == s.best
        &&& s.cut ==> s.best == i32::MIN
        &&& !s.cut ==> s.best > i32::MIN
    }
}

proof fn lemma_scan_agrees(
    pos: Position,
    depth: nat,
    side: Sides,
    maximizing: bool,
    moves: Seq<Move>,
    n: nat,
)
    requires
        depth > 0,
    ensures
        scan_agrees(
            maximizing,
            scan(pos, depth, side, maximizing, moves, n),
            pruned_scan(
                pos,
                depth,
                side,
                maximizing,
                moves,
                n,
                i32::MIN as int,
                i32::MAX as int,
            ),
        ),
    decreases n,
{
    if n > 0 {
        let prev = pruned_scan(
            pos,
            depth,
            side,
            maximizing,
            moves,
            (n - 1) as nat,
            i32::MIN as int,
            i32::MAX as int,
        );
        lemma_scan_agrees(pos, depth, side, maximizing, moves, (n - 1) as nat);
        lemma_scan_range(pos, depth, side, maximizing, moves, (n - 1) as nat);
        let child = after(pos, moves[n - 1]);
        lemma_minimax_range(child, (depth - 1) as nat, side.spec_other(), !maximizing);
        if !prev.cut {
            lemma_pruned_within(
                child,
                (depth - 1) as nat,
                side.spec_other(),
                !maximizing,
                prev.alpha,
                prev.beta,
            );
        }
    }
}

/// Pruning changes nothing: over the full window the pruned search
/// returns the score and the move of minimax, for every position, depth,
/// side and aim.
pub proof fn lemma_pruning_is_exact(pos: Position, depth: nat, side: Sides, maximizing: bool)
    ensures
        pruned(pos, depth, side, maximizing, i32::MIN as int, i32::MAX as int) == minimax(
            pos,
            depth,
            side,
            maximizing,
        ),
{
    if depth > 0 {
        lemma_scan_agrees(pos, depth, side, maximizing, legal(pos, side), legal(pos, side).len());
    }
}

/// The static score of the position after move `m` of `side`, for the
/// side that seeks the highest score.
pub open spec fn reply_score(pos: Position, side: Sides, maximizing: bool, m: Move) -> int {
    evaluation(after(pos, m), seeker(side, maximizing))
}

/// In the search that [`crate::bot::bot_move`] makes, where White seeks
/// the highest score and Black the lowest, the score after a move is the
/// static score for White, whoever moves.
pub proof fn lemma_reply_score_is_for_white(pos: Position, side: Sides, m: Move)
    ensures
        reply_score(pos, side, side == Sides::White, m) == evaluation(after(pos, m), Sides::White),
{
}

/// At depth 0 minimax returns the static score of the position, for the
/// side that seeks the highest score, and no move.
pub proof fn lemma_depth_zero(pos: Position, side: Sides, maximizing: bool)
    ensures
        minimax(pos, 0, side, maximizing) == (
            evaluation(pos, seeker(side, maximizing)),
            None::<Move>,
        ),
{
}

/// At depth 1 a scan of one or more moves returns the first of the moves
/// whose static score after the move is the best of all.
proof fn lemma_scan_one(pos: Position, side: Sides, maximizing: bool, moves: Seq<Move>, n: nat) -> (i:
    int)
    requires
        0 < n <= moves.len(),
    ensures
        0 <= i < n,
        scan(pos, 1, side, maximizing, moves, n) == (
            reply_score(pos, side, maximizing, moves[i]),
            Some(moves[i]),
        ),
        forall|j: int|
            0 <= j < n ==> !better(
                maximizing,
                reply_score(pos, side, maximizing, #[trigger] moves[j]),
                reply_score(pos, side, maximizing, moves[i]),
            ),
        forall|j: int|
            0 <= j < i ==> better(
                maximizing,
                reply_score(pos, side, maximizing, moves[i]),
                reply_score(pos, side, maximizing, #[trigger] moves[j]),
            ),
    decreases n,
{
    let m = moves[n - 1];
    lemma_evaluation_bounds(after(pos, m), seeker(side, maximizing));
    assert(minimax(after(pos, m), 0, side.spec_other(), !maximizing).0 == reply_score(
        pos,
        side,
        maximizing,
        m,
    ));
    if n == 1 {
        assert(scan(pos, 1, side, maximizing, moves, 0) == (worst(maximizing), None::<Move>));
        0
    } else {
        let p = lemma_scan_one(pos, side, maximizing, moves, (n - 1) as nat);
        if better(
            maximizing,
            reply_score(pos, side, maximizing, m),
            reply_score(pos, side, maximizing, moves[p]),
        ) {
            n - 1
        } else {
            p
        }
    }
}

/// At depth 1 minimax returns the first legal move after which the static
/// score, for the side that seeks the highest score, is the highest (or,
/// where the lowest is sought, the lowest) that any legal move reaches,
/// with that score; without a legal move it returns no move.
pub proof fn lemma_depth_one(pos: Position, side: Sides, maximizing: bool)
    ensures
        legal(pos, side).len() == 0 ==> minimax(pos, 1, side, maximizing) == (
            worst(maximizing),
            None::<Move>,
        ),
        legal(pos, side).len() > 0 ==> exists|i: int|
            {
                &&& 0 <= i < legal(pos, side).len()
                &&& minimax(pos, 1, side, maximizing) == (
                    reply_score(pos, side, maximizing, #[trigger] legal(pos, side)[i]),
                    Some(legal(pos, side)[i]),
                )
                &&& forall|j: int|
                    0 <= j < legal(pos, side).len() ==> !better(
                        maximizing,
                        reply_score(pos, side, maximizing, #[trigger] legal(pos, side)[j]),
                        reply_score(pos, side, maximizing, legal(pos, side)[i]),
                    )
                &&& forall|j: int|
                    0 <= j < i ==> better(
                        maximizing,
                        reply_score(pos, side, maximizing, legal(pos, side)[i]),
                        reply_score(pos, side, maximizing, #[trigger] legal(pos, side)[j]),
                    )
            },
{
    let moves = legal(pos, side);
    if moves.len() > 0 {
        let i = lemma_scan_one(pos, side, maximizing, moves, moves.len());
        assert(minimax(pos, 1, side, maximizing) == (
            reply_score(pos, side, maximizing, moves[i]),
            Some(moves[i]),
        ));
    }
}

/// Looking one ply ahead, the best move of [`crate::bot::bot_move`] is the
/// first legal move after which the static score for White is the highest
/// that any legal move reaches, where White moves, or the lowest, where
/// Black moves; the score returned is that score.
pub proof fn lemma_first_ply(pos: Position, side: Sides)
    ensures
        legal(pos, side).len() > 0 ==> exists|i: int|
            {
                &&& 0 <= i < legal(pos, side).len()
                &&& minimax(pos, 1, side, side == Sides::White) == (
                    evaluation(after(pos, #[trigger] legal(pos, side)[i]), Sides::White),
                    Some(legal(pos, side)[i]),
                )
                &&& forall|j: int|
                    0 <= j < legal(pos, side).len() ==> if side == Sides::White {
                        evaluation(after(pos, #[trigger] legal(pos, side)[j]), Sides::White)
                            <= evaluation(after(pos, legal(pos, side)[i]), Sides::White)
                    } else {
                        evaluation(after(pos, legal(pos, side)[j]), Sides::White) >= evaluation(
                            after(pos, legal(pos, side)[i]),
                            Sides::White,
                        )
                    }
                &&& forall|j: int|
                    0 <= j < i ==> evaluation(after(pos, #[trigger] legal(pos, side)[j]), Sides::White)
                        != evaluation(after(pos, legal(pos, side)[i]), Sides::White)
            },
{
    let moves = legal(pos, side);
    let maximizing = side == Sides::White;
    if moves.len() > 0 {
        let i = lemma_scan_one(pos, side, maximizing, moves, moves.len());
        assert forall|j: int| 0 <= j < moves.len() implies reply_score(
            pos,
            side,
            maximizing,
            #[trigger] moves[j],
        ) == evaluation(after(pos, moves[j]), Sides::White) by {
            lemma_reply_score_is_for_white(pos, side, moves[j]);
        }
        assert(minimax(pos, 1, side, maximizing) == (
            evaluation(after(pos, moves[i]), Sides::White),
            Some(moves[i]),
        ));
    }
}

} // verus!
