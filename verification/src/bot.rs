//! Static evaluation and the search for a move: minimax to a fixed depth,
//! with alpha-beta pruning.
//!
//! [`minimax`] is the search without pruning and [`pruned`] the search as the
//! code runs it. [`bot_move`] returns what [`minimax`] defines.

use vstd::prelude::*;
use crate::attacks::Rays;
use crate::board::Board;
use crate::movegen::{legal, safe_moves};
use crate::moves::Move;
use crate::pieces::{Pieces, Sides};
use crate::position::{lemma_count_bounds, Position};
use crate::pruning::{lemma_pruned_within, lemma_pruning_is_exact, within};

verus! {

/// How many more pieces of `kind` White has than Black.
pub open spec fn balance(pos: Position, kind: Pieces) -> int {
    pos.count(Sides::White, kind) - pos.count(Sides::Black, kind)
}

/// The material on the board, counted for White: each piece by the weight of
/// its kind, White's pieces added and Black's subtracted.
pub open spec fn material(pos: Position) -> int {
    Pieces::King.weight() * balance(pos, Pieces::King) + Pieces::Queen.weight() * balance(
        pos,
        Pieces::Queen,
    ) + Pieces::Rook.weight() * balance(pos, Pieces::Rook) + Pieces::Knight.weight() * balance(
        pos,
        Pieces::Knight,
    ) + Pieces::Bishop.weight() * balance(pos, Pieces::Bishop) + Pieces::Pawn.weight() * balance(
        pos,
        Pieces::Pawn,
    )
}

/// The static score of a position for `side`: its material minus the
/// opponent's.
pub open spec fn evaluation(pos: Position, side: Sides) -> int {
    match side {
        Sides::White => material(pos),
        Sides::Black => -material(pos),
    }
}

/// The largest static score there can be.
pub open spec fn evaluation_limit() -> int {
    14144
}

/// The static score lies within the limit, far inside the range of `i32`.
pub proof fn lemma_evaluation_bounds(pos: Position, side: Sides)
    ensures
        -evaluation_limit() <= evaluation(pos, side) <= evaluation_limit(),
{
    lemma_count_bounds(pos, Sides::White, Pieces::King, 64);
    lemma_count_bounds(pos, Sides::Black, Pieces::King, 64);
    lemma_count_bounds(pos, Sides::White, Pieces::Queen, 64);
    lemma_count_bounds(pos, Sides::Black, Pieces::Queen, 64);
    lemma_count_bounds(pos, Sides::White, Pieces::Rook, 64);
    lemma_count_bounds(pos, Sides::Black, Pieces::Rook, 64);
    lemma_count_bounds(pos, Sides::White, Pieces::Knight, 64);
    lemma_count_bounds(pos, Sides::Black, Pieces::Knight, 64);
    lemma_count_bounds(pos, Sides::White, Pieces::Bishop, 64);
    lemma_count_bounds(pos, Sides::Black, Pieces::Bishop, 64);
    lemma_count_bounds(pos, Sides::White, Pieces::Pawn, 64);
    lemma_count_bounds(pos, Sides::Black, Pieces::Pawn, 64);
}

/// The score of the opponent is the negated score of the side.
pub proof fn lemma_evaluation_antisymmetric(pos: Position, side: Sides)
    ensures
        evaluation(pos, side.spec_other()) == -evaluation(pos, side),
{
}

/// The static score of the board for `side`.
pub fn evaluate(board: &Board, side: Sides) -> (score: i32)
    requires
        board.wf(),
    ensures
        score == evaluation(board@, side),
{
    let kings = board.count_piece(Sides::White, Pieces::King) - board.count_piece(
        Sides::Black,
        Pieces::King,
    );
    let queens = board.count_piece(Sides::White, Pieces::Queen) - board.count_piece(
        Sides::Black,
        Pieces::Queen,
    );
    let rooks = board.count_piece(Sides::White, Pieces::Rook) - board.count_piece(
        Sides::Black,
        Pieces::Rook,
    );
    let knights = board.count_piece(Sides::White, Pieces::Knight) - board.count_piece(
        Sides::Black,
        Pieces::Knight,
    );
    let bishops = board.count_piece(Sides::White, Pieces::Bishop) - board.count_piece(
        Sides::Black,
        Pieces::Bishop,
    );
    let pawns = board.count_piece(Sides::White, Pieces::Pawn) - board.count_piece(
        Sides::Black,
        Pieces::Pawn,
    );
    let white: i32 = 200 * kings + 9 * queens + 5 * rooks + 3 * knights + 3 * bishops + pawns;
    match side {
        Sides::White => white,
        Sides::Black => -white,
    }
}

/// The score with which a scan of the moves starts: the lowest of all where
/// the highest is sought, the highest where the lowest is sought.
pub open spec fn worst(maximizing: bool) -> int {
    if maximizing {
        i32::MIN as int
    } else {
        i32::MAX as int
    }
}

/// Whether `score` replaces `best`: only if it is strictly higher (where the
/// highest is sought) or strictly lower (where the lowest is sought).
pub open spec fn better(maximizing: bool, score: int, best: int) -> bool {
    if maximizing {
        score > best
    } else {
        score < best
    }
}

/// The position after move `m`.
pub open spec fn after(pos: Position, m: Move) -> Position {
    m.apply_to(pos).unwrap()
}

/// The side for which a search scores the positions: the side that seeks
/// the highest score. It is `side` where `side` seeks the highest, and its
/// opponent where `side` seeks the lowest.
pub open spec fn seeker(side: Sides, maximizing: bool) -> Sides {
    if maximizing {
        side
    } else {
        side.spec_other()
    }
}

/// The score of a position at which the search looks no further: its
/// static score for the side that seeks the highest score.
pub open spec fn leaf_score(pos: Position, side: Sides, maximizing: bool) -> int {
    evaluation(pos, seeker(side, maximizing))
}

/// The side that seeks the highest score is the same at every ply: after a
/// move the opponent is to move, with the opposite aim.
pub proof fn lemma_seeker_is_kept(side: Sides, maximizing: bool)
    ensures
        seeker(side.spec_other(), !maximizing) == seeker(side, maximizing),
        seeker(side, side == Sides::White) == Sides::White,
{
}

/// Minimax without pruning: score and move for `side` to move in `pos`,
/// looking `depth` plies ahead. At depth 0 it is the static score of the
/// position for the side that seeks the highest score, and no move.
/// Otherwise every legal move is tried in order, the position after it
/// is searched for the opponent with the opposite aim and one ply less, and
/// the first move with the best score is kept. Without a legal move it is
/// the worst score and no move.
pub open spec fn minimax(pos: Position, depth: nat, side: Sides, maximizing: bool) -> (
    int,
    Option<Move>,
)
    decreases depth, legal(pos, side).len() + 1,
{
    if depth == 0 {
        (leaf_score(pos, side, maximizing), None)
    } else {
        scan(pos, depth, side, maximizing, legal(pos, side), legal(pos, side).len())
    }
}

/// The best score and move among the first `n` of `moves`, without pruning.
pub open spec fn scan(
    pos: Position,
    depth: nat,
    side: Sides,
    maximizing: bool,
    moves: Seq<Move>,
    n: nat,
) -> (int, Option<Move>)
    decreases depth, n,
{
    if n == 0 || depth == 0 {
        (worst(maximizing), None)
    } else {
        let prev = scan(pos, depth, side, maximizing, moves, (n - 1) as nat);
        let m = moves[n - 1];
        let score = minimax(after(pos, m), (depth - 1) as nat, side.spec_other(), !maximizing).0;
        if better(maximizing, score, prev.0) {
            (score, Some(m))
        } else {
            prev
        }
    }
}

/// The state of a pruned scan of the moves.
pub struct Scan {
    /// The best score so far.
    pub best: int,
    /// The move that gave it.
    pub mv: Option<Move>,
    /// The lower end of the window.
    pub alpha: int,
    /// The upper end of the window.
    pub beta: int,
    /// Whether the window has closed, which ends the scan.
    pub cut: bool,
}

/// Minimax with alpha-beta pruning, within the window from `alpha` to `beta`.
pub open spec fn pruned(
    pos: Position,
    depth: nat,
    side: Sides,
    maximizing: bool,
    alpha: int,
    beta: int,
) -> (int, Option<Move>)
    decreases depth, legal(pos, side).len() + 1,
{
    if depth == 0 {
        (leaf_score(pos, side, maximizing), None)
    } else {
        let end = pruned_scan(
            pos,
            depth,
            side,
            maximizing,
            legal(pos, side),
            legal(pos, side).len(),
            alpha,
            beta,
        );
        (end.best, end.mv)
    }
}

/// The state of the pruned scan after the first `n` of `moves`: each move is
/// searched within the window as it stands, the first move with the best
/// score is kept, the window is narrowed by the score, and once it has
/// closed (`beta <= alpha`) the remaining moves are skipped.
pub open spec fn pruned_scan(
    pos: Position,
    depth: nat,
    side: Sides,
    maximizing: bool,
    moves: Seq<Move>,
    n: nat,
    alpha: int,
    beta: int,
) -> Scan
    decreases depth, n,
{
    if n == 0 || depth == 0 {
        Scan { best: worst(maximizing), mv: None, alpha, beta, cut: false }
    } else {
        let prev = pruned_scan(pos, depth, side, maximizing, moves, (n - 1) as nat, alpha, beta);
        if prev.cut {
            prev
        } else {
            let m = moves[n - 1];
            let score = pruned(
                after(pos, m),
                (depth - 1) as nat,
                side.spec_other(),
                !maximizing,
                prev.alpha,
                prev.beta,
            ).0;
            let a = if maximizing && score > prev.alpha {
                score
            } else {
                prev.alpha
            };
            let b = if !maximizing && score < prev.beta {
                score
            } else {
                prev.beta
            };
            if better(maximizing, score, prev.best) {
                Scan { best: score, mv: Some(m), alpha: a, beta: b, cut: b <= a }
            } else {
                Scan { best: prev.best, mv: prev.mv, alpha: a, beta: b, cut: b <= a }
            }
        }
    }
}

/// Once the window has closed, the scan stays as it is.
pub proof fn lemma_cut_is_final(
    pos: Position,
    depth: nat,
    side: Sides,
    maximizing: bool,
    moves: Seq<Move>,
    n: nat,
    later: nat,
    alpha: int,
    beta: int,
)
    requires
        n <= later,
        pruned_scan(pos, depth, side, maximizing, moves, n, alpha, beta).cut,
    ensures
        pruned_scan(pos, depth, side, maximizing, moves, later, alpha, beta) == pruned_scan(
            pos,
            depth,
            side,
            maximizing,
            moves,
            n,
            alpha,
            beta,
        ),
    decreases later,
{
    if n < later {
        lemma_cut_is_final(pos, depth, side, maximizing, moves, n, (later - 1) as nat, alpha, beta);
    }
}

/// Searches the position after one move, for the opponent with the opposite
/// aim and one ply less.
fn search_reply(
    rays: &Rays,
    board: &Board,
    mv: Move,
    depth: usize,
    side: Sides,
    maximizing: bool,
    alpha: i32,
    beta: i32,
) -> (score: i32)
    requires
        board.wf(),
        depth > 0,
        mv.apply_to(board@) is Ok,
    ensures
        score == pruned(
            after(board@, mv),
            (depth - 1) as nat,
            side.spec_other(),
            !maximizing,
            alpha as int,
            beta as int,
        ).0,
    decreases depth, 0nat,
{
    let mut new = *board;
    let _ = mv.apply(&mut new);
    if maximizing {
        mini(rays, &new, depth - 1, side.other(), alpha, beta).0
    } else {
        maxi(rays, &new, depth - 1, side.other(), alpha, beta).0
    }
}

/// The search of the side that seeks the highest score. Positions are
/// scored for `side`.
pub fn maxi(rays: &Rays, board: &Board, depth: usize, side: Sides, alpha: i32, beta: i32) -> (r: (
    i32,
    Option<Move>,
))
    requires
        board.wf(),
    ensures
        (r.0 as int, r.1) == pruned(board@, depth as nat, side, true, alpha as int, beta as int),
        alpha < beta ==> within(
            minimax(board@, depth as nat, side, true).0,
            r.0 as int,
            alpha as int,
            beta as int,
        ),
    decreases depth, 1nat,
{
    proof {
        if alpha < beta {
            lemma_pruned_within(board@, depth as nat, side, true, alpha as int, beta as int);
        }
    }
    if depth == 0 {
        return (evaluate(board, side), None);
    }
    let mut alpha = alpha;
    let ghost alpha0 = alpha as int;
    let mut max = i32::MIN;
    let mut best_move: Option<Move> = None;
    let moves = board.legal_moves(rays, side);
    let ghost pos = board@;
    let n = moves.len();
    let mut i: usize = 0;
    while i < n
        invariant_except_break
            i <= n,
            pruned_scan(pos, depth as nat, side, true, moves@, i as nat, alpha0, beta as int) == (Scan {
                best: max as int,
                mv: best_move,
                alpha: alpha as int,
                beta: beta as int,
                cut: false,
            }),
        invariant
            n == moves@.len(),
            depth > 0,
            board.wf(),
            pos == board@,
            moves@ == legal(pos, side),
        ensures
            pruned_scan(pos, depth as nat, side, true, moves@, n as nat, alpha0, beta as int).best == max,
            pruned_scan(pos, depth as nat, side, true, moves@, n as nat, alpha0, beta as int).mv
                == best_move,
        decreases n - i,
    {
        let mv = moves[i];
        proof {
            lemma_legal_applies(pos, side, i as int);
        }
        let score = search_reply(rays, board, mv, depth, side, true, alpha, beta);
        if score > max {
            max = score;
            best_move = Some(mv);
        }
        if score > alpha {
            alpha = score;
        }
        i = i + 1;
        if beta <= alpha {
            proof {
                lemma_cut_is_final(
                    pos,
                    depth as nat,
                    side,
                    true,
                    moves@,
                    i as nat,
                    n as nat,
                    alpha0,
                    beta as int,
                );
            }
            break ;
        }
    }
    (max, best_move)
}

/// The search of the side that seeks the lowest score. Positions are
/// scored for the opponent of `side`.
pub fn mini(rays: &Rays, board: &Board, depth: usize, side: Sides, alpha: i32, beta: i32) -> (r: (
    i32,
    Option<Move>,
))
    requires
        board.wf(),
    ensures
        (r.0 as int, r.1) == pruned(board@, depth as nat, side, false, alpha as int, beta as int),
        alpha < beta ==> within(
            minimax(board@, depth as nat, side, false).0,
            r.0 as int,
            alpha as int,
            beta as int,
        ),
    decreases depth, 1nat,
{
    proof {
        if alpha < beta {
            lemma_pruned_within(board@, depth as nat, side, false, alpha as int, beta as int);
        }
    }
    if depth == 0 {
        return (evaluate(board, side.other()), None);
    }
    let mut beta = beta;
    let ghost beta0 = beta as int;
    let mut min = i32::MAX;
    let mut best_move: Option<Move> = None;
    let moves = board.legal_moves(rays, side);
    let ghost pos = board@;
    let n = moves.len();
    let mut i: usize = 0;
    while i < n
        invariant_except_break
            i <= n,
            pruned_scan(pos, depth as nat, side, false, moves@, i as nat, alpha as int, beta0) == (Scan {
                best: min as int,
                mv: best_move,
                alpha: alpha as int,
                beta: beta as int,
                cut: false,
            }),
        invariant
            n == moves@.len(),
            depth > 0,
            board.wf(),
            pos == board@,
            moves@ == legal(pos, side),
        ensures
            pruned_scan(pos, depth as nat, side, false, moves@, n as nat, alpha as int, beta0).best == min,
            pruned_scan(pos, depth as nat, side, false, moves@, n as nat, alpha as int, beta0).mv
                == best_move,
        decreases n - i,
    {
        let mv = moves[i];
        proof {
            lemma_legal_applies(pos, side, i as int);
        }
        let score = search_reply(rays, board, mv, depth, side, false, alpha, beta);
        if score < min {
            min = score;
            best_move = Some(mv);
        }
        if score < beta {
            beta = score;
        }
        i = i + 1;
        if beta <= alpha {
            proof {
                lemma_cut_is_final(
                    pos,
                    depth as nat,
                    side,
                    false,
                    moves@,
                    i as nat,
                    n as nat,
                    alpha as int,
                    beta0,
                );
            }
            break ;
        }
    }
    (min, best_move)
}

/// The best move for `side` in the position, looking `depth` plies ahead:
/// White seeks the highest score, Black the lowest, and every position is
/// scored for White. The outcome is that of [`minimax`]: the pruning does
/// not change it.
pub fn bot_move(rays: &Rays, board: &Board, depth: usize, side: Sides) -> (r: (i32, Option<Move>))
    requires
        board.wf(),
    ensures
        (r.0 as int, r.1) == minimax(board@, depth as nat, side, side == Sides::White),
        depth == 0 ==> r.0 == evaluation(board@, Sides::White) && r.1 is None,
{
    proof {
        lemma_pruning_is_exact(board@, depth as nat, side, side == Sides::White);
    }
    match side {
        Sides::White => maxi(rays, board, depth, side, i32::MIN, i32::MAX),
        Sides::Black => mini(rays, board, depth, side, i32::MIN, i32::MAX),
    }
}

/// Every legal move can be applied.
pub proof fn lemma_legal_applies(pos: Position, side: Sides, i: int)
    requires
        0 <= i < legal(pos, side).len(),
    ensures
        legal(pos, side)[i].apply_to(pos) is Ok,
        crate::movegen::keeps_king_safe(pos, side, legal(pos, side)[i]),
{
    crate::movegen::pseudo_legal(pos, side).lemma_filter_pred(safe_moves(pos, side), i);
}

} // verus!
