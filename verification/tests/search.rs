use chess_engine::bot::{evaluate, maxi, mini};
use chess_engine::{bot_move, init_rays, BasicMove, Board, Capture, Move, Pieces, Rays, Sides, Square};

fn board(fen: &str) -> Board {
    Board::from_fen(fen.to_string()).unwrap()
}

/// Minimax without pruning, as a yardstick.
fn plain(rays: &Rays, board: &Board, depth: usize, side: Sides, maximizing: bool) -> (i32, Option<Move>) {
    if depth == 0 {
        let seeker = if maximizing { side } else { side.other() };
        return (evaluate(board, seeker), None);
    }
    let mut best = if maximizing { i32::MIN } else { i32::MAX };
    let mut best_move = None;
    for m in board.legal_moves(rays, side) {
        let mut next = *board;
        m.apply(&mut next).unwrap();
        let (score, _) = plain(rays, &next, depth - 1, side.other(), !maximizing);
        if (maximizing && score > best) || (!maximizing && score < best) {
            best = score;
            best_move = Some(m);
        }
    }
    (best, best_move)
}

#[test]
fn material_is_weighed_by_kind() {
    assert_eq!(evaluate(&Board::new(), Sides::White), 0);
    assert_eq!(evaluate(&Board::new(), Sides::Black), 0);
    assert_eq!(evaluate(&Board::default(), Sides::White), 0);
    let b = board("7k/8/8/8/8/8/8/QRBNPK2 w - - 0 1");
    assert_eq!(evaluate(&b, Sides::White), 9 + 5 + 3 + 3 + 1);
    assert_eq!(evaluate(&b, Sides::Black), -21);
    let b = board("8/8/8/8/8/8/8/K7 w - - 0 1");
    assert_eq!(evaluate(&b, Sides::White), 200);
    let b = board("qqrbnppp/8/8/8/8/8/8/QRBNNP2 w - - 0 1");
    assert_eq!(evaluate(&b, Sides::White), (9 + 5 + 3 + 6 + 1) - (18 + 5 + 3 + 3 + 3));
    let b = board("pppppppp/pppppppp/pppppppp/pppppppp/pppppppp/pppppppp/pppppppp/pppppppp w - -");
    assert_eq!(evaluate(&b, Sides::White), -64);
    let b = board("KKKKKKKK/KKKKKKKK/KKKKKKKK/KKKKKKKK/KKKKKKKK/KKKKKKKK/KKKKKKKK/KKKKKKKK w - -");
    assert_eq!(evaluate(&b, Sides::Black), -12800);
}

#[test]
fn depth_zero_is_the_static_score() {
    let rays = init_rays();
    let b = board("7k/8/8/8/8/8/q7/R6K w - - 0 1");
    // the score is White's, whoever is to move
    assert_eq!(bot_move(&rays, &b, 0, Sides::White), (-4, None));
    assert_eq!(bot_move(&rays, &b, 0, Sides::Black), (-4, None));
    assert_eq!(maxi(&rays, &b, 0, Sides::White, 0, 0), (-4, None));
    assert_eq!(mini(&rays, &b, 0, Sides::Black, 5, -5), (-4, None));
    // in a search of its own, the side that seeks the highest is scored
    assert_eq!(maxi(&rays, &b, 0, Sides::Black, 0, 0), (4, None));
    assert_eq!(mini(&rays, &b, 0, Sides::White, 5, -5), (4, None));
}

#[test]
fn depth_one_takes_the_first_best_reply_score() {
    let rays = init_rays();
    let b = board("7k/8/8/8/8/8/q7/R6K w - - 0 1");
    let a1 = Square::new(0, 0);
    let a2 = Square::new(0, 1);
    // White takes the queen
    let capture = Move::Capture(Capture::new(a1, a2, Pieces::Queen));
    let (score, mv) = bot_move(&rays, &b, 1, Sides::White);
    assert_eq!(score, 5);
    assert_eq!(mv, Some(capture));
    assert_eq!(mv.unwrap().render(), "a1 -> a2 capturing Queen");
    let moves = b.legal_moves(&rays, Sides::White);
    assert_eq!(moves.len(), 8);
    let mut best = i32::MIN;
    let mut first = None;
    for m in &moves {
        let mut next = b;
        m.apply(&mut next).unwrap();
        let s = evaluate(&next, Sides::White);
        assert!(*m == capture || s == -4);
        if s > best {
            best = s;
            first = Some(*m);
        }
    }
    assert_eq!((score, mv), (best, first));

    // Black takes the rook
    let (score, mv) = bot_move(&rays, &b, 1, Sides::Black);
    assert_eq!(score, -9);
    assert_eq!(mv, Some(Move::Capture(Capture::new(a2, a1, Pieces::Rook))));
    let mut best = i32::MAX;
    let mut first = None;
    for m in &b.legal_moves(&rays, Sides::Black) {
        let mut next = b;
        m.apply(&mut next).unwrap();
        let s = evaluate(&next, Sides::White);
        if s < best {
            best = s;
            first = Some(*m);
        }
    }
    assert_eq!((score, mv), (best, first));
}

#[test]
fn among_equal_scores_the_first_move_is_kept() {
    let rays = init_rays();
    let b = board("7k/8/8/8/8/8/8/R6K w - - 0 1");
    let (score, mv) = bot_move(&rays, &b, 1, Sides::White);
    assert_eq!(score, 5);
    assert_eq!(mv, Some(b.legal_moves(&rays, Sides::White)[0]));
    assert_eq!(mv, Some(Move::Basic(BasicMove::new(Square::new(0, 0), Square::new(1, 0)))));
    let (score, mv) = bot_move(&rays, &b, 1, Sides::Black);
    assert_eq!(score, 5);
    assert_eq!(mv, Some(b.legal_moves(&rays, Sides::Black)[0]));
}

#[test]
fn black_takes_the_queen_one_ply_ahead() {
    let rays = init_rays();
    let b = board("r6k/Q7/8/8/8/8/8/7K b - - 0 1");
    let (score, mv) = bot_move(&rays, &b, 1, Sides::Black);
    assert_eq!(score, -5);
    assert_eq!(
        mv,
        Some(Move::Capture(Capture::new(Square::new(0, 7), Square::new(0, 6), Pieces::Queen)))
    );
}

#[test]
fn without_a_legal_move_there_is_no_move() {
    let rays = init_rays();
    let mate = board("7k/6Q1/5K2/8/8/8/8/8 b - - 0 1");
    assert_eq!(bot_move(&rays, &mate, 1, Sides::Black), (i32::MAX, None));
    assert_eq!(bot_move(&rays, &mate, 3, Sides::Black), (i32::MAX, None));
    assert_eq!(maxi(&rays, &mate, 2, Sides::Black, i32::MIN, i32::MAX), (i32::MIN, None));
    let stale = board("7k/2R5/8/8/8/8/8/K5R1 w - - 0 1");
    assert_eq!(bot_move(&rays, &stale, 2, Sides::Black), (i32::MAX, None));
}

#[test]
fn pruning_does_not_change_the_outcome() {
    let rays = init_rays();
    for fen in [
        "7k/8/8/8/8/8/q7/R6K w - - 0 1",
        "r3k2r/8/8/8/8/8/8/R3K2R w KQkq - 0 1",
        "7k/P7/8/8/8/8/8/K7 w - - 0 1",
        "4k3/4r3/8/8/8/8/8/4R2K b - - 0 1",
        "2k5/8/8/3q4/8/2N5/8/2K5 w - - 0 1",
        "6k1/5ppp/8/8/8/8/5PPP/3R2K1 w - - 0 1",
    ] {
        let b = board(fen);
        for depth in 0..4 {
            assert_eq!(bot_move(&rays, &b, depth, Sides::White), plain(&rays, &b, depth, Sides::White, true));
            assert_eq!(bot_move(&rays, &b, depth, Sides::Black), plain(&rays, &b, depth, Sides::Black, false));
        }
    }
    let start = Board::new();
    for depth in 0..3 {
        assert_eq!(bot_move(&rays, &start, depth, Sides::White), plain(&rays, &start, depth, Sides::White, true));
    }
}

#[test]
fn the_search_is_deterministic() {
    let rays = init_rays();
    let b = board("r3k2r/8/8/8/8/8/8/R3K2R w KQkq - 0 1");
    let first = bot_move(&rays, &b, 2, Sides::White);
    let second = bot_move(&rays, &b, 2, Sides::White);
    assert_eq!(first, second);
    assert!(first.1.is_some());
}

#[test]
fn a_narrow_window_gives_a_bound() {
    let rays = init_rays();
    let b = board("7k/8/8/8/8/8/q7/R6K w - - 0 1");
    let full = plain(&rays, &b, 2, Sides::White, true).0;
    let low = maxi(&rays, &b, 2, Sides::White, full + 3, full + 10).0;
    assert!(full <= low && low <= full + 3);
    let high = maxi(&rays, &b, 2, Sides::White, full - 10, full - 3).0;
    assert!(full - 3 <= high && high <= full);
    let inside = maxi(&rays, &b, 2, Sides::White, full - 1, full + 1).0;
    assert_eq!(inside, full);
    let inside = mini(&rays, &b, 2, Sides::Black, -1000, 1000);
    assert_eq!(inside.0, plain(&rays, &b, 2, Sides::Black, false).0);
}
