use chess_engine::{
    bot_move, init_rays, BasicMove, Board, Capture, Castle, ChessGame, Move, Pieces, Promotion,
    Sides, Square,
};

fn board(fen: &str) -> Board {
    Board::from_fen(fen.to_string()).unwrap()
}

#[test]
fn promotion() {
    let rays = init_rays();
    let fen = "7k/P7/8/8/8/8/8/K7 w - - 0 1".to_string();
    let mut board = Board::from_fen(fen).unwrap();

    let moves = board.legal_moves(&rays, Sides::White);

    // 4 moves for promotion & 3 moves for king
    assert_eq!(moves.len(), 7);

    let promotion_move = Promotion::new(Square::new(0, 6), Square::new(0, 7), Pieces::Queen);
    promotion_move.apply(&mut board).unwrap();

    // queen on a8 and king on a1
    assert_eq!(board.friendly(Sides::White).0, 72057594037927937);
}

#[test]
fn checkmate() {
    let rays = init_rays();
    let fen = "7k/6Q1/5K2/8/8/8/8/8 b - - 0 1".to_string();
    let board = Board::from_fen(fen).unwrap();

    assert_eq!(board.is_checkmate(&rays, Sides::Black), true);

    let fen = "7k/5N2/8/8/3B4/3B4/8/K5R1 b - - 0 1".to_string();
    let board = Board::from_fen(fen).unwrap();
    assert_eq!(board.is_checkmate(&rays, Sides::Black), true);

    let fen = "7k/8/8/8/8/3B4/8/K5R1 b - - 0 1".to_string();
    let board = Board::from_fen(fen).unwrap();
    assert_eq!(board.is_checkmate(&rays, Sides::Black), false);
}

#[test]
fn stalemate() {
    let rays = init_rays();
    let fen = "7k/2R5/8/8/8/8/8/K5R1 w - - 0 1".to_string();
    let board = Board::from_fen(fen).unwrap();

    assert_eq!(board.is_stalemate(&rays, Sides::Black), true);
}

#[test]
fn castle() {
    let rays = init_rays();
    let fen = "rnbqkbnr/pppppppp/8/8/8/8/PPPPPPPP/R3KBNR w KQkq - 0 1".to_string();
    let board = Board::from_fen(fen).unwrap();

    let x = board.legal_moves(&rays, Sides::White);
    let mut castles = 0;
    for i in x {
        if let Move::Castle(_) = i {
            castles += 1;
            assert_eq!(i, Move::Castle(Castle::new(Sides::White, false)));
        }
    }
    assert_eq!(castles, 1);
}

#[test]
fn it_works() {
    let rays = init_rays();
    let mut game = ChessGame::new();

    for _ in 0..3 {
        let white_mv = bot_move(&rays, game.board(), 2, Sides::White).1.unwrap();
        println!("White : {}", white_mv.render());
        game.boxed_mv(Box::new(white_mv)).unwrap();
        println!("{}", game.board().render());

        let black_mv = bot_move(&rays, game.board(), 2, Sides::Black).1.unwrap();
        println!("Black : {}", black_mv.render());
        game.boxed_mv(Box::new(black_mv)).unwrap();
        println!("{}", game.board().render());
    }
    assert_eq!(game.turn(), Sides::White);
}

#[test]
fn promotion_moves_are_the_four_kinds_then_the_king() {
    let rays = init_rays();
    let b = board("7k/P7/8/8/8/8/8/K7 w - - 0 1");
    let moves = b.legal_moves(&rays, Sides::White);
    let a7 = Square::new(0, 6);
    let a8 = Square::new(0, 7);
    let a1 = Square::new(0, 0);
    assert_eq!(
        moves,
        vec![
            Move::Promotion(Promotion::new(a7, a8, Pieces::Rook)),
            Move::Promotion(Promotion::new(a7, a8, Pieces::Knight)),
            Move::Promotion(Promotion::new(a7, a8, Pieces::Bishop)),
            Move::Promotion(Promotion::new(a7, a8, Pieces::Queen)),
            Move::Basic(BasicMove::new(a1, Square::new(1, 0))),
            Move::Basic(BasicMove::new(a1, Square::new(0, 1))),
            Move::Basic(BasicMove::new(a1, Square::new(1, 1))),
        ]
    );
}

#[test]
fn queen_promotion_leaves_other_pieces() {
    let mut b = board("7k/P7/8/8/8/8/8/K7 w - - 0 1");
    Promotion::new(Square::new(0, 6), Square::new(0, 7), Pieces::Queen).apply(&mut b).unwrap();
    assert_eq!(b.piece_at(Square::new(0, 7)), Some((Sides::White, Pieces::Queen)));
    assert_eq!(b.piece_at(Square::new(0, 6)), None);
    assert_eq!(b.piece_at(Square::new(0, 0)), Some((Sides::White, Pieces::King)));
    assert_eq!(b.piece_at(Square::new(7, 7)), Some((Sides::Black, Pieces::King)));
    assert_eq!(b.count_piece(Sides::White, Pieces::Pawn), 0);
    assert_eq!(b.count_piece(Sides::White, Pieces::Queen), 1);
    assert_eq!(b.occupied().0.count_ones(), 3);
}

#[test]
fn start_position_has_twenty_moves_for_each_side() {
    let rays = init_rays();
    let b = Board::new();
    assert_eq!(b.legal_moves(&rays, Sides::White).len(), 20);
    assert_eq!(b.pseudo_legal_moves(&rays, Sides::White).len(), 20);
    assert_eq!(b.legal_moves(&rays, Sides::Black).len(), 20);
    assert!(!b.is_check(&rays, Sides::White));
    assert!(!b.is_checkmate(&rays, Sides::White));
    assert!(!b.is_stalemate(&rays, Sides::White));
}

#[test]
fn pawn_pushes_come_first_from_the_start() {
    let rays = init_rays();
    let b = Board::new();
    let moves = b.pseudo_legal_moves(&rays, Sides::White);
    assert_eq!(moves[0], Move::Basic(BasicMove::new(Square::new(0, 1), Square::new(0, 2))));
    assert_eq!(moves[1], Move::Basic(BasicMove::new(Square::new(0, 1), Square::new(0, 3))));
    assert_eq!(moves[2], Move::Basic(BasicMove::new(Square::new(1, 1), Square::new(1, 2))));
}

#[test]
fn check_is_a_capture_of_the_king() {
    let rays = init_rays();
    let b = board("4k3/8/8/8/8/8/8/4R2K w - - 0 1");
    assert!(b.is_check(&rays, Sides::Black));
    assert!(!b.is_check(&rays, Sides::White));
    let white = b.pseudo_legal_moves(&rays, Sides::White);
    assert!(white.contains(&Move::Capture(Capture::new(
        Square::new(4, 0),
        Square::new(4, 7),
        Pieces::King
    ))));
}

#[test]
fn a_pinned_piece_may_not_leave_the_line() {
    let rays = init_rays();
    // the black rook on e7 shields its king from the white rook on e1
    let b = board("4k3/4r3/8/8/8/8/8/4R2K b - - 0 1");
    let legal = b.legal_moves(&rays, Sides::Black);
    let pseudo = b.pseudo_legal_moves(&rays, Sides::Black);
    let sideways = Move::Basic(BasicMove::new(Square::new(4, 6), Square::new(3, 6)));
    let along = Move::Basic(BasicMove::new(Square::new(4, 6), Square::new(4, 5)));
    assert!(pseudo.contains(&sideways));
    assert!(!legal.contains(&sideways));
    assert!(legal.contains(&along));
    assert!(legal.contains(&Move::Capture(Capture::new(
        Square::new(4, 6),
        Square::new(4, 0),
        Pieces::Rook
    ))));
}

#[test]
fn both_castles_are_generated_when_both_are_open() {
    let rays = init_rays();
    let b = board("r3k2r/8/8/8/8/8/8/R3K2R w KQkq - 0 1");
    let white = b.legal_moves(&rays, Sides::White);
    let n = white.len();
    assert_eq!(white[n - 2], Move::Castle(Castle::new(Sides::White, true)));
    assert_eq!(white[n - 1], Move::Castle(Castle::new(Sides::White, false)));
    let black = b.legal_moves(&rays, Sides::Black);
    assert!(black.contains(&Move::Castle(Castle::new(Sides::Black, true))));
    assert!(black.contains(&Move::Castle(Castle::new(Sides::Black, false))));
}

#[test]
fn no_castle_without_the_right_or_through_pieces() {
    let rays = init_rays();
    let b = board("r3k2r/8/8/8/8/8/8/R3K2R w Qk - 0 1");
    let white = b.pseudo_legal_moves(&rays, Sides::White);
    assert!(!white.contains(&Move::Castle(Castle::new(Sides::White, true))));
    assert!(white.contains(&Move::Castle(Castle::new(Sides::White, false))));
    let black = b.pseudo_legal_moves(&rays, Sides::Black);
    assert!(black.contains(&Move::Castle(Castle::new(Sides::Black, true))));
    assert!(!black.contains(&Move::Castle(Castle::new(Sides::Black, false))));
    let blocked = board("r3k2r/8/8/8/8/8/8/RN2K1NR w KQkq - 0 1");
    let white = blocked.pseudo_legal_moves(&rays, Sides::White);
    assert!(!white.contains(&Move::Castle(Castle::new(Sides::White, true))));
    assert!(!white.contains(&Move::Castle(Castle::new(Sides::White, false))));
}

#[test]
fn a_castle_that_cannot_be_applied_is_not_legal() {
    let rays = init_rays();
    // the right is held and the path is free, but the king is not at home
    let b = board("7k/8/8/8/8/8/4K3/7R w K - 0 1");
    let castle = Move::Castle(Castle::new(Sides::White, true));
    assert!(b.pseudo_legal_moves(&rays, Sides::White).contains(&castle));
    assert!(!b.legal_moves(&rays, Sides::White).contains(&castle));
}

#[test]
fn a_pawn_on_its_home_rank_may_advance_two() {
    let rays = init_rays();
    let b = board("7k/8/8/8/8/8/4P3/7K w - - 0 1");
    let moves = b.legal_moves(&rays, Sides::White);
    let e2 = Square::new(4, 1);
    assert!(moves.contains(&Move::Basic(BasicMove::new(e2, Square::new(4, 2)))));
    assert!(moves.contains(&Move::Basic(BasicMove::new(e2, Square::new(4, 3)))));
    let b = board("7k/8/8/8/8/4n3/4P3/7K w - - 0 1");
    let moves = b.legal_moves(&rays, Sides::White);
    assert!(!moves.contains(&Move::Basic(BasicMove::new(e2, Square::new(4, 2)))));
    assert!(!moves.contains(&Move::Basic(BasicMove::new(e2, Square::new(4, 3)))));
}

#[test]
fn a_pawn_captures_diagonally_only() {
    let rays = init_rays();
    let b = board("7k/8/8/8/8/3pnp2/4P3/7K w - - 0 1");
    let moves = b.pseudo_legal_moves(&rays, Sides::White);
    let e2 = Square::new(4, 1);
    assert_eq!(
        moves[0..2].to_vec(),
        vec![
            Move::Capture(Capture::new(e2, Square::new(3, 2), Pieces::Pawn)),
            Move::Capture(Capture::new(e2, Square::new(5, 2), Pieces::Pawn)),
        ]
    );
}

#[test]
fn a_knight_step_keeps_within_one_file() {
    let rays = init_rays();
    let b = board("7k/8/8/8/3N4/8/8/7K w - - 0 1");
    let moves: Vec<Move> = b
        .pseudo_legal_moves(&rays, Sides::White)
        .into_iter()
        .filter(|m| match m {
            Move::Basic(b) => b.from == Square::new(3, 3),
            _ => false,
        })
        .collect();
    let d4 = Square::new(3, 3);
    assert_eq!(
        moves,
        vec![
            Move::Basic(BasicMove::new(d4, Square::new(2, 1))),
            Move::Basic(BasicMove::new(d4, Square::new(4, 1))),
            Move::Basic(BasicMove::new(d4, Square::new(2, 5))),
            Move::Basic(BasicMove::new(d4, Square::new(4, 5))),
        ]
    );
}

#[test]
fn sides_stay_disjoint_along_a_game() {
    let rays = init_rays();
    let mut game = ChessGame::new();
    let mut side = Sides::White;
    for ply in 0..40usize {
        let moves = game.board().legal_moves(&rays, side);
        if moves.is_empty() {
            break;
        }
        let m = moves[(ply * 7 + 3) % moves.len()];
        game.mv(&m).unwrap();
        let b = *game.board();
        assert_eq!(b.sides[0].0 & b.sides[1].0, 0);
        let mut all = 0u64;
        for s in 0..2 {
            let mut of_side = 0u64;
            for k in 0..6 {
                assert_eq!(all & b.pieces[s][k].0, 0);
                all |= b.pieces[s][k].0;
                of_side |= b.pieces[s][k].0;
            }
            assert_eq!(of_side, b.sides[s].0);
        }
        assert_eq!(b.sides[0].0 | b.sides[1].0, all);
        side = side.other();
    }
}
