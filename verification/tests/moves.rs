use chess_engine::{
    BasicMove, Board, Capture, Castle, ChessGame, Move, MoveError, MoveRights, Pieces, Promotion,
    Sides, Square,
};

fn board(fen: &str) -> Board {
    Board::from_fen(fen.to_string()).unwrap()
}

fn same(a: &Board, b: &Board) -> bool {
    a.pieces == b.pieces && a.sides == b.sides && a.move_rights == b.move_rights
}

fn refused(m: Move, fen: &str, why: MoveError) {
    let before = board(fen);
    let mut b = before;
    assert_eq!(m.apply(&mut b), Err(why));
    assert!(same(&b, &before));
}

#[test]
fn a_basic_move_relocates_one_piece() {
    let mut b = Board::new();
    let m = BasicMove::new(Square::new(4, 1), Square::new(4, 3));
    assert_eq!(m.apply(&mut b), Ok(()));
    assert_eq!(b.piece_at(Square::new(4, 3)), Some((Sides::White, Pieces::Pawn)));
    assert_eq!(b.piece_at(Square::new(4, 1)), None);
    assert_eq!(b.sides[0].0, 0xFFFF ^ (1 << 12) ^ (1 << 28));
    assert_eq!(b.pieces[0][0].0, 0xFF00 ^ (1 << 12) ^ (1 << 28));
    assert_eq!(b.sides[1].0, 0xFFFF_0000_0000_0000);
    assert_eq!(m.capture(), None);
}

#[test]
fn a_capture_removes_the_taken_piece() {
    let mut b = board("7k/8/8/3p4/4P3/8/8/7K w - - 0 1");
    let m = Capture::new(Square::new(4, 3), Square::new(3, 4), Pieces::Pawn);
    assert_eq!(m.capture(), Some(Pieces::Pawn));
    assert_eq!(m.apply(&mut b), Ok(()));
    assert_eq!(b.piece_at(Square::new(3, 4)), Some((Sides::White, Pieces::Pawn)));
    assert_eq!(b.piece_at(Square::new(4, 3)), None);
    assert_eq!(b.count_piece(Sides::Black, Pieces::Pawn), 0);
    assert_eq!(b.sides[1].0, 1 << 63);
    assert_eq!(b.sides[0].0, (1 << 35) | (1 << 7));
}

#[test]
fn a_promotion_takes_what_stands_on_the_target() {
    let mut b = board("1n5k/P7/8/8/8/8/8/K7 w - - 0 1");
    let m = Promotion::new(Square::new(0, 6), Square::new(1, 7), Pieces::Knight);
    assert_eq!(m.capture(), None);
    assert_eq!(m.apply(&mut b), Ok(()));
    assert_eq!(b.piece_at(Square::new(1, 7)), Some((Sides::White, Pieces::Knight)));
    assert_eq!(b.piece_at(Square::new(0, 6)), None);
    assert_eq!(b.count_piece(Sides::Black, Pieces::Knight), 0);
    assert_eq!(b.sides[1].0, 1 << 63);
}

#[test]
fn castling_moves_king_and_rook_and_ends_the_rights() {
    let mut b = board("r3k2r/8/8/8/8/8/8/R3K2R w KQkq - 0 1");
    let m = Castle::new(Sides::White, true);
    assert_eq!(m.capture(), None);
    assert_eq!(m.apply(&mut b), Ok(()));
    assert_eq!(b.piece_at(Square::new(6, 0)), Some((Sides::White, Pieces::King)));
    assert_eq!(b.piece_at(Square::new(5, 0)), Some((Sides::White, Pieces::Rook)));
    assert_eq!(b.piece_at(Square::new(4, 0)), None);
    assert_eq!(b.piece_at(Square::new(7, 0)), None);
    assert_eq!(b.piece_at(Square::new(0, 0)), Some((Sides::White, Pieces::Rook)));
    assert!(!b.move_rights.white_king_side && !b.move_rights.white_queen_side);
    assert!(b.move_rights.black_king_side && b.move_rights.black_queen_side);

    let m = Castle::new(Sides::Black, false);
    assert_eq!(m.apply(&mut b), Ok(()));
    assert_eq!(b.piece_at(Square::new(2, 7)), Some((Sides::Black, Pieces::King)));
    assert_eq!(b.piece_at(Square::new(3, 7)), Some((Sides::Black, Pieces::Rook)));
    assert_eq!(b.piece_at(Square::new(4, 7)), None);
    assert_eq!(b.piece_at(Square::new(0, 7)), None);
    assert_eq!(b.piece_at(Square::new(7, 7)), Some((Sides::Black, Pieces::Rook)));
    assert_eq!(b.move_rights, MoveRights::default());
    assert_eq!(Castle::new(Sides::White, false).apply(&mut b), Err(MoveError::NoCastlingRight));
}

#[test]
fn a_move_off_the_board_is_refused() {
    let fen = "7k/8/8/8/8/8/8/K7 w - - 0 1";
    let a1 = Square::new(0, 0);
    refused(Move::Basic(BasicMove::new(a1, Square::new(8, 0))), fen, MoveError::OffBoard);
    refused(Move::Basic(BasicMove::new(Square::new(0, 8), a1)), fen, MoveError::OffBoard);
    refused(
        Move::Capture(Capture::new(a1, Square::from_idx(64), Pieces::King)),
        fen,
        MoveError::OffBoard,
    );
    refused(
        Move::Promotion(Promotion::new(Square::new(usize::MAX, 0), a1, Pieces::Queen)),
        fen,
        MoveError::OffBoard,
    );
}

#[test]
fn a_move_from_an_empty_square_is_refused() {
    let fen = "7k/8/8/8/8/8/8/K7 w - - 0 1";
    let b2 = Square::new(1, 1);
    let b3 = Square::new(1, 2);
    refused(Move::Basic(BasicMove::new(b2, b3)), fen, MoveError::EmptySource);
    refused(Move::Capture(Capture::new(b2, Square::new(7, 7), Pieces::King)), fen, MoveError::EmptySource);
    refused(Move::Promotion(Promotion::new(b2, b3, Pieces::Queen)), fen, MoveError::EmptySource);
}

#[test]
fn a_move_to_an_occupied_square_is_refused() {
    let fen = "7k/8/8/8/8/8/P7/KP6 w - - 0 1";
    let a1 = Square::new(0, 0);
    refused(Move::Basic(BasicMove::new(a1, Square::new(0, 1))), fen, MoveError::Occupied);
    refused(Move::Basic(BasicMove::new(a1, Square::new(7, 7))), fen, MoveError::Occupied);
    refused(Move::Basic(BasicMove::new(a1, a1)), fen, MoveError::Occupied);
    refused(
        Move::Promotion(Promotion::new(Square::new(0, 1), a1, Pieces::Queen)),
        fen,
        MoveError::Occupied,
    );
    refused(
        Move::Castle(Castle::new(Sides::White, false)),
        "r3k2r/8/8/8/8/8/8/RN2K2R w KQkq - 0 1",
        MoveError::Occupied,
    );
}

#[test]
fn a_capture_must_name_what_it_takes() {
    let fen = "7k/8/8/3p4/4P3/8/8/7K w - - 0 1";
    let e4 = Square::new(4, 3);
    let d5 = Square::new(3, 4);
    refused(Move::Capture(Capture::new(e4, d5, Pieces::Queen)), fen, MoveError::BadCapture);
    refused(Move::Capture(Capture::new(e4, Square::new(4, 4), Pieces::Pawn)), fen, MoveError::BadCapture);
    refused(
        Move::Capture(Capture::new(e4, Square::new(7, 0), Pieces::King)),
        fen,
        MoveError::BadCapture,
    );
    refused(Move::Capture(Capture::new(e4, e4, Pieces::Pawn)), fen, MoveError::BadCapture);
}

#[test]
fn only_a_pawn_is_promoted_and_only_to_a_piece() {
    let fen = "7k/P7/8/8/8/8/8/K7 w - - 0 1";
    let a7 = Square::new(0, 6);
    let a8 = Square::new(0, 7);
    refused(
        Move::Promotion(Promotion::new(Square::new(0, 0), Square::new(1, 0), Pieces::Queen)),
        fen,
        MoveError::NotAPawn,
    );
    refused(Move::Promotion(Promotion::new(a7, a8, Pieces::King)), fen, MoveError::BadPromotion);
    refused(Move::Promotion(Promotion::new(a7, a8, Pieces::Pawn)), fen, MoveError::BadPromotion);
}

#[test]
fn castling_needs_the_right_and_the_pieces_at_home() {
    refused(
        Move::Castle(Castle::new(Sides::White, true)),
        "r3k2r/8/8/8/8/8/8/R3K2R w Qkq - 0 1",
        MoveError::NoCastlingRight,
    );
    refused(
        Move::Castle(Castle::new(Sides::White, true)),
        "r3k2r/8/8/8/8/8/4K3/R6R w KQkq - 0 1",
        MoveError::NotInPlace,
    );
    refused(
        Move::Castle(Castle::new(Sides::Black, false)),
        "4k2r/8/8/8/8/8/8/R3K2R w KQkq - 0 1",
        MoveError::NotInPlace,
    );
    refused(
        Move::Castle(Castle::new(Sides::Black, true)),
        "r3k1nr/8/8/8/8/8/8/R3K2R w KQkq - 0 1",
        MoveError::Occupied,
    );
}

#[test]
fn move_kinds_report_their_capture() {
    let a = Square::new(0, 0);
    let b = Square::new(1, 1);
    assert_eq!(Move::Basic(BasicMove::new(a, b)).capture(), None);
    assert_eq!(Move::Capture(Capture::new(a, b, Pieces::Rook)).capture(), Some(Pieces::Rook));
    assert_eq!(Move::Promotion(Promotion::new(a, b, Pieces::Rook)).capture(), None);
    assert_eq!(Move::Castle(Castle::new(Sides::Black, true)).capture(), None);
}

#[test]
fn place_piece_toggles_a_square() {
    let mut b = Board::default();
    let e4 = Square::new(4, 3);
    b.place_piece(Sides::Black, Pieces::Queen, e4);
    assert_eq!(b.sides[1].0, 1 << 28);
    assert_eq!(b.pieces[1][4].0, 1 << 28);
    assert_eq!(b.piece_at(e4), Some((Sides::Black, Pieces::Queen)));
    assert_eq!(b.get_side(e4), Sides::Black);
    assert_eq!(b.get_piece(e4), Pieces::Queen);
    assert_eq!(b.count_piece(Sides::Black, Pieces::Queen), 1);
    b.place_piece(Sides::Black, Pieces::Queen, e4);
    assert!(same(&b, &Board::default()));
    assert_eq!(b.piece_at(e4), None);
    assert_eq!(b.get_side(e4), Sides::White);
    assert_eq!(b.get_piece(e4), Pieces::Pawn);
}

#[test]
fn the_board_answers_for_its_sides() {
    let b = Board::new();
    assert_eq!(b.occupied().0, 0xFFFF_0000_0000_FFFF);
    assert_eq!(b.empty().0, 0x0000_FFFF_FFFF_0000);
    assert_eq!(b.friendly(Sides::White).0, 0xFFFF);
    assert_eq!(b.enemy(Sides::White).0, 0xFFFF_0000_0000_0000);
    assert_eq!(b.friendly(Sides::Black).0, 0xFFFF_0000_0000_0000);
    assert_eq!(b.enemy(Sides::Black).0, 0xFFFF);
    assert_eq!(b.count_piece(Sides::White, Pieces::Pawn), 8);
    assert_eq!(b.count_piece(Sides::Black, Pieces::Rook), 2);
    assert_eq!(b.count_piece(Sides::Black, Pieces::King), 1);
    assert_eq!(b.get_piece(Square::new(1, 7)), Pieces::Knight);
    assert_eq!(b.get_side(Square::new(1, 7)), Sides::Black);
    assert_eq!(b.pieces[0][1].0, 0x81);
    assert_eq!(b.pieces[1][5].0, 1 << 60);
    assert_eq!(b.pieces[1][4].0, 1 << 59);
}

#[test]
fn a_game_passes_the_turn_on_each_move() {
    let mut game = ChessGame::new();
    assert_eq!(game.turn(), Sides::White);
    assert!(same(game.board(), &Board::new()));
    let m = Move::Basic(BasicMove::new(Square::new(4, 1), Square::new(4, 3)));
    assert_eq!(game.mv(&m), Ok(()));
    assert_eq!(game.turn(), Sides::Black);
    assert_eq!(game.board().piece_at(Square::new(4, 3)), Some((Sides::White, Pieces::Pawn)));
    let before = *game.board();
    assert_eq!(game.mv(&m), Err(MoveError::EmptySource));
    assert_eq!(game.turn(), Sides::Black);
    assert!(same(game.board(), &before));
    let reply = Move::Basic(BasicMove::new(Square::new(4, 6), Square::new(4, 4)));
    assert_eq!(game.boxed_mv(Box::new(reply)), Ok(()));
    assert_eq!(game.turn(), Sides::White);
}

#[test]
fn squares_and_indices() {
    for idx in 0..64usize {
        let s = Square::from_idx(idx);
        assert!(s.on_board());
        assert_eq!(s.idx(), idx);
        assert_eq!(s.file(), idx % 8);
        assert_eq!(s.rank(), idx / 8);
        assert_eq!(Square::new(s.file(), s.rank()), s);
    }
    assert!(!Square::from_idx(64).on_board());
    assert!(!Square::new(8, 0).on_board());
    assert_eq!(Square::new(3, 5).idx(), 43);
}

#[test]
fn sides_and_kinds() {
    assert_eq!(Sides::White.other(), Sides::Black);
    assert_eq!(Sides::Black.other(), Sides::White);
    assert_eq!(Sides::White.index(), 0);
    assert_eq!(Sides::Black.index(), 1);
    let kinds = [
        Pieces::Pawn,
        Pieces::Rook,
        Pieces::Knight,
        Pieces::Bishop,
        Pieces::Queen,
        Pieces::King,
    ];
    let strengths = [10, 50, 30, 30, 90, 900];
    for i in 0..6 {
        assert_eq!(kinds[i].index(), i);
        assert_eq!(Pieces::from_index(i), kinds[i]);
        assert_eq!(kinds[i].relative_strength(), strengths[i]);
    }
    assert_eq!(MoveRights::new().allows(Sides::Black, false), true);
    assert_eq!(MoveRights::default().allows(Sides::Black, false), false);
}

#[test]
fn a_board_knows_whether_it_is_well_formed() {
    assert!(Board::new().is_valid());
    assert!(Board::default().is_valid());
    let mut b = Board::new();
    b.sides[0].0 |= 1 << 30;
    assert!(!b.is_valid());
    let mut b = Board::new();
    b.pieces[1][3].0 |= 1 << 8;
    assert!(!b.is_valid());
    let mut b = Board::new();
    b.pieces[0][2].0 |= 1 << 8;
    assert!(!b.is_valid());
    let mut b = Board::default();
    b.place_piece(Sides::White, Pieces::Queen, Square::new(3, 3));
    assert!(b.is_valid());
    b.place_piece(Sides::Black, Pieces::Queen, Square::new(3, 3));
    assert!(!b.is_valid());
    b.place_piece(Sides::White, Pieces::Queen, Square::new(3, 3));
    assert!(b.is_valid());
}

#[test]
fn a_move_knows_whether_its_squares_are_on_the_board() {
    let a1 = Square::new(0, 0);
    assert!(Move::Basic(BasicMove::new(a1, Square::new(7, 7))).is_on_board());
    assert!(!Move::Basic(BasicMove::new(a1, Square::new(7, 8))).is_on_board());
    assert!(!Move::Capture(Capture::new(Square::new(8, 0), a1, Pieces::Pawn)).is_on_board());
    assert!(Move::Castle(Castle::new(Sides::White, true)).is_on_board());
}
