use chess_engine::{BasicMove, Bitboard, Board, Capture, Castle, Move, Pieces, Promotion, Sides, Square};

#[test]
fn squares_are_named_by_file_and_rank() {
    assert_eq!(Square::new(0, 0).render(), "a1");
    assert_eq!(Square::new(4, 3).render(), "e4");
    assert_eq!(Square::new(7, 7).render(), "h8");
    assert_eq!(Square::new(0, 0).to_algebraic(), "a0");
    assert_eq!(Square::new(7, 7).to_algebraic(), "h7");
    assert_eq!(Square::new(2, 5).to_algebraic(), "c5");
}

#[test]
fn kinds_are_named() {
    assert_eq!(Pieces::Pawn.render(), "Pawn");
    assert_eq!(Pieces::Rook.render(), "Rook");
    assert_eq!(Pieces::Knight.render(), "Knight");
    assert_eq!(Pieces::Bishop.render(), "Bishop");
    assert_eq!(Pieces::Queen.render(), "Queen");
    assert_eq!(Pieces::King.render(), "King");
}

#[test]
fn moves_are_written_out() {
    let e2 = Square::new(4, 1);
    let e4 = Square::new(4, 3);
    assert_eq!(BasicMove::new(e2, e4).render(), "e2 -> e4");
    assert_eq!(Move::Basic(BasicMove::new(e2, e4)).render(), "e2 -> e4");
    assert_eq!(
        Move::Capture(Capture::new(e4, Square::new(3, 4), Pieces::Pawn)).render(),
        "e4 -> d5 capturing Pawn"
    );
    assert_eq!(
        Move::Promotion(Promotion::new(Square::new(0, 6), Square::new(0, 7), Pieces::Queen)).render(),
        "a7 -> a8 promoting to Queen"
    );
    assert_eq!(Move::Castle(Castle::new(Sides::White, true)).render(), "Castle king side");
    assert_eq!(Move::Castle(Castle::new(Sides::Black, false)).render(), "Castle queen side");
}

#[test]
fn the_board_is_drawn_from_the_eighth_rank_down() {
    let picture = Board::new().render();
    let lines: Vec<&str> = picture.lines().collect();
    assert_eq!(
        lines,
        vec![
            "♖♘♗♕♔♗♘♖",
            "♙♙♙♙♙♙♙♙",
            "++++++++",
            "++++++++",
            "++++++++",
            "++++++++",
            "♟♟♟♟♟♟♟♟",
            "♜♞♝♛♚♝♞♜",
        ]
    );
    assert!(picture.ends_with('\n'));
    assert_eq!(picture.chars().count(), 72);
    let b = Board::from_placement("7k/P7/8/8/8/8/8/K7").unwrap();
    assert_eq!(
        b.render(),
        "+++++++♔\n♟+++++++\n++++++++\n++++++++\n++++++++\n++++++++\n++++++++\n♚+++++++\n"
    );
}

#[test]
fn a_bitboard_is_drawn_in_bits() {
    assert_eq!(
        Bitboard(0x8000_0000_0000_FF01).render(),
        "00000001\n00000000\n00000000\n00000000\n00000000\n00000000\n11111111\n10000000\n"
    );
}
