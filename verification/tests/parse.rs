use chess_engine::{Board, MoveRights, ParseError, ParseReason, Pieces, Sides, Square};

fn refuse(text: &str) -> ParseError {
    match Board::from_fen(text.to_string()) {
        Ok(_) => panic!("accepted {}", text),
        Err(e) => e,
    }
}

#[test]
fn the_start_position_is_the_standard_layout() {
    let parsed =
        Board::from_fen("rnbqkbnr/pppppppp/8/8/8/8/PPPPPPPP/RNBQKBNR w - - 0 1".to_string())
            .unwrap();
    let start = Board::new();
    assert_eq!(parsed.pieces, start.pieces);
    assert_eq!(parsed.sides, start.sides);
    assert_eq!(parsed.move_rights, start.move_rights);
    assert_eq!(start.move_rights, MoveRights::default());
    assert_eq!(start.piece_at(Square::new(4, 0)), Some((Sides::White, Pieces::King)));
    assert_eq!(start.piece_at(Square::new(3, 0)), Some((Sides::White, Pieces::Queen)));
    assert_eq!(start.piece_at(Square::new(4, 7)), Some((Sides::Black, Pieces::King)));
    assert_eq!(start.piece_at(Square::new(3, 7)), Some((Sides::Black, Pieces::Queen)));
    assert_eq!(start.sides[0].0, 0xFFFF);
    assert_eq!(start.sides[1].0, 0xFFFF_0000_0000_0000);
}

#[test]
fn every_square_is_read_back_as_written() {
    let text = "r1bqk2r/pp1n1ppp/2p1pn2/3p4/1bPP4/2N1PN2/PP1B1PPP/R2QKB1R";
    let board = Board::from_placement(text).unwrap();
    let letters = ["PRNBQK", "prnbqk"];
    let mut ranks: Vec<String> = Vec::new();
    for rank in (0..8).rev() {
        let mut line = String::new();
        let mut run = 0;
        for file in 0..8 {
            match board.piece_at(Square::new(file, rank)) {
                None => run += 1,
                Some((side, kind)) => {
                    if run > 0 {
                        line.push_str(&run.to_string());
                        run = 0;
                    }
                    line.push(letters[side.index()].chars().nth(kind.index()).unwrap());
                }
            }
        }
        if run > 0 {
            line.push_str(&run.to_string());
        }
        ranks.push(line);
    }
    assert_eq!(ranks.join("/"), text);
    assert_eq!(board.placement(), text);
}

#[test]
fn a_board_is_written_and_read_back() {
    for text in [
        "8/8/8/8/8/8/8/8",
        "rnbqkbnr/pppppppp/8/8/8/8/PPPPPPPP/RNBQKBNR",
        "7k/P7/8/8/8/8/8/K7",
        "1r1r1r1r/R1R1R1R1/8/3qQ3/8/pppppppp/1P1P1P1P/k6K",
    ] {
        let board = Board::from_placement(text).unwrap();
        assert_eq!(board.placement(), text);
        let again = Board::from_placement(&board.placement()).unwrap();
        assert_eq!(again.pieces, board.pieces);
        assert_eq!(again.sides, board.sides);
    }
    assert_eq!(Board::new().placement(), "rnbqkbnr/pppppppp/8/8/8/8/PPPPPPPP/RNBQKBNR");
    assert_eq!(Board::default().placement(), "8/8/8/8/8/8/8/8");
}

#[test]
fn digits_may_be_split_but_are_written_joined() {
    let board = Board::from_placement("8/8/8/8/8/8/8/44").unwrap();
    assert_eq!(board.occupied().0, 0);
    assert_eq!(board.placement(), "8/8/8/8/8/8/8/8");
    let board = Board::from_placement("8/8/8/8/8/8/8/0k07").unwrap();
    assert_eq!(board.piece_at(Square::new(0, 0)), Some((Sides::Black, Pieces::King)));
    assert_eq!(board.placement(), "8/8/8/8/8/8/8/k7");
}

#[test]
fn rights_are_read_from_the_third_field() {
    let b = Board::from_fen("8/8/8/8/8/8/8/8 w KQkq - 0 1".to_string()).unwrap();
    assert_eq!(b.move_rights, MoveRights::new());
    let b = Board::from_fen("8/8/8/8/8/8/8/8 w Kq".to_string()).unwrap();
    assert!(b.move_rights.white_king_side && b.move_rights.black_queen_side);
    assert!(!b.move_rights.white_queen_side && !b.move_rights.black_king_side);
    assert!(b.move_rights.allows(Sides::White, true));
    assert!(!b.move_rights.allows(Sides::White, false));
    let b = Board::from_fen("8/8/8/8/8/8/8/8 b - - 0 1".to_string()).unwrap();
    assert_eq!(b.move_rights, MoveRights::default());
    let b = Board::from_fen("8/8/8/8/8/8/8/8 b Q-zz".to_string()).unwrap();
    assert!(b.move_rights.white_queen_side);
    let b = Board::from_fen("8/8/8/8/8/8/8/8 anything  ".to_string()).unwrap();
    assert_eq!(b.move_rights, MoveRights::default());
}

#[test]
fn the_other_fields_are_not_looked_at() {
    let a = Board::from_fen("7k/8/8/8/8/8/8/K7 w - - 0 1".to_string()).unwrap();
    let b = Board::from_fen("7k/8/8/8/8/8/8/K7 b - e3 12 40".to_string()).unwrap();
    let c = Board::from_fen("7k/8/8/8/8/8/8/K7 ?? -".to_string()).unwrap();
    assert_eq!(a.pieces, b.pieces);
    assert_eq!(a.pieces, c.pieces);
    assert_eq!(a.move_rights, c.move_rights);
}

#[test]
fn an_unknown_piece_letter_is_refused() {
    assert_eq!(
        refuse("7k/8/8/8/3x4/8/8/K7 w - - 0 1"),
        ParseError { reason: ParseReason::UnknownPiece, position: 10 }
    );
    assert_eq!(
        refuse("♟7/8/8/8/8/8/8/8 w -"),
        ParseError { reason: ParseReason::UnknownPiece, position: 0 }
    );
}

#[test]
fn a_bad_castling_letter_is_refused() {
    assert_eq!(
        refuse("8/8/8/8/8/8/8/8 w KQx - 0 1"),
        ParseError { reason: ParseReason::BadCastling, position: 20 }
    );
}

#[test]
fn a_missing_rights_field_is_refused() {
    assert_eq!(
        refuse("8/8/8/8/8/8/8/8"),
        ParseError { reason: ParseReason::MissingRights, position: 15 }
    );
    assert_eq!(
        refuse("8/8/8/8/8/8/8/8 w"),
        ParseError { reason: ParseReason::MissingRights, position: 17 }
    );
}

#[test]
fn ranks_must_have_eight_files() {
    assert_eq!(
        refuse("8/8/8/8/8/8/8/7 w -"),
        ParseError { reason: ParseReason::RankTooShort, position: 15 }
    );
    assert_eq!(
        refuse("7/8/8/8/8/8/8/8 w -"),
        ParseError { reason: ParseReason::RankTooShort, position: 1 }
    );
    assert_eq!(
        refuse("8p/8/8/8/8/8/8/8 w -"),
        ParseError { reason: ParseReason::RankTooLong, position: 1 }
    );
    assert_eq!(
        refuse("pppp5/8/8/8/8/8/8/8 w -"),
        ParseError { reason: ParseReason::RankTooLong, position: 4 }
    );
    assert_eq!(
        refuse("9/8/8/8/8/8/8/8 w -"),
        ParseError { reason: ParseReason::RankTooLong, position: 0 }
    );
}

#[test]
fn there_must_be_eight_ranks() {
    assert_eq!(
        refuse("8/8/8/8/8/8/8 w -"),
        ParseError { reason: ParseReason::TooFewRanks, position: 13 }
    );
    assert_eq!(refuse(""), ParseError { reason: ParseReason::TooFewRanks, position: 0 });
    assert_eq!(
        refuse("8/8/8/8/8/8/8/8/8 w -"),
        ParseError { reason: ParseReason::TooManyRanks, position: 15 }
    );
}

#[test]
fn a_placement_alone_has_no_rights() {
    let b = Board::from_placement("r3k2r/8/8/8/8/8/8/R3K2R").unwrap();
    assert_eq!(b.move_rights, MoveRights::default());
    assert_eq!(
        Board::from_placement("r3k2r/8/8/8/8/8/8/R3K2R w").unwrap_err(),
        ParseError { reason: ParseReason::UnknownPiece, position: 23 }
    );
}
