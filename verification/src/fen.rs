//! Reading a position from text.
//!
//! The text has fields separated by single spaces. The first is the
//! placement: eight ranks from the eighth down to the first, separated by
//! `/`, each listing its files from `a` to `h` with a letter for a piece
//! (upper case for White, lower case for Black) and a digit for a run of
//! empty squares. The third is the castling rights, letters out of `KQkq`,
//! read up to its end or to the first `-`. Other fields are not looked at.

use vstd::prelude::*;
use vstd::string::*;
use crate::board::{Board, MoveRights};
use crate::pieces::{Pieces, Sides};
use crate::position::{Cell, Position};
use crate::square::Square;

verus! {

/// What is wrong with a text.
#[derive(Clone, Copy, Debug, PartialEq, Eq, Structural)]
pub enum ParseReason {
    /// A character of the placement is no piece letter, digit or `/`.
    UnknownPiece,
    /// A rank lists more than eight files.
    RankTooLong,
    /// A rank lists fewer than eight files.
    RankTooShort,
    /// The placement has more than eight ranks.
    TooManyRanks,
    /// The placement has fewer than eight ranks.
    TooFewRanks,
    /// The text has no third field.
    MissingRights,
    /// A character of the castling rights is none of `KQkq-`.
    BadCastling,
}

/// Why a text was refused, and the index of the character at which.
#[derive(Clone, Copy, Debug, PartialEq, Eq, Structural)]
pub struct ParseError {
    pub reason: ParseReason,
    pub position: usize,
}

/// The piece that a letter of the placement stands for.
pub open spec fn piece_letter(c: char) -> Cell {
    if c == 'P' {
        Some((Sides::White, Pieces::Pawn))
    } else if c == 'R' {
        Some((Sides::White, Pieces::Rook))
    } else if c == 'N' {
        Some((Sides::White, Pieces::Knight))
    } else if c == 'B' {
        Some((Sides::White, Pieces::Bishop))
    } else if c == 'Q' {
        Some((Sides::White, Pieces::Queen))
    } else if c == 'K' {
        Some((Sides::White, Pieces::King))
    } else if c == 'p' {
        Some((Sides::Black, Pieces::Pawn))
    } else if c == 'r' {
        Some((Sides::Black, Pieces::Rook))
    } else if c == 'n' {
        Some((Sides::Black, Pieces::Knight))
    } else if c == 'b' {
        Some((Sides::Black, Pieces::Bishop))
    } else if c == 'q' {
        Some((Sides::Black, Pieces::Queen))
    } else if c == 'k' {
        Some((Sides::Black, Pieces::King))
    } else {
        None
    }
}

/// The number that a decimal digit stands for.
pub open spec fn digit_value(c: char) -> Option<int> {
    if c == '0' {
        Some(0)
    } else if c == '1' {
        Some(1)
    } else if c == '2' {
        Some(2)
    } else if c == '3' {
        Some(3)
    } else if c == '4' {
        Some(4)
    } else if c == '5' {
        Some(5)
    } else if c == '6' {
        Some(6)
    } else if c == '7' {
        Some(7)
    } else if c == '8' {
        Some(8)
    } else if c == '9' {
        Some(9)
    } else {
        None
    }
}

/// Where the reading of a placement stands: the cells filled so far, the
/// number of ranks completed, and the number of files read of the current
/// rank.
pub struct Cursor {
    pub cells: Seq<Cell>,
    pub rank: int,
    pub file: int,
}

/// The cursor before anything is read: an empty board.
pub open spec fn start_cursor() -> Cursor {
    Cursor { cells: Seq::new(64, |sq: int| None), rank: 0, file: 0 }
}

/// The error with the given reason at index `at`.
pub open spec fn error_at(reason: ParseReason, at: int) -> ParseError {
    ParseError { reason, position: at as usize }
}

/// Reads one character of a placement.
pub open spec fn read_char(cur: Cursor, c: char, at: int) -> Result<Cursor, ParseError> {
    if c == '/' {
        if cur.file != 8 {
            Err(error_at(ParseReason::RankTooShort, at))
        } else if cur.rank >= 7 {
            Err(error_at(ParseReason::TooManyRanks, at))
        } else {
            Ok(Cursor { cells: cur.cells, rank: cur.rank + 1, file: 0 })
        }
    } else if digit_value(c) is Some {
        if cur.file + digit_value(c).unwrap() > 8 {
            Err(error_at(ParseReason::RankTooLong, at))
        } else {
            Ok(Cursor { cells: cur.cells, rank: cur.rank, file: cur.file + digit_value(c).unwrap() })
        }
    } else if piece_letter(c) is Some {
        if cur.file >= 8 {
            Err(error_at(ParseReason::RankTooLong, at))
        } else {
            Ok(
                Cursor {
                    cells: cur.cells.update((7 - cur.rank) * 8 + cur.file, piece_letter(c)),
                    rank: cur.rank,
                    file: cur.file + 1,
                },
            )
        }
    } else {
        Err(error_at(ParseReason::UnknownPiece, at))
    }
}

/// Reads the characters of `text` from index `i` up to `end`.
pub open spec fn read_from(text: Seq<char>, i: int, end: int, cur: Cursor) -> Result<
    Cursor,
    ParseError,
>
    decreases end - i,
{
    if i >= end {
        Ok(cur)
    } else {
        match read_char(cur, text[i], i) {
            Err(e) => Err(e),
            Ok(next) => read_from(text, i + 1, end, next),
        }
    }
}

/// The cells that the first `end` characters of `text` describe as a
/// placement, or the first error in them.
pub open spec fn placement_of(text: Seq<char>, end: int) -> Result<Seq<Cell>, ParseError> {
    match read_from(text, 0, end, start_cursor()) {
        Err(e) => Err(e),
        Ok(cur) => if cur.rank != 7 {
            Err(error_at(ParseReason::TooFewRanks, end))
        } else if cur.file != 8 {
            Err(error_at(ParseReason::RankTooShort, end))
        } else {
            Ok(cur.cells)
        },
    }
}

/// The rights with the one added that a letter of the rights field names.
pub open spec fn read_right(rights: MoveRights, c: char) -> Option<MoveRights> {
    if c == 'K' {
        Some(
            MoveRights {
                white_king_side: true,
                white_queen_side: rights.white_queen_side,
                black_king_side: rights.black_king_side,
                black_queen_side: rights.black_queen_side,
            },
        )
    } else if c == 'Q' {
        Some(
            MoveRights {
                white_king_side: rights.white_king_side,
                white_queen_side: true,
                black_king_side: rights.black_king_side,
                black_queen_side: rights.black_queen_side,
            },
        )
    } else if c == 'k' {
        Some(
            MoveRights {
                white_king_side: rights.white_king_side,
                white_queen_side: rights.white_queen_side,
                black_king_side: true,
                black_queen_side: rights.black_queen_side,
            },
        )
    } else if c == 'q' {
        Some(
            MoveRights {
                white_king_side: rights.white_king_side,
                white_queen_side: rights.white_queen_side,
                black_king_side: rights.black_king_side,
                black_queen_side: true,
            },
        )
    } else {
        None
    }
}

/// Reads castling rights from index `i` of `text` up to `end` or to the
/// first `-`.
pub open spec fn rights_from(text: Seq<char>, i: int, end: int, rights: MoveRights) -> Result<
    MoveRights,
    ParseError,
>
    decreases end - i,
{
    if i >= end || text[i] == '-' {
        Ok(rights)
    } else {
        match read_right(rights, text[i]) {
            None => Err(error_at(ParseReason::BadCastling, i)),
            Some(more) => rights_from(text, i + 1, end, more),
        }
    }
}

/// The index of the first space of `text` at or after `from`, or the
/// length of `text` if there is none.
pub open spec fn field_end(text: Seq<char>, from: int) -> int
    decreases text.len() - from,
{
    if from >= text.len() {
        text.len() as int
    } else if text[from] == ' ' {
        from
    } else {
        field_end(text, from + 1)
    }
}

/// The position that a text describes, or the first error in it: first in
/// the placement, then in the rights.
pub open spec fn parse_fen(text: Seq<char>) -> Result<Position, ParseError> {
    let placement_end = field_end(text, 0);
    match placement_of(text, placement_end) {
        Err(e) => Err(e),
        Ok(cells) => {
            let second_end = field_end(text, placement_end + 1);
            if placement_end >= text.len() || second_end >= text.len() {
                Err(error_at(ParseReason::MissingRights, text.len() as int))
            } else {
                let rights_end = field_end(text, second_end + 1);
                match rights_from(text, second_end + 1, rights_end, MoveRights::spec_none()) {
                    Err(e) => Err(e),
                    Ok(rights) => Ok(Position { cells, rights }),
                }
            }
        },
    }
}

/// Whether the square was passed before the cursor's place, reading the
/// ranks from the eighth down and each rank from file `a`.
pub open spec fn passed(sq: int, rank: int, file: int) -> bool {
    7 - sq / 8 < rank || (7 - sq / 8 == rank && sq % 8 < file)
}

/// The piece that a letter of the placement stands for.
fn piece_for(c: char) -> (r: Cell)
    ensures
        r == piece_letter(c),
{
    if c == 'P' {
        Some((Sides::White, Pieces::Pawn))
    } else if c == 'R' {
        Some((Sides::White, Pieces::Rook))
    } else if c == 'N' {
        Some((Sides::White, Pieces::Knight))
    } else if c == 'B' {
        Some((Sides::White, Pieces::Bishop))
    } else if c == 'Q' {
        Some((Sides::White, Pieces::Queen))
    } else if c == 'K' {
        Some((Sides::White, Pieces::King))
    } else if c == 'p' {
        Some((Sides::Black, Pieces::Pawn))
    } else if c == 'r' {
        Some((Sides::Black, Pieces::Rook))
    } else if c == 'n' {
        Some((Sides::Black, Pieces::Knight))
    } else if c == 'b' {
        Some((Sides::Black, Pieces::Bishop))
    } else if c == 'q' {
        Some((Sides::Black, Pieces::Queen))
    } else if c == 'k' {
        Some((Sides::Black, Pieces::King))
    } else {
        None
    }
}

/// The number that a decimal digit stands for.
fn digit_for(c: char) -> (r: Option<usize>)
    ensures
        r is Some <==> digit_value(c) is Some,
        r is Some ==> r.unwrap() == digit_value(c).unwrap(),
        r is Some ==> r.unwrap() <= 9,
{
    if c == '0' {
        Some(0)
    } else if c == '1' {
        Some(1)
    } else if c == '2' {
        Some(2)
    } else if c == '3' {
        Some(3)
    } else if c == '4' {
        Some(4)
    } else if c == '5' {
        Some(5)
    } else if c == '6' {
        Some(6)
    } else if c == '7' {
        Some(7)
    } else if c == '8' {
        Some(8)
    } else if c == '9' {
        Some(9)
    } else {
        None
    }
}

/// The index of the first space of `text` at or after `from`.
fn find_field_end(text: &str, from: usize, len: usize) -> (end: usize)
    requires
        len == text@.len(),
    ensures
        end == field_end(text@, from as int),
        end <= len,
        from <= len ==> from <= end,
{
    let mut i = from;
    while i < len
        invariant
            len == text@.len(),
            from <= i,
            field_end(text@, i as int) == field_end(text@, from as int),
        decreases len - i,
    {
        if text.get_char(i) == ' ' {
            return i;
        }
        i = i + 1;
    }
    len
}

/// Reads the first `end` characters of `text` as a placement.
fn read_placement(text: &str, end: usize) -> (r: Result<Board, ParseError>)
    requires
        end <= text@.len(),
    ensures
        match placement_of(text@, end as int) {
            Ok(cells) => r is Ok && r.unwrap().wf() && r.unwrap()@.cells == cells && r.unwrap()@.rights
                == MoveRights::spec_none(),
            Err(e) => r == Err::<Board, ParseError>(e),
        },
{
    let mut board = Board::default();
    let mut rank: usize = 0;
    let mut file: usize = 0;
    let mut i: usize = 0;
    let ghost goal = read_from(text@, 0, end as int, start_cursor());
    assert(board@.cells =~= start_cursor().cells);
    while i < end
        invariant
            i <= end <= text@.len(),
            rank <= 7,
            file <= 8,
            board.wf(),
            board@.rights == MoveRights::spec_none(),
            goal == read_from(text@, 0, end as int, start_cursor()),
            read_from(
                text@,
                i as int,
                end as int,
                Cursor { cells: board@.cells, rank: rank as int, file: file as int },
            ) == goal,
            forall|sq: int|
                0 <= sq < 64 && (#[trigger] board@.cells[sq]) is Some ==> passed(
                    sq,
                    rank as int,
                    file as int,
                ),
        decreases end - i,
    {
        let c = text.get_char(i);
        let ghost cur = Cursor { cells: board@.cells, rank: rank as int, file: file as int };
        if c == '/' {
            if file != 8 {
                return Err(ParseError { reason: ParseReason::RankTooShort, position: i });
            }
            if rank >= 7 {
                return Err(ParseError { reason: ParseReason::TooManyRanks, position: i });
            }
            rank = rank + 1;
            file = 0;
        } else {
            match digit_for(c) {
                Some(d) => {
                    if file + d > 8 {
                        return Err(ParseError { reason: ParseReason::RankTooLong, position: i });
                    }
                    file = file + d;
                },
                None => {
                    match piece_for(c) {
                        Some((side, kind)) => {
                            if file >= 8 {
                                return Err(
                                    ParseError { reason: ParseReason::RankTooLong, position: i },
                                );
                            }
                            let ghost sq = (7 - rank) * 8 + file;
                            assert(!passed(sq, rank as int, file as int));
                            board.place_piece(side, kind, Square::new(file, 7 - rank));
                            assert(board@.cells =~= cur.cells.update(sq, Some((side, kind))));
                            file = file + 1;
                        },
                        None => {
                            return Err(
                                ParseError { reason: ParseReason::UnknownPiece, position: i },
                            );
                        },
                    }
                },
            }
        }
        i = i + 1;
    }
    if rank != 7 {
        return Err(ParseError { reason: ParseReason::TooFewRanks, position: end });
    }
    if file != 8 {
        return Err(ParseError { reason: ParseReason::RankTooShort, position: end });
    }
    Ok(board)
}

/// Reads castling rights from index `start` of `text` up to `end`.
fn read_rights(text: &str, start: usize, end: usize) -> (r: Result<MoveRights, ParseError>)
    requires
        start <= end <= text@.len(),
    ensures
        r == rights_from(text@, start as int, end as int, MoveRights::spec_none()),
{
    let mut rights = MoveRights::default();
    let mut i = start;
    let ghost goal = rights_from(text@, start as int, end as int, MoveRights::spec_none());
    while i < end
        invariant
            start <= i <= end <= text@.len(),
            goal == rights_from(text@, start as int, end as int, MoveRights::spec_none()),
            rights_from(text@, i as int, end as int, rights) == goal,
        decreases end - i,
    {
        let c = text.get_char(i);
        if c == '-' {
            return Ok(rights);
        } else if c == 'K' {
            rights.white_king_side = true;
        } else if c == 'Q' {
            rights.white_queen_side = true;
        } else if c == 'k' {
            rights.black_king_side = true;
        } else if c == 'q' {
            rights.black_queen_side = true;
        } else {
            return Err(ParseError { reason: ParseReason::BadCastling, position: i });
        }
        i = i + 1;
    }
    Ok(rights)
}

/// How the outcome of reading a text relates to what the text describes: a
/// well-formed board that stands for the position, or the same error.
pub open spec fn parsed(outcome: Result<Position, ParseError>, returned: Result<Board, ParseError>) -> bool {
    match outcome {
        Ok(pos) => returned is Ok && returned.unwrap().wf() && returned.unwrap()@ == pos,
        Err(e) => returned == Err::<Board, ParseError>(e),
    }
}

/// The position with the cells that a placement describes and no rights.
pub open spec fn parse_placement_text(text: Seq<char>) -> Result<Position, ParseError> {
    match placement_of(text, text.len() as int) {
        Ok(cells) => Ok(Position { cells, rights: MoveRights::spec_none() }),
        Err(e) => Err(e),
    }
}

impl Board {
    /// Reads a placement alone: the board it describes, without castling
    /// rights, or the first error in it.
    pub fn from_placement(text: &str) -> (r: Result<Board, ParseError>)
        ensures
            parsed(parse_placement_text(text@), r),
    {
        let len = text.unicode_len();
        read_placement(text, len)
    }

    /// Reads a position: placement and castling rights.
    pub fn from_fen(input: String) -> (r: Result<Board, ParseError>)
        ensures
            parsed(parse_fen(input@), r),
    {
        let text = input.as_str();
        let len = text.unicode_len();
        let placement_end = find_field_end(text, 0, len);
        match read_placement(text, placement_end) {
            Err(e) => Err(e),
            Ok(board) => {
                if placement_end >= len {
                    return Err(ParseError { reason: ParseReason::MissingRights, position: len });
                }
                let second_end = find_field_end(text, placement_end + 1, len);
                if second_end >= len {
                    return Err(ParseError { reason: ParseReason::MissingRights, position: len });
                }
                let rights_end = find_field_end(text, second_end + 1, len);
                match read_rights(text, second_end + 1, rights_end) {
                    Err(e) => Err(e),
                    Ok(rights) => {
                        let mut board = board;
                        board.set_rights(rights);
                        Ok(board)
                    },
                }
            },
        }
    }
}

} // verus!
