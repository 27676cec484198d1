//! Writing the placement of a board as text, and why reading it back
//! gives the same board.

use vstd::prelude::*;
use vstd::string::*;
use crate::board::Board;
use crate::fen::{
    digit_value,
    parse_placement_text,
    passed,
    piece_letter,
    placement_of,
    read_char,
    read_from,
    start_cursor,
    Cursor,
};
use crate::pieces::{Pieces, Sides};
use crate::position::Cell;
use crate::square::Square;
use crate::text::digit_char;

verus! {

/// The letter for a piece: upper case for White, lower case for Black.
pub open spec fn cell_letter(piece: (Sides, Pieces)) -> char {
    match piece {
        (Sides::White, Pieces::Pawn) => 'P',
        (Sides::White, Pieces::Rook) => 'R',
        (Sides::White, Pieces::Knight) => 'N',
        (Sides::White, Pieces::Bishop) => 'B',
        (Sides::White, Pieces::Queen) => 'Q',
        (Sides::White, Pieces::King) => 'K',
        (Sides::Black, Pieces::Pawn) => 'p',
        (Sides::Black, Pieces::Rook) => 'r',
        (Sides::Black, Pieces::Knight) => 'n',
        (Sides::Black, Pieces::Bishop) => 'b',
        (Sides::Black, Pieces::Queen) => 'q',
        (Sides::Black, Pieces::King) => 'k',
    }
}

/// The digit for a run of empty squares; nothing for an empty run.
pub open spec fn run_text(run: int) -> Seq<char> {
    if run <= 0 {
        Seq::empty()
    } else {
        seq![digit_char(run)]
    }
}

/// The text of a rank from `file` on, where `run` empty squares before
/// `file` are still to be written.
pub open spec fn rank_text(cells: Seq<Cell>, rank: int, file: int, run: int) -> Seq<char>
    decreases 8 - file,
{
    if file >= 8 {
        run_text(run)
    } else {
        match cells[rank * 8 + file] {
            None => rank_text(cells, rank, file + 1, run + 1),
            Some(piece) => run_text(run) + seq![cell_letter(piece)] + rank_text(
                cells,
                rank,
                file + 1,
                0,
            ),
        }
    }
}

/// The text of the ranks from `rank` down to the first, separated by `/`.
pub open spec fn ranks_text(cells: Seq<Cell>, rank: int) -> Seq<char>
    decreases rank,
{
    if rank <= 0 {
        rank_text(cells, 0, 0, 0)
    } else {
        rank_text(cells, rank, 0, 0) + seq!['/'] + ranks_text(cells, rank - 1)
    }
}

/// The placement of the cells as text: the ranks from the eighth to the
/// first, each with a letter for a piece and one digit for each longest run
/// of empty squares.
pub open spec fn placement_text(cells: Seq<Cell>) -> Seq<char> {
    ranks_text(cells, 7)
}

/// Reads all of `t`, forgetting where an error occurred.
spec fn read_seq(t: Seq<char>, cur: Cursor) -> Option<Cursor>
    decreases t.len(),
{
    if t.len() == 0 {
        Some(cur)
    } else {
        match read_char(cur, t[0], 0) {
            Ok(next) => read_seq(t.drop_first(), next),
            Err(_) => None,
        }
    }
}

/// The cells read so far when the cursor stands at the given place: those
/// of `cells` on the squares passed, nothing on the others.
spec fn filled(cells: Seq<Cell>, rank: int, file: int) -> Seq<Cell> {
    Seq::new(
        64,
        |sq: int|
            if passed(sq, rank, file) {
                cells[sq]
            } else {
                None
            },
    )
}

proof fn lemma_read_from_range(text: Seq<char>, i: int, end: int, cur: Cursor)
    requires
        0 <= i <= end <= text.len(),
        read_seq(text.subrange(i, end), cur) is Some,
    ensures
        read_from(text, i, end, cur) == Ok::<Cursor, crate::fen::ParseError>(
            read_seq(text.subrange(i, end), cur).unwrap(),
        ),
    decreases end - i,
{
    if i < end {
        let t = text.subrange(i, end);
        assert(t[0] == text[i]);
        assert(t.drop_first() =~= text.subrange(i + 1, end));
        let next = read_char(cur, text[i], 0);
        assert(next is Ok);
        assert(read_char(cur, text[i], i) == next);
        lemma_read_from_range(text, i + 1, end, next.unwrap());
    }
}

proof fn lemma_read_seq_concat(a: Seq<char>, b: Seq<char>, cur: Cursor)
    ensures
        read_seq(a + b, cur) == match read_seq(a, cur) {
            Some(mid) => read_seq(b, mid),
            None => None,
        },
    decreases a.len(),
{
    if a.len() == 0 {
        assert(a + b =~= b);
    } else {
        assert((a + b)[0] == a[0]);
        assert((a + b).drop_first() =~= a.drop_first() + b);
        match read_char(cur, a[0], 0) {
            Ok(next) => {
                lemma_read_seq_concat(a.drop_first(), b, next);
            },
            Err(_) => {},
        }
    }
}

proof fn lemma_read_one(c: char, cur: Cursor)
    ensures
        read_seq(seq![c], cur) == match read_char(cur, c, 0) {
            Ok(next) => Some(next),
            Err(_) => None,
        },
{
    let t = seq![c];
    assert(t[0] == c);
    assert(t.drop_first() =~= Seq::<char>::empty());
    match read_char(cur, c, 0) {
        Ok(next) => {
            assert(read_seq(t.drop_first(), next) == Some(next));
        },
        Err(_) => {},
    }
}

/// A letter written for a piece is read as that piece, and is neither a
/// digit nor the separator; a digit written for a run is read as its length.
proof fn lemma_letters_and_digits(piece: (Sides, Pieces), run: int)
    ensures
        piece_letter(cell_letter(piece)) == Some(piece),
        digit_value(cell_letter(piece)) is None,
        cell_letter(piece) != '/',
        1 <= run <= 8 ==> digit_value(digit_char(run)) == Some(run) && digit_char(run) != '/',
{
}

proof fn lemma_read_run(run: int, cur: Cursor)
    requires
        0 <= run <= 8,
        0 <= cur.file,
        cur.file + run <= 8,
    ensures
        read_seq(run_text(run), cur) == Some(
            Cursor { cells: cur.cells, rank: cur.rank, file: cur.file + run },
        ),
{
    if run > 0 {
        lemma_letters_and_digits((Sides::White, Pieces::Pawn), run);
        lemma_read_one(digit_char(run), cur);
    }
}

proof fn lemma_read_rank(cells: Seq<Cell>, rank: int, file: int, run: int, cur: Cursor)
    requires
        cells.len() == 64,
        0 <= rank <= 7,
        0 <= run <= file <= 8,
        cur.rank == 7 - rank,
        cur.file == file - run,
        cur.cells == filled(cells, 7 - rank, file),
    ensures
        read_seq(rank_text(cells, rank, file, run), cur) == Some(
            Cursor { cells: filled(cells, 7 - rank, 8), rank: 7 - rank, file: 8 },
        ),
    decreases 8 - file,
{
    if file >= 8 {
        lemma_read_run(run, cur);
    } else {
        let sq = rank * 8 + file;
        match cells[sq] {
            None => {
                assert(filled(cells, 7 - rank, file + 1) =~= filled(cells, 7 - rank, file));
                lemma_read_rank(cells, rank, file + 1, run + 1, cur);
            },
            Some(piece) => {
                let rest = rank_text(cells, rank, file + 1, 0);
                let letter = seq![cell_letter(piece)];
                let at_file = Cursor { cells: cur.cells, rank: cur.rank, file: file };
                let after = Cursor {
                    cells: filled(cells, 7 - rank, file + 1),
                    rank: cur.rank,
                    file: file + 1,
                };
                lemma_read_run(run, cur);
                lemma_letters_and_digits(piece, 1);
                lemma_read_one(cell_letter(piece), at_file);
                assert(cur.cells.update(sq, Some(piece)) =~= filled(cells, 7 - rank, file + 1));
                assert(read_seq(letter, at_file) == Some(after));
                lemma_read_rank(cells, rank, file + 1, 0, after);
                lemma_read_seq_concat(run_text(run), letter, cur);
                lemma_read_seq_concat(run_text(run) + letter, rest, cur);
            },
        }
    }
}

proof fn lemma_read_ranks(cells: Seq<Cell>, rank: int, cur: Cursor)
    requires
        cells.len() == 64,
        0 <= rank <= 7,
        cur == (Cursor { cells: filled(cells, 7 - rank, 0), rank: 7 - rank, file: 0 }),
    ensures
        read_seq(ranks_text(cells, rank), cur) == Some(
            Cursor { cells: filled(cells, 7, 8), rank: 7, file: 8 },
        ),
    decreases rank,
{
    lemma_read_rank(cells, rank, 0, 0, cur);
    if rank > 0 {
        let line = rank_text(cells, rank, 0, 0);
        let end = Cursor { cells: filled(cells, 7 - rank, 8), rank: 7 - rank, file: 8 };
        let next = Cursor { cells: filled(cells, 7 - rank + 1, 0), rank: 7 - rank + 1, file: 0 };
        assert(filled(cells, 7 - rank, 8) =~= filled(cells, 7 - rank + 1, 0));
        lemma_read_one('/', end);
        assert(read_seq(seq!['/'], end) == Some(next));
        lemma_read_ranks(cells, rank - 1, next);
        lemma_read_seq_concat(line, seq!['/'], cur);
        lemma_read_seq_concat(line + seq!['/'], ranks_text(cells, rank - 1), cur);
    }
}

/// Writing the 64 cells of a board as a placement and reading the text
/// gives the same cells: what is read back square by square is what was
/// written.
pub proof fn lemma_placement_round_trip(cells: Seq<Cell>)
    requires
        cells.len() == 64,
    ensures
        placement_of(placement_text(cells), placement_text(cells).len() as int) == Ok::<
            Seq<Cell>,
            crate::fen::ParseError,
        >(cells),
{
    let text = placement_text(cells);
    let start = start_cursor();
    assert(start.cells =~= filled(cells, 0, 0));
    lemma_read_ranks(cells, 7, start);
    assert(text.subrange(0, text.len() as int) =~= text);
    lemma_read_from_range(text, 0, text.len() as int, start);
    assert(filled(cells, 7, 8) =~= cells);
}

/// A text that is the placement of some cells is written again unchanged
/// from the cells that are read from it.
pub proof fn lemma_text_round_trip(text: Seq<char>, cells: Seq<Cell>)
    requires
        cells.len() == 64,
        text == placement_text(cells),
    ensures
        parse_placement_text(text) is Ok,
        placement_text(parse_placement_text(text).unwrap().cells) == text,
{
    lemma_placement_round_trip(cells);
}

fn letter_str(piece: (Sides, Pieces)) -> (s: &'static str)
    ensures
        s@ == seq![cell_letter(piece)],
{
    proof {
        reveal_strlit("P");
        reveal_strlit("R");
        reveal_strlit("N");
        reveal_strlit("B");
        reveal_strlit("Q");
        reveal_strlit("K");
        reveal_strlit("p");
        reveal_strlit("r");
        reveal_strlit("n");
        reveal_strlit("b");
        reveal_strlit("q");
        reveal_strlit("k");
    }
    let s = match piece {
        (Sides::White, Pieces::Pawn) => "P",
        (Sides::White, Pieces::Rook) => "R",
        (Sides::White, Pieces::Knight) => "N",
        (Sides::White, Pieces::Bishop) => "B",
        (Sides::White, Pieces::Queen) => "Q",
        (Sides::White, Pieces::King) => "K",
        (Sides::Black, Pieces::Pawn) => "p",
        (Sides::Black, Pieces::Rook) => "r",
        (Sides::Black, Pieces::Knight) => "n",
        (Sides::Black, Pieces::Bishop) => "b",
        (Sides::Black, Pieces::Queen) => "q",
        (Sides::Black, Pieces::King) => "k",
    };
    assert(s@ =~= seq![cell_letter(piece)]);
    s
}

fn run_str(run: usize) -> (s: &'static str)
    requires
        run <= 8,
    ensures
        s@ == run_text(run as int),
{
    proof {
        reveal_strlit("");
        reveal_strlit("1");
        reveal_strlit("2");
        reveal_strlit("3");
        reveal_strlit("4");
        reveal_strlit("5");
        reveal_strlit("6");
        reveal_strlit("7");
        reveal_strlit("8");
    }
    let s = if run == 0 {
        ""
    } else if run == 1 {
        "1"
    } else if run == 2 {
        "2"
    } else if run == 3 {
        "3"
    } else if run == 4 {
        "4"
    } else if run == 5 {
        "5"
    } else if run == 6 {
        "6"
    } else if run == 7 {
        "7"
    } else {
        "8"
    };
    assert(s@ =~= run_text(run as int));
    s
}

impl Board {
    /// The placement of the board as text, as [`Board::from_placement`]
    /// reads it.
    pub fn placement(&self) -> (s: String)
        requires
            self.wf(),
        ensures
            s@ == placement_text(self@.cells),
    {
        let mut s = String::new();
        let ghost cells = self@.cells;
        let ghost goal = placement_text(cells);
        let mut done: usize = 0;
        assert(s@ + ranks_text(cells, 7) =~= goal);
        while done < 8
            invariant
                done <= 8,
                self.wf(),
                cells == self@.cells,
                goal == placement_text(cells),
                done < 8 ==> s@ + ranks_text(cells, 7 - done) == goal,
                done == 8 ==> s@ == goal,
            decreases 8 - done,
        {
            let rank = 7 - done;
            let ghost before = s@;
            let ghost tail = if rank > 0 {
                seq!['/'] + ranks_text(cells, rank - 1)
            } else {
                Seq::<char>::empty()
            };
            let mut file: usize = 0;
            let mut run: usize = 0;
            assert(s@ + rank_text(cells, rank as int, 0, 0) + tail =~= goal);
            while file < 8
                invariant
                    file <= 8,
                    run <= file,
                    rank < 8,
                    self.wf(),
                    cells == self@.cells,
                    s@ + rank_text(cells, rank as int, file as int, run as int) + tail == goal,
                decreases 8 - file,
            {
                let ghost here = s@;
                match self.piece_at(Square::new(file, rank)) {
                    None => {
                        run = run + 1;
                    },
                    Some(piece) => {
                        s.append(run_str(run));
                        s.append(letter_str(piece));
                        proof {
                            let rest = rank_text(cells, rank as int, file + 1, 0);
                            assert(s@ + rest + tail =~= here + (run_text(run as int) + seq![
                                cell_letter(piece),
                            ] + rest) + tail);
                        }
                        run = 0;
                    },
                }
                file = file + 1;
            }
            s.append(run_str(run));
            if rank > 0 {
                proof {
                    reveal_strlit("/");
                }
                let ghost mid = s@;
                s.append("/");
                proof {
                    assert("/"@ =~= seq!['/']);
                    assert(s@ + ranks_text(cells, rank - 1) =~= mid + tail);
                }
            } else {
                assert(s@ =~= s@ + tail);
            }
            done = done + 1;
        }
        s
    }
}

} // verus!
