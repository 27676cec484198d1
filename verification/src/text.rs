//! Squares, pieces, moves and boards as text.

use vstd::prelude::*;
use vstd::string::*;
use crate::bitboard::Bitboard;
use crate::board::Board;
use crate::moves::{BasicMove, Capture, Castle, Move, Promotion};
use crate::pieces::{Pieces, Sides};
use crate::position::{Cell, Position};
use crate::square::Square;

verus! {

/// The letter of a file: `a` for file 0 to `h` for file 7.
pub open spec fn file_letter(file: int) -> char {
    if file == 0 {
        'a'
    } else if file == 1 {
        'b'
    } else if file == 2 {
        'c'
    } else if file == 3 {
        'd'
    } else if file == 4 {
        'e'
    } else if file == 5 {
        'f'
    } else if file == 6 {
        'g'
    } else {
        'h'
    }
}

/// The decimal digit for a number below ten.
pub open spec fn digit_char(n: int) -> char {
    if n == 0 {
        '0'
    } else if n == 1 {
        '1'
    } else if n == 2 {
        '2'
    } else if n == 3 {
        '3'
    } else if n == 4 {
        '4'
    } else if n == 5 {
        '5'
    } else if n == 6 {
        '6'
    } else if n == 7 {
        '7'
    } else if n == 8 {
        '8'
    } else {
        '9'
    }
}

/// The name of a square as players write it: the letter of its file and
/// the number of its rank, counted from one.
pub open spec fn square_label(sq: Square) -> Seq<char> {
    seq![file_letter(sq.file as int), digit_char(sq.rank + 1)]
}

/// The letter of the file and the rank counted from zero.
pub open spec fn square_algebraic(sq: Square) -> Seq<char> {
    seq![file_letter(sq.file as int), digit_char(sq.rank as int)]
}

/// The name of a kind of piece.
pub open spec fn kind_name(kind: Pieces) -> Seq<char> {
    match kind {
        Pieces::Pawn => "Pawn"@,
        Pieces::Rook => "Rook"@,
        Pieces::Knight => "Knight"@,
        Pieces::Bishop => "Bishop"@,
        Pieces::Queen => "Queen"@,
        Pieces::King => "King"@,
    }
}

/// A move as text: `e2 -> e4`, with `capturing` or `promoting to` and the
/// name of the kind where it applies, or the wing of a castling.
pub open spec fn move_text(m: Move) -> Seq<char> {
    match m {
        Move::Basic(b) => square_label(b.from) + " -> "@ + square_label(b.to),
        Move::Capture(c) => square_label(c.from) + " -> "@ + square_label(c.to) + " capturing "@
            + kind_name(c.capture),
        Move::Promotion(p) => square_label(p.from) + " -> "@ + square_label(p.to)
            + " promoting to "@ + kind_name(p.piece),
        Move::Castle(c) => if c.king_side {
            "Castle king side"@
        } else {
            "Castle queen side"@
        },
    }
}

/// The sign drawn for a cell: the chess symbol of the piece, `+` for an
/// empty square.
pub open spec fn glyph(cell: Cell) -> char {
    match cell {
        None => '+',
        Some((Sides::White, Pieces::Pawn)) => '♟',
        Some((Sides::White, Pieces::Rook)) => '♜',
        Some((Sides::White, Pieces::Knight)) => '♞',
        Some((Sides::White, Pieces::Bishop)) => '♝',
        Some((Sides::White, Pieces::Queen)) => '♛',
        Some((Sides::White, Pieces::King)) => '♚',
        Some((Sides::Black, Pieces::Pawn)) => '♙',
        Some((Sides::Black, Pieces::Rook)) => '♖',
        Some((Sides::Black, Pieces::Knight)) => '♘',
        Some((Sides::Black, Pieces::Bishop)) => '♗',
        Some((Sides::Black, Pieces::Queen)) => '♕',
        Some((Sides::Black, Pieces::King)) => '♔',
    }
}

/// The square drawn at place `i` of a picture of eight lines of eight
/// signs and a line end each: the eighth rank first, file `a` first.
pub open spec fn drawn_square(i: int) -> int {
    (7 - i / 9) * 8 + i % 9
}

/// The picture of a position: eight lines, from the eighth rank down to
/// the first, each with the signs of its squares from file `a` to `h`.
pub open spec fn board_text(pos: Position) -> Seq<char> {
    Seq::new(
        72,
        |i: int|
            if i % 9 == 8 {
                '\n'
            } else {
                glyph(pos.at(drawn_square(i)))
            },
    )
}

/// The picture of a set of squares: `1` for a square in it, `0` for others.
pub open spec fn bits_text(squares: Set<int>) -> Seq<char> {
    Seq::new(
        72,
        |i: int|
            if i % 9 == 8 {
                '\n'
            } else if squares.contains(drawn_square(i)) {
                '1'
            } else {
                '0'
            },
    )
}

fn file_str(file: usize) -> (s: &'static str)
    requires
        file < 8,
    ensures
        s@ == seq![file_letter(file as int)],
{
    proof {
        reveal_strlit("a");
        reveal_strlit("b");
        reveal_strlit("c");
        reveal_strlit("d");
        reveal_strlit("e");
        reveal_strlit("f");
        reveal_strlit("g");
        reveal_strlit("h");
    }
    let s = if file == 0 {
        "a"
    } else if file == 1 {
        "b"
    } else if file == 2 {
        "c"
    } else if file == 3 {
        "d"
    } else if file == 4 {
        "e"
    } else if file == 5 {
        "f"
    } else if file == 6 {
        "g"
    } else {
        "h"
    };
    assert(s@ =~= seq![file_letter(file as int)]);
    s
}

fn digit_str(n: usize) -> (s: &'static str)
    requires
        n <= 9,
    ensures
        s@ == seq![digit_char(n as int)],
{
    proof {
        reveal_strlit("0");
        reveal_strlit("1");
        reveal_strlit("2");
        reveal_strlit("3");
        reveal_strlit("4");
        reveal_strlit("5");
        reveal_strlit("6");
        reveal_strlit("7");
        reveal_strlit("8");
        reveal_strlit("9");
    }
    let s = if n == 0 {
        "0"
    } else if n == 1 {
        "1"
    } else if n == 2 {
        "2"
    } else if n == 3 {
        "3"
    } else if n == 4 {
        "4"
    } else if n == 5 {
        "5"
    } else if n == 6 {
        "6"
    } else if n == 7 {
        "7"
    } else if n == 8 {
        "8"
    } else {
        "9"
    };
    assert(s@ =~= seq![digit_char(n as int)]);
    s
}

fn glyph_str(cell: Cell) -> (s: &'static str)
    ensures
        s@ == seq![glyph(cell)],
{
    proof {
        reveal_strlit("+");
        reveal_strlit("♟");
        reveal_strlit("♜");
        reveal_strlit("♞");
        reveal_strlit("♝");
        reveal_strlit("♛");
        reveal_strlit("♚");
        reveal_strlit("♙");
        reveal_strlit("♖");
        reveal_strlit("♘");
        reveal_strlit("♗");
        reveal_strlit("♕");
        reveal_strlit("♔");
    }
    let s = match cell {
        None => "+",
        Some((Sides::White, Pieces::Pawn)) => "♟",
        Some((Sides::White, Pieces::Rook)) => "♜",
        Some((Sides::White, Pieces::Knight)) => "♞",
        Some((Sides::White, Pieces::Bishop)) => "♝",
        Some((Sides::White, Pieces::Queen)) => "♛",
        Some((Sides::White, Pieces::King)) => "♚",
        Some((Sides::Black, Pieces::Pawn)) => "♙",
        Some((Sides::Black, Pieces::Rook)) => "♖",
        Some((Sides::Black, Pieces::Knight)) => "♘",
        Some((Sides::Black, Pieces::Bishop)) => "♗",
        Some((Sides::Black, Pieces::Queen)) => "♕",
        Some((Sides::Black, Pieces::King)) => "♔",
    };
    assert(s@ =~= seq![glyph(cell)]);
    s
}

impl Square {
    /// The name of the square as players write it, such as `e4`.
    pub fn render(&self) -> (s: String)
        requires
            self.wf(),
        ensures
            s@ == square_label(*self),
    {
        let mut s = String::new();
        s.append(file_str(self.file));
        s.append(digit_str(self.rank + 1));
        assert(s@ =~= square_label(*self));
        s
    }

    /// The letter of the file followed by the rank counted from zero.
    pub fn to_algebraic(&self) -> (s: String)
        requires
            self.wf(),
        ensures
            s@ == square_algebraic(*self),
    {
        let mut s = String::new();
        s.append(file_str(self.file));
        s.append(digit_str(self.rank));
        assert(s@ =~= square_algebraic(*self));
        s
    }
}

impl Pieces {
    /// The name of the kind.
    pub fn render(&self) -> (s: String)
        ensures
            s@ == kind_name(*self),
    {
        let name = match self {
            Pieces::Pawn => "Pawn",
            Pieces::Rook => "Rook",
            Pieces::Knight => "Knight",
            Pieces::Bishop => "Bishop",
            Pieces::Queen => "Queen",
            Pieces::King => "King",
        };
        String::from_str(name)
    }
}

/// The two squares of a move with the arrow between them.
fn route(from: Square, to: Square) -> (s: String)
    requires
        from.wf(),
        to.wf(),
    ensures
        s@ == square_label(from) + " -> "@ + square_label(to),
{
    let mut s = from.render();
    s.append(" -> ");
    let target = to.render();
    s.append(target.as_str());
    s
}

impl BasicMove {
    /// The move as text, such as `e2 -> e4`.
    pub fn render(&self) -> (s: String)
        requires
            self.from.wf(),
            self.to.wf(),
        ensures
            s@ == move_text(Move::Basic(*self)),
    {
        route(self.from, self.to)
    }
}

impl Capture {
    /// The move as text, such as `e4 -> d5 capturing Pawn`.
    pub fn render(&self) -> (s: String)
        requires
            self.from.wf(),
            self.to.wf(),
        ensures
            s@ == move_text(Move::Capture(*self)),
    {
        let mut s = route(self.from, self.to);
        s.append(" capturing ");
        let name = self.capture.render();
        s.append(name.as_str());
        s
    }
}

impl Promotion {
    /// The move as text, such as `a7 -> a8 promoting to Queen`.
    pub fn render(&self) -> (s: String)
        requires
            self.from.wf(),
            self.to.wf(),
        ensures
            s@ == move_text(Move::Promotion(*self)),
    {
        let mut s = route(self.from, self.to);
        s.append(" promoting to ");
        let name = self.piece.render();
        s.append(name.as_str());
        s
    }
}

impl Castle {
    /// The move as text: `Castle king side` or `Castle queen side`.
    pub fn render(&self) -> (s: String)
        ensures
            s@ == move_text(Move::Castle(*self)),
    {
        if self.king_side {
            String::from_str("Castle king side")
        } else {
            String::from_str("Castle queen side")
        }
    }
}

impl Move {
    /// Whether the squares that the move names lie on the board.
    pub open spec fn on_board(self) -> bool {
        match self {
            Move::Basic(m) => m.from.wf() && m.to.wf(),
            Move::Capture(m) => m.from.wf() && m.to.wf(),
            Move::Promotion(m) => m.from.wf() && m.to.wf(),
            Move::Castle(_) => true,
        }
    }

    /// Whether the squares that the move names lie on the board.
    pub fn is_on_board(&self) -> (r: bool)
        ensures
            r == self.on_board(),
    {
        match self {
            Move::Basic(m) => m.from.on_board() && m.to.on_board(),
            Move::Capture(m) => m.from.on_board() && m.to.on_board(),
            Move::Promotion(m) => m.from.on_board() && m.to.on_board(),
            Move::Castle(_) => true,
        }
    }

    /// The move as text.
    pub fn render(&self) -> (s: String)
        requires
            self.on_board(),
        ensures
            s@ == move_text(*self),
    {
        match self {
            Move::Basic(m) => m.render(),
            Move::Capture(m) => m.render(),
            Move::Promotion(m) => m.render(),
            Move::Castle(m) => m.render(),
        }
    }
}

impl Board {
    /// The picture of the board.
    pub fn render(&self) -> (s: String)
        requires
            self.wf(),
        ensures
            s@ == board_text(self@),
    {
        let mut s = String::new();
        let ghost goal = board_text(self@);
        let mut line: usize = 0;
        assert(s@ =~= goal.take(0));
        while line < 8
            invariant
                line <= 8,
                self.wf(),
                goal == board_text(self@),
                s@ == goal.take(9 * line),
            decreases 8 - line,
        {
            let rank = 7 - line;
            let mut file: usize = 0;
            while file < 8
                invariant
                    file <= 8,
                    line < 8,
                    rank == 7 - line,
                    self.wf(),
                    goal == board_text(self@),
                    s@ == goal.take(9 * line + file),
                decreases 8 - file,
            {
                let cell = self.piece_at(Square::new(file, rank));
                let ghost before = s@;
                s.append(glyph_str(cell));
                proof {
                    let i = 9 * line + file;
                    assert(drawn_square(i) == rank * 8 + file);
                    assert(goal[i] == glyph(cell));
                    assert(s@ =~= goal.take(i + 1));
                }
                file = file + 1;
            }
            proof {
                reveal_strlit("\n");
            }
            s.append("\n");
            proof {
                let i = 9 * line + 8;
                assert(goal[i] == '\n');
                assert(s@ =~= goal.take(i + 1));
            }
            line = line + 1;
        }
        assert(goal.take(72) =~= goal);
        s
    }
}

impl Bitboard {
    /// The picture of the set of squares.
    pub fn render(&self) -> (s: String)
        ensures
            s@ == bits_text(self@),
    {
        let mut s = String::new();
        let ghost goal = bits_text(self@);
        let mut line: usize = 0;
        assert(s@ =~= goal.take(0));
        proof {
            reveal_strlit("0");
            reveal_strlit("1");
            reveal_strlit("\n");
        }
        while line < 8
            invariant
                line <= 8,
                goal == bits_text(self@),
                s@ == goal.take(9 * line),
                "0"@ =~= seq!['0'],
                "1"@ =~= seq!['1'],
                "\n"@ =~= seq!['\n'],
            decreases 8 - line,
        {
            let rank = 7 - line;
            let mut file: usize = 0;
            while file < 8
                invariant
                    file <= 8,
                    line < 8,
                    rank == 7 - line,
                    goal == bits_text(self@),
                    s@ == goal.take(9 * line + file),
                    "0"@ =~= seq!['0'],
                    "1"@ =~= seq!['1'],
                decreases 8 - file,
            {
                let set = self.contains(rank * 8 + file);
                if set {
                    s.append("1");
                } else {
                    s.append("0");
                }
                proof {
                    let i = 9 * line + file;
                    assert(drawn_square(i) == rank * 8 + file);
                    assert(s@ =~= goal.take(i + 1));
                }
                file = file + 1;
            }
            s.append("\n");
            proof {
                let i = 9 * line + 8;
                assert(goal[i] == '\n');
                assert(s@ =~= goal.take(i + 1));
            }
            line = line + 1;
        }
        assert(goal.take(72) =~= goal);
        s
    }
}

} // verus!
