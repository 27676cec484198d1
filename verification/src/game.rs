//! A game: a board and the side whose turn it is.

use vstd::prelude::*;
use crate::board::Board;
use crate::moves::{applied, Move, MoveError};
use crate::pieces::Sides;

verus! {

/// A game in progress. Its board is always well-formed.
pub struct ChessGame {
    turn: Sides,
    board: Board,
}

impl ChessGame {
    #[verifier::type_invariant]
    spec fn inv(self) -> bool {
        self.board.wf()
    }

    /// The board of the game.
    pub closed spec fn spec_board(self) -> Board {
        self.board
    }

    /// The side whose turn it is.
    pub closed spec fn spec_turn(self) -> Sides {
        self.turn
    }

    /// A game on the starting board, with White to move.
    pub fn new() -> (game: ChessGame)
        ensures
            game.spec_board()@ == crate::position::start_position(),
            game.spec_board().wf(),
            game.spec_turn() == Sides::White,
    {
        ChessGame { board: Board::new(), turn: Sides::White }
    }

    /// Makes a move: applies it to the board and passes the turn. A move
    /// that cannot be applied changes nothing.
    pub fn mv(&mut self, m: &Move) -> (r: Result<(), MoveError>)
        ensures
            applied(
                m.apply_to(old(self).spec_board()@),
                r,
                old(self).spec_board(),
                final(self).spec_board(),
            ),
            final(self).spec_turn() == if r is Ok {
                old(self).spec_turn().spec_other()
            } else {
                old(self).spec_turn()
            },
    {
        proof {
            use_type_invariant(&*self);
        }
        let mut board = self.board;
        match m.apply(&mut board) {
            Ok(()) => {
                self.board = board;
                self.turn = self.turn.other();
                Ok(())
            },
            Err(e) => Err(e),
        }
    }

    /// Makes a move that is held in a box.
    pub fn boxed_mv(&mut self, m: Box<Move>) -> (r: Result<(), MoveError>)
        ensures
            applied(
                m.apply_to(old(self).spec_board()@),
                r,
                old(self).spec_board(),
                final(self).spec_board(),
            ),
            final(self).spec_turn() == if r is Ok {
                old(self).spec_turn().spec_other()
            } else {
                old(self).spec_turn()
            },
    {
        let m = *m;
        self.mv(&m)
    }

    /// The board of the game.
    pub fn board(&self) -> (b: &Board)
        ensures
            *b == self.spec_board(),
            b.wf(),
    {
        proof {
            use_type_invariant(self);
        }
        &self.board
    }

    /// The side whose turn it is.
    pub fn turn(&self) -> (s: Sides)
        ensures
            s == self.spec_turn(),
    {
        self.turn
    }
}

} // verus!
