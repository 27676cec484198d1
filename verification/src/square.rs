//! Squares of the board, by file and rank.

use vstd::prelude::*;

verus! {

/// A square, by its file (0 for `a` to 7 for `h`) and its rank (0 for the
/// first rank to 7 for the eighth).
#[derive(Debug, Clone, Copy, PartialEq, Eq, Structural)]
pub struct Square {
    pub file: usize,
    pub rank: usize,
}

impl Square {
    /// Whether the square lies on the board.
    pub open spec fn wf(self) -> bool {
        self.file < 8 && self.rank < 8
    }

    /// The square's index, rank-major: `rank * 8 + file`.
    pub open spec fn spec_idx(self) -> int {
        self.rank * 8 + self.file
    }

    pub fn new(file: usize, rank: usize) -> (s: Square)
        ensures
            s.file == file,
            s.rank == rank,
    {
        Square { file, rank }
    }

    pub fn rank(&self) -> (r: usize)
        ensures
            r == self.rank,
    {
        self.rank
    }

    pub fn file(&self) -> (f: usize)
        ensures
            f == self.file,
    {
        self.file
    }

    /// Whether the square lies on the board.
    pub fn on_board(&self) -> (b: bool)
        ensures
            b == self.wf(),
    {
        self.file < 8 && self.rank < 8
    }

    /// The square with the given index. It lies on the board exactly when
    /// `idx < 64`.
    pub fn from_idx(idx: usize) -> (s: Square)
        ensures
            s.file == idx % 8,
            s.rank == idx / 8,
            s.wf() <==> idx < 64,
            s.spec_idx() == idx,
    {
        Square { file: idx % 8, rank: idx / 8 }
    }

    pub fn idx(&self) -> (i: usize)
        requires
            self.wf(),
        ensures
            i == self.spec_idx(),
            i < 64,
    {
        self.rank * 8 + self.file
    }
}

/// An index and the square made from it name each other.
pub proof fn lemma_idx_round_trip(s: Square, i: int)
    ensures
        s.wf() ==> 0 <= s.spec_idx() < 64 && s.spec_idx() % 8 == s.file && s.spec_idx() / 8
            == s.rank,
        0 <= i < 64 ==> (Square { file: (i % 8) as usize, rank: (i / 8) as usize }).wf() && (Square {
            file: (i % 8) as usize,
            rank: (i / 8) as usize,
        }).spec_idx() == i,
{
}

} // verus!
