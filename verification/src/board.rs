//! The simulator state: a board with its fixed dimensions, stepped one
//! generation at a time.

use vstd::prelude::*;
use crate::life::{lemma_steps_preserve_len, next_board, next_boards};
use crate::seed::random_board;

verus! {

/// A bounded Game of Life board: `cells` holds one state per grid position,
/// in row-major order (index = y * width + x). The dimensions are fixed when
/// the board is created.
pub struct Board {
    pub width: usize,
    pub height: usize,
    pub cells: Vec<bool>,
}

impl Board {
    /// The board holds exactly one cell per grid position.
    pub open spec fn wf(self) -> bool {
        &&& 0 < self.width
        &&& 0 < self.height
        &&& self.cells@.len() == self.width * self.height
    }

    /// A board of the given dimensions, each cell seeded independently live
    /// with probability `LIVE_NUMERATOR / LIVE_DENOMINATOR`.
    pub fn new_random(width: usize, height: usize) -> (board: Board)
        requires
            0 < width,
            0 < height,
            width * height <= usize::MAX,
        ensures
            board.wf(),
            board.width == width,
            board.height == height,
    {
        let cells = random_board(width * height);
        Board { width, height, cells }
    }

    /// Advances the board one generation: every cell is updated from the
    /// pre-step board, and the dimensions do not change.
    pub fn step(&mut self)
        requires
            old(self).wf(),
        ensures
            final(self).wf(),
            final(self).width == old(self).width,
            final(self).height == old(self).height,
            final(self).cells@ == next_board(
                old(self).cells@,
                old(self).width as int,
                old(self).height as int,
            ),
    {
        let next = crate::life::step(&self.cells, self.width, self.height);
        self.cells = next;
    }

    /// State of the cell at a linear index.
    pub fn cell(&self, index: usize) -> (live: bool)
        requires
            index < self.cells@.len(),
        ensures
            live == self.cells@[index as int],
    {
        self.cells[index]
    }

    /// The board-length invariant: however many generations are stepped from
    /// a well-formed board, the number of cells stays width times height.
    pub proof fn lemma_generations_keep_size(self, n: nat)
        requires
            self.wf(),
        ensures
            next_boards(self.cells@, self.width as int, self.height as int, n).len() == self.width
                * self.height,
    {
        lemma_steps_preserve_len(self.cells@, self.width as int, self.height as int, n);
    }
}

} // verus!
