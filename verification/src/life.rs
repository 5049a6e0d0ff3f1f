//! The generation step: counting live neighbors and applying Conway's rule to
//! every cell of the board at once.

use vstd::prelude::*;
use crate::grid::{
    clipped, col, get_neighbors, in_grid, index_at, lemma_index_at_bounds, neighbor_indices, row,
};

verus! {

/// Number of live cells of `board` among the indices in `ns` (out-of-range
/// indices count as dead).
pub open spec fn live_count(board: Seq<bool>, ns: Seq<int>) -> nat
    decreases ns.len(),
{
    if ns.len() == 0 {
        0
    } else {
        live_count(board, ns.drop_last()) + (if 0 <= ns.last() < board.len() && board[ns.last()] {
            1nat
        } else {
            0nat
        })
    }
}

/// Number of live neighbors of cell `i`.
pub open spec fn live_neighbors(board: Seq<bool>, i: int, width: int, height: int) -> nat {
    live_count(board, neighbor_indices(i, width, height))
}

/// Conway's rule for one cell: a live cell survives exactly with 2 or 3 live
/// neighbors; a dead cell becomes live exactly with 3.
pub open spec fn next_cell(board: Seq<bool>, i: int, width: int, height: int) -> bool {
    let n = live_neighbors(board, i, width, height);
    if board[i] {
        n == 2 || n == 3
    } else {
        n == 3
    }
}

/// One generation: every cell updated from the pre-step board.
pub open spec fn next_board(board: Seq<bool>, width: int, height: int) -> Seq<bool> {
    Seq::new(board.len(), |i: int| next_cell(board, i, width, height))
}

/// The board after `n` generations.
pub open spec fn next_boards(board: Seq<bool>, width: int, height: int, n: nat) -> Seq<bool>
    decreases n,
{
    if n == 0 {
        board
    } else {
        next_board(next_boards(board, width, height, (n - 1) as nat), width, height)
    }
}

/// However many generations are stepped, the board keeps its length: one step
/// rebuilds a board of the same length, and so does any number of steps.
pub proof fn lemma_steps_preserve_len(board: Seq<bool>, width: int, height: int, n: nat)
    ensures
        next_boards(board, width, height, n).len() == board.len(),
    decreases n,
{
    if n > 0 {
        lemma_steps_preserve_len(board, width, height, (n - 1) as nat);
    }
}

/// One if the position (x, y) is on the grid and its cell is live, zero
/// otherwise.
pub open spec fn live_at(board: Seq<bool>, x: int, y: int, width: int, height: int) -> nat {
    if in_grid(x, y, width, height) && 0 <= index_at(x, y, width) < board.len() && board[index_at(
        x,
        y,
        width,
    )] {
        1
    } else {
        0
    }
}

/// The live-neighbor count written in coordinates: one term per neighboring
/// position of (x, y).
pub open spec fn live_neighbors_at(
    board: Seq<bool>,
    x: int,
    y: int,
    width: int,
    height: int,
) -> nat {
    live_at(board, x - 1, y - 1, width, height) + live_at(board, x, y - 1, width, height)
        + live_at(board, x + 1, y - 1, width, height) + live_at(board, x - 1, y, width, height)
        + live_at(board, x + 1, y, width, height) + live_at(board, x - 1, y + 1, width, height)
        + live_at(board, x, y + 1, width, height) + live_at(board, x + 1, y + 1, width, height)
}

/// A count over a concatenation splits into the two parts' counts.
pub proof fn lemma_live_count_concat(board: Seq<bool>, s: Seq<int>, t: Seq<int>)
    ensures
        live_count(board, s + t) == live_count(board, s) + live_count(board, t),
    decreases t.len(),
{
    if t.len() == 0 {
        assert(s + t =~= s);
    } else {
        assert((s + t).drop_last() =~= s + t.drop_last());
        lemma_live_count_concat(board, s, t.drop_last());
    }
}

/// Counting over a clipped singleton reads exactly one position.
proof fn lemma_live_count_clipped(board: Seq<bool>, x: int, y: int, width: int, height: int)
    requires
        0 < width,
        0 < height,
        board.len() == width * height,
    ensures
        live_count(board, clipped(x, y, width, height)) == live_at(board, x, y, width, height),
{
    reveal_with_fuel(live_count, 2);
    if in_grid(x, y, width, height) {
        lemma_index_at_bounds(x, y, width, height);
        let s = clipped(x, y, width, height);
        assert(s.drop_last() =~= Seq::<int>::empty());
        assert(s.last() == index_at(x, y, width));
    }
}

/// The live-neighbor count of cell `i` equals the coordinate formula at its
/// column and row.
pub proof fn lemma_live_neighbors_in_coords(board: Seq<bool>, i: int, width: int, height: int)
    requires
        0 < width,
        0 < height,
        0 <= i < width * height,
        board.len() == width * height,
    ensures
        live_neighbors(board, i, width, height) == live_neighbors_at(
            board,
            col(i, width),
            row(i, width),
            width,
            height,
        ),
{
    let x = col(i, width);
    let y = row(i, width);
    let s1 = clipped(x - 1, y - 1, width, height);
    let s2 = clipped(x, y - 1, width, height);
    let s3 = clipped(x + 1, y - 1, width, height);
    let s4 = clipped(x - 1, y, width, height);
    let s5 = clipped(x + 1, y, width, height);
    let s6 = clipped(x - 1, y + 1, width, height);
    let s7 = clipped(x, y + 1, width, height);
    let s8 = clipped(x + 1, y + 1, width, height);
    lemma_live_count_concat(board, s1 + s2 + s3 + s4 + s5 + s6 + s7, s8);
    lemma_live_count_concat(board, s1 + s2 + s3 + s4 + s5 + s6, s7);
    lemma_live_count_concat(board, s1 + s2 + s3 + s4 + s5, s6);
    lemma_live_count_concat(board, s1 + s2 + s3 + s4, s5);
    lemma_live_count_concat(board, s1 + s2 + s3, s4);
    lemma_live_count_concat(board, s1 + s2, s3);
    lemma_live_count_concat(board, s1, s2);
    lemma_live_count_clipped(board, x - 1, y - 1, width, height);
    lemma_live_count_clipped(board, x, y - 1, width, height);
    lemma_live_count_clipped(board, x + 1, y - 1, width, height);
    lemma_live_count_clipped(board, x - 1, y, width, height);
    lemma_live_count_clipped(board, x + 1, y, width, height);
    lemma_live_count_clipped(board, x - 1, y + 1, width, height);
    lemma_live_count_clipped(board, x, y + 1, width, height);
    lemma_live_count_clipped(board, x + 1, y + 1, width, height);
}

/// Counts the live cells of `board` at the indices in `neighbors`.
fn count_live(board: &Vec<bool>, neighbors: &Vec<usize>) -> (count: usize)
    requires
        forall|k: int| 0 <= k < neighbors@.len() ==> (#[trigger] neighbors@[k]) < board@.len(),
    ensures
        count == live_count(board@, neighbors@.map_values(|n: usize| n as int)),
{
    let ghost ns = neighbors@.map_values(|n: usize| n as int);
    let mut count: usize = 0;
    let mut k: usize = 0;
    while k < neighbors.len()
        invariant
            0 <= k <= neighbors@.len(),
            count <= k,
            count == live_count(board@, ns.take(k as int)),
            ns == neighbors@.map_values(|n: usize| n as int),
            forall|k: int| 0 <= k < neighbors@.len() ==> (#[trigger] neighbors@[k]) < board@.len(),
        decreases neighbors@.len() - k,
    {
        proof {
            assert(ns.take(k + 1).drop_last() =~= ns.take(k as int));
            assert(ns.take(k + 1).last() == ns[k as int]);
        }
        if board[neighbors[k]] {
            count = count + 1;
        }
        k = k + 1;
    }
    proof {
        assert(ns.take(ns.len() as int) =~= ns);
    }
    count
}

/// Computes the next generation of `board`: every cell's new state is decided
/// by its current state and its current number of live neighbors, reading
/// only the pre-step board.
pub fn step(board: &Vec<bool>, width: usize, height: usize) -> (next: Vec<bool>)
    requires
        0 < width,
        0 < height,
        board@.len() == width * height,
    ensures
        next@ == next_board(board@, width as int, height as int),
        next@.len() == board@.len(),
{
    let mut next: Vec<bool> = Vec::new();
    let mut i: usize = 0;
    while i < board.len()
        invariant
            0 < width,
            0 < height,
            board@.len() == width * height,
            0 <= i <= board@.len(),
            next@.len() == i,
            forall|j: int|
                0 <= j < i ==> next@[j] == next_cell(
                    board@,
                    j,
                    width as int,
                    height as int,
                ),
        decreases board@.len() - i,
    {
        let neighbors = get_neighbors(i, width, height);
        proof {
            assert forall|k: int|
                0 <= k < neighbors@.len() implies (#[trigger] neighbors@[k]) < board@.len() by {
                assert(neighbors@.map_values(|n: usize| n as int)[k] == neighbors@[k] as int);
            }
        }
        let n = count_live(board, &neighbors);
        let cell = board[i];
        let updated = if cell {
            n == 2 || n == 3
        } else {
            n == 3
        };
        proof {
            assert(updated == next_cell(board@, i as int, width as int, height as int));
        }
        next.push(updated);
        i = i + 1;
    }
    proof {
        assert(next@ =~= next_board(board@, width as int, height as int));
    }
    next
}

} // verus!
