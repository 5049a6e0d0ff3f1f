//! Laws of the update rule on distinguished patterns: extinction of an
//! isolated cell, birth by exactly three neighbors, the block still life,
//! and the blinker oscillator.

use vstd::prelude::*;
use crate::grid::{
    adjacent, col, in_grid, lemma_index_at_bounds, lemma_index_decomposition,
    lemma_neighbor_properties, lemma_rowcol_of_index_at, neighbor_indices, row,
};
use crate::life::{
    lemma_live_neighbors_in_coords, live_at, live_count, live_neighbors, next_board, next_cell,
};

verus! {

/// A count over indices that never point at a live cell is zero.
proof fn lemma_live_count_all_dead(board: Seq<bool>, ns: Seq<int>)
    requires
        forall|k: int|
            0 <= k < ns.len() ==> !(0 <= #[trigger] ns[k] < board.len() && board[ns[k]]),
    ensures
        live_count(board, ns) == 0,
    decreases ns.len(),
{
    if ns.len() > 0 {
        lemma_live_count_all_dead(board, ns.drop_last());
    }
}

/// Extinction: a live cell whose adjacent in-range cells are all dead is
/// dead after one generation.
pub proof fn lemma_extinction(board: Seq<bool>, i: int, width: int, height: int)
    requires
        0 < width,
        0 < height,
        board.len() == width * height,
        0 <= i < board.len(),
        board[i],
        forall|j: int| 0 <= j < board.len() && adjacent(i, j, width) ==> !(#[trigger] board[j]),
    ensures
        !next_board(board, width, height)[i],
{
    lemma_neighbor_properties(i, width, height);
    let ns = neighbor_indices(i, width, height);
    assert forall|k: int|
        0 <= k < ns.len() implies !(0 <= #[trigger] ns[k] < board.len() && board[ns[k]]) by {
        assert(ns.contains(ns[k]));
    }
    lemma_live_count_all_dead(board, ns);
    assert(live_neighbors(board, i, width, height) == 0);
}

/// Birth: a dead cell with exactly three live neighbors is live after one
/// generation.
pub proof fn lemma_birth(board: Seq<bool>, i: int, width: int, height: int)
    requires
        0 < width,
        0 < height,
        board.len() == width * height,
        0 <= i < board.len(),
        !board[i],
        live_neighbors(board, i, width, height) == 3,
    ensures
        next_board(board, width, height)[i],
{
}

/// The position (x, y) belongs to the 2-by-2 block anchored at (bx, by).
pub open spec fn in_block(x: int, y: int, bx: int, by: int) -> bool {
    (x == bx || x == bx + 1) && (y == by || y == by + 1)
}

/// A board that is dead everywhere except the 2-by-2 block anchored at
/// (bx, by).
pub open spec fn block_board(width: int, height: int, bx: int, by: int) -> Seq<bool> {
    Seq::new((width * height) as nat, |i: int| in_block(col(i, width), row(i, width), bx, by))
}

/// Reading the block board at a position, in coordinates.
proof fn lemma_block_live_at(width: int, height: int, bx: int, by: int, x: int, y: int)
    requires
        0 < width,
        0 < height,
    ensures
        live_at(block_board(width, height, bx, by), x, y, width, height) == (if in_grid(
            x,
            y,
            width,
            height,
        ) && in_block(x, y, bx, by) {
            1nat
        } else {
            0nat
        }),
{
    if in_grid(x, y, width, height) {
        lemma_index_at_bounds(x, y, width, height);
        lemma_rowcol_of_index_at(x, y, width);
    }
}

/// The block is a still life: a board holding exactly one 2-by-2 block of
/// live cells, everything else dead, is unchanged by one generation.
pub proof fn lemma_block_is_still(width: int, height: int, bx: int, by: int)
    requires
        0 <= bx,
        bx + 1 < width,
        0 <= by,
        by + 1 < height,
    ensures
        next_board(block_board(width, height, bx, by), width, height) == block_board(
            width,
            height,
            bx,
            by,
        ),
{
    let b = block_board(width, height, bx, by);
    assert forall|i: int| 0 <= i < b.len() implies next_cell(b, i, width, height) == b[i] by {
        lemma_index_decomposition(i, width, height);
        let x = col(i, width);
        let y = row(i, width);
        lemma_live_neighbors_in_coords(b, i, width, height);
        lemma_block_live_at(width, height, bx, by, x - 1, y - 1);
        lemma_block_live_at(width, height, bx, by, x, y - 1);
        lemma_block_live_at(width, height, bx, by, x + 1, y - 1);
        lemma_block_live_at(width, height, bx, by, x - 1, y);
        lemma_block_live_at(width, height, bx, by, x + 1, y);
        lemma_block_live_at(width, height, bx, by, x - 1, y + 1);
        lemma_block_live_at(width, height, bx, by, x, y + 1);
        lemma_block_live_at(width, height, bx, by, x + 1, y + 1);
    }
    assert(next_board(b, width, height) =~= b);
}

/// The position (x, y) belongs to the horizontal three-cell blinker centered
/// at (cx, cy).
pub open spec fn in_hblinker(x: int, y: int, cx: int, cy: int) -> bool {
    y == cy && (x == cx - 1 || x == cx || x == cx + 1)
}

/// The position (x, y) belongs to the vertical three-cell blinker centered
/// at (cx, cy).
pub open spec fn in_vblinker(x: int, y: int, cx: int, cy: int) -> bool {
    x == cx && (y == cy - 1 || y == cy || y == cy + 1)
}

/// A board that is dead everywhere except a horizontal blinker centered at
/// (cx, cy).
pub open spec fn hblinker_board(width: int, height: int, cx: int, cy: int) -> Seq<bool> {
    Seq::new((width * height) as nat, |i: int| in_hblinker(col(i, width), row(i, width), cx, cy))
}

/// A board that is dead everywhere except a vertical blinker centered at
/// (cx, cy).
pub open spec fn vblinker_board(width: int, height: int, cx: int, cy: int) -> Seq<bool> {
    Seq::new((width * height) as nat, |i: int| in_vblinker(col(i, width), row(i, width), cx, cy))
}

/// Reading the horizontal-blinker board at a position, in coordinates.
proof fn lemma_hblinker_live_at(width: int, height: int, cx: int, cy: int, x: int, y: int)
    requires
        0 < width,
        0 < height,
    ensures
        live_at(hblinker_board(width, height, cx, cy), x, y, width, height) == (if in_grid(
            x,
            y,
            width,
            height,
        ) && in_hblinker(x, y, cx, cy) {
            1nat
        } else {
            0nat
        }),
{
    if in_grid(x, y, width, height) {
        lemma_index_at_bounds(x, y, width, height);
        lemma_rowcol_of_index_at(x, y, width);
    }
}

/// Reading the vertical-blinker board at a position, in coordinates.
proof fn lemma_vblinker_live_at(width: int, height: int, cx: int, cy: int, x: int, y: int)
    requires
        0 < width,
        0 < height,
    ensures
        live_at(vblinker_board(width, height, cx, cy), x, y, width, height) == (if in_grid(
            x,
            y,
            width,
            height,
        ) && in_vblinker(x, y, cx, cy) {
            1nat
        } else {
            0nat
        }),
{
    if in_grid(x, y, width, height) {
        lemma_index_at_bounds(x, y, width, height);
        lemma_rowcol_of_index_at(x, y, width);
    }
}

/// The blinker oscillates: far enough from the boundary that its whole
/// neighborhood is on the grid, one generation turns the horizontal blinker
/// into the vertical one with the same center, and one more turns it back.
pub proof fn lemma_blinker_oscillates(width: int, height: int, cx: int, cy: int)
    requires
        1 <= cx,
        cx + 2 <= width,
        1 <= cy,
        cy + 2 <= height,
    ensures
        next_board(hblinker_board(width, height, cx, cy), width, height) == vblinker_board(
            width,
            height,
            cx,
            cy,
        ),
        next_board(vblinker_board(width, height, cx, cy), width, height) == hblinker_board(
            width,
            height,
            cx,
            cy,
        ),
{
    let hb = hblinker_board(width, height, cx, cy);
    let vb = vblinker_board(width, height, cx, cy);
    assert forall|i: int| 0 <= i < hb.len() implies next_cell(hb, i, width, height) == vb[i] by {
        lemma_index_decomposition(i, width, height);
        let x = col(i, width);
        let y = row(i, width);
        lemma_live_neighbors_in_coords(hb, i, width, height);
        lemma_hblinker_live_at(width, height, cx, cy, x - 1, y - 1);
        lemma_hblinker_live_at(width, height, cx, cy, x, y - 1);
        lemma_hblinker_live_at(width, height, cx, cy, x + 1, y - 1);
        lemma_hblinker_live_at(width, height, cx, cy, x - 1, y);
        lemma_hblinker_live_at(width, height, cx, cy, x + 1, y);
        lemma_hblinker_live_at(width, height, cx, cy, x - 1, y + 1);
        lemma_hblinker_live_at(width, height, cx, cy, x, y + 1);
        lemma_hblinker_live_at(width, height, cx, cy, x + 1, y + 1);
    }
    assert(next_board(hb, width, height) =~= vb);
    assert forall|i: int| 0 <= i < vb.len() implies next_cell(vb, i, width, height) == hb[i] by {
        lemma_index_decomposition(i, width, height);
        let x = col(i, width);
        let y = row(i, width);
        lemma_live_neighbors_in_coords(vb, i, width, height);
        lemma_vblinker_live_at(width, height, cx, cy, x - 1, y - 1);
        lemma_vblinker_live_at(width, height, cx, cy, x, y - 1);
        lemma_vblinker_live_at(width, height, cx, cy, x + 1, y - 1);
        lemma_vblinker_live_at(width, height, cx, cy, x - 1, y);
        lemma_vblinker_live_at(width, height, cx, cy, x + 1, y);
        lemma_vblinker_live_at(width, height, cx, cy, x - 1, y + 1);
        lemma_vblinker_live_at(width, height, cx, cy, x, y + 1);
        lemma_vblinker_live_at(width, height, cx, cy, x + 1, y + 1);
    }
    assert(next_board(vb, width, height) =~= hb);
}

/// Two generations return the blinker to its original form.
pub proof fn lemma_blinker_period_two(width: int, height: int, cx: int, cy: int)
    requires
        1 <= cx,
        cx + 2 <= width,
        1 <= cy,
        cy + 2 <= height,
    ensures
        next_board(
            next_board(hblinker_board(width, height, cx, cy), width, height),
            width,
            height,
        ) == hblinker_board(width, height, cx, cy),
{
    lemma_blinker_oscillates(width, height, cx, cy);
}

} // verus!
