//! Grid geometry: the row-major layout of a bounded (non-wrapping) board and
//! the enumeration of each cell's up-to-8 neighbors.

use vstd::prelude::*;
use vstd::arithmetic::div_mod::{
    lemma_fundamental_div_mod, lemma_fundamental_div_mod_converse, lemma_mod_bound,
};

verus! {

/// Column of the cell with linear index `i` on a grid `width` cells wide.
pub open spec fn col(i: int, width: int) -> int {
    i % width
}

/// Row of the cell with linear index `i` on a grid `width` cells wide.
pub open spec fn row(i: int, width: int) -> int {
    i / width
}

/// Linear index of the cell in column `x`, row `y` (row-major layout).
pub open spec fn index_at(x: int, y: int, width: int) -> int {
    y * width + x
}

/// The position (x, y) lies on the grid.
pub open spec fn in_grid(x: int, y: int, width: int, height: int) -> bool {
    0 <= x < width && 0 <= y < height
}

/// Cells `i` and `j` are distinct and horizontally, vertically, or diagonally
/// adjacent by their coordinates. The grid does not wrap: a cell in the last
/// column is never adjacent to one in the first.
pub open spec fn adjacent(i: int, j: int, width: int) -> bool {
    &&& j != i
    &&& -1 <= col(j, width) - col(i, width) <= 1
    &&& -1 <= row(j, width) - row(i, width) <= 1
}

/// The singleton sequence holding the index of (x, y) when that position lies
/// on the grid, and the empty sequence otherwise.
pub open spec fn clipped(x: int, y: int, width: int, height: int) -> Seq<int> {
    if in_grid(x, y, width, height) {
        seq![index_at(x, y, width)]
    } else {
        Seq::<int>::empty()
    }
}

/// The neighbor indices of cell `i`, in row-major order of the neighboring
/// positions, clipped at the grid boundary.
pub open spec fn neighbor_indices(i: int, width: int, height: int) -> Seq<int> {
    let x = col(i, width);
    let y = row(i, width);
    clipped(x - 1, y - 1, width, height) + clipped(x, y - 1, width, height) + clipped(
        x + 1,
        y - 1,
        width,
        height,
    ) + clipped(x - 1, y, width, height) + clipped(x + 1, y, width, height) + clipped(
        x - 1,
        y + 1,
        width,
        height,
    ) + clipped(x, y + 1, width, height) + clipped(x + 1, y + 1, width, height)
}

/// A position on the grid has an index within the board.
pub proof fn lemma_index_at_bounds(x: int, y: int, width: int, height: int)
    by (nonlinear_arith)
    requires
        0 <= x < width,
        0 <= y < height,
    ensures
        0 <= y * width + x < width * height,
{
}

/// Row and column recover the coordinates an index was built from.
pub proof fn lemma_rowcol_of_index_at(x: int, y: int, width: int)
    requires
        0 <= x < width,
        0 <= y,
    ensures
        col(y * width + x, width) == x,
        row(y * width + x, width) == y,
{
    lemma_fundamental_div_mod_converse(y * width + x, width, y, x);
}

/// Every in-range index decomposes into on-grid coordinates, and is rebuilt
/// from them.
pub proof fn lemma_index_decomposition(i: int, width: int, height: int)
    requires
        0 < width,
        0 < height,
        0 <= i < width * height,
    ensures
        in_grid(col(i, width), row(i, width), width, height),
        index_at(col(i, width), row(i, width), width) == i,
{
    lemma_fundamental_div_mod(i, width);
    lemma_mod_bound(i, width);
    assert(0 <= i / width && i / width < height && (i / width) * width + (i % width) == i)
        by (nonlinear_arith)
        requires
            i == width * (i / width) + (i % width),
            0 <= i % width < width,
            0 <= i < width * height,
            0 < width,
    ;
}

/// Concatenation holds exactly the elements of both parts.
proof fn lemma_add_contains(s: Seq<int>, t: Seq<int>, v: int)
    ensures
        (s + t).contains(v) <==> s.contains(v) || t.contains(v),
{
    if s.contains(v) {
        let k = choose|k: int| 0 <= k < s.len() && s[k] == v;
        assert((s + t)[k] == v);
    }
    if t.contains(v) {
        let k = choose|k: int| 0 <= k < t.len() && t[k] == v;
        assert((s + t)[s.len() + k] == v);
    }
    if (s + t).contains(v) {
        let k = choose|k: int| 0 <= k < (s + t).len() && (s + t)[k] == v;
        if k < s.len() {
            assert(s[k] == v);
        } else {
            assert(t[k - s.len()] == v);
        }
    }
}

/// A clipped singleton holds exactly the index of its position, when that
/// position is on the grid.
proof fn lemma_clipped_contains(x: int, y: int, width: int, height: int, v: int)
    ensures
        clipped(x, y, width, height).contains(v) <==> (in_grid(x, y, width, height) && v
            == index_at(x, y, width)),
{
    if in_grid(x, y, width, height) {
        assert(clipped(x, y, width, height)[0] == index_at(x, y, width));
    }
}

/// Membership in the neighbor enumeration, spelled out position by position.
proof fn lemma_neighbor_indices_membership(i: int, width: int, height: int, v: int)
    requires
        0 < width,
        0 < height,
        0 <= i < width * height,
    ensures
        neighbor_indices(i, width, height).contains(v) <==> ({
            let x = col(i, width);
            let y = row(i, width);
            (in_grid(x - 1, y - 1, width, height) && v == index_at(x - 1, y - 1, width)) || (
            in_grid(x, y - 1, width, height) && v == index_at(x, y - 1, width)) || (in_grid(
                x + 1,
                y - 1,
                width,
                height,
            ) && v == index_at(x + 1, y - 1, width)) || (in_grid(x - 1, y, width, height) && v
                == index_at(x - 1, y, width)) || (in_grid(x + 1, y, width, height) && v == index_at(
                x + 1,
                y,
                width,
            )) || (in_grid(x - 1, y + 1, width, height) && v == index_at(x - 1, y + 1, width)) || (
            in_grid(x, y + 1, width, height) && v == index_at(x, y + 1, width)) || (in_grid(
                x + 1,
                y + 1,
                width,
                height,
            ) && v == index_at(x + 1, y + 1, width))
        }),
{
    let x = col(i, width);
    let y = row(i, width);
    let s1 = clipped(x - 1, y - 1, width, height);
    let s2 = clipped(x, y - 1, width, height);
    let s3 = clipped(x + 1, y - 1, width, height);
    let s4 = clipped(x - 1, y, width, height);
    let s5 = clipped(x + 1, y, width, height);
    let s6 = clipped(x - 1, y + 1, width, height);
    let s7 = clipped(x, y + 1, width, height);
    let s8 = clipped(x + 1, y + 1, width, height);
    lemma_add_contains(s1 + s2 + s3 + s4 + s5 + s6 + s7, s8, v);
    lemma_add_contains(s1 + s2 + s3 + s4 + s5 + s6, s7, v);
    lemma_add_contains(s1 + s2 + s3 + s4 + s5, s6, v);
    lemma_add_contains(s1 + s2 + s3 + s4, s5, v);
    lemma_add_contains(s1 + s2 + s3, s4, v);
    lemma_add_contains(s1 + s2, s3, v);
    lemma_add_contains(s1, s2, v);
    lemma_clipped_contains(x - 1, y - 1, width, height, v);
    lemma_clipped_contains(x, y - 1, width, height, v);
    lemma_clipped_contains(x + 1, y - 1, width, height, v);
    lemma_clipped_contains(x - 1, y, width, height, v);
    lemma_clipped_contains(x + 1, y, width, height, v);
    lemma_clipped_contains(x - 1, y + 1, width, height, v);
    lemma_clipped_contains(x, y + 1, width, height, v);
    lemma_clipped_contains(x + 1, y + 1, width, height, v);
}

/// Facts used whenever a neighboring position is read back from its index.
proof fn lemma_neighbor_position(i: int, width: int, height: int, dx: int, dy: int)
    requires
        0 < width,
        0 < height,
        0 <= i < width * height,
        -1 <= dx <= 1,
        -1 <= dy <= 1,
        in_grid(col(i, width) + dx, row(i, width) + dy, width, height),
    ensures
        0 <= index_at(col(i, width) + dx, row(i, width) + dy, width) < width * height,
        col(index_at(col(i, width) + dx, row(i, width) + dy, width), width) == col(i, width) + dx,
        row(index_at(col(i, width) + dx, row(i, width) + dy, width), width) == row(i, width) + dy,
{
    lemma_index_at_bounds(col(i, width) + dx, row(i, width) + dy, width, height);
    lemma_rowcol_of_index_at(col(i, width) + dx, row(i, width) + dy, width);
}

/// Bounds and coordinates of every on-grid neighboring position of cell `i`,
/// stated as ground facts for each of the eight offsets.
proof fn lemma_all_neighbor_positions(i: int, width: int, height: int)
    requires
        0 < width,
        0 < height,
        0 <= i < width * height,
    ensures
        in_grid(col(i, width) - 1, row(i, width) - 1, width, height) ==> 0 <= index_at(
            col(i, width) - 1,
            row(i, width) - 1,
            width,
        ) < width * height && col(index_at(col(i, width) - 1, row(i, width) - 1, width), width)
            == col(i, width) - 1 && row(index_at(col(i, width) - 1, row(i, width) - 1, width), width)
            == row(i, width) - 1,
        in_grid(col(i, width), row(i, width) - 1, width, height) ==> 0 <= index_at(
            col(i, width),
            row(i, width) - 1,
            width,
        ) < width * height && col(index_at(col(i, width), row(i, width) - 1, width), width) == col(
            i,
            width,
        ) && row(index_at(col(i, width), row(i, width) - 1, width), width) == row(i, width) - 1,
        in_grid(col(i, width) + 1, row(i, width) - 1, width, height) ==> 0 <= index_at(
            col(i, width) + 1,
            row(i, width) - 1,
            width,
        ) < width * height && col(index_at(col(i, width) + 1, row(i, width) - 1, width), width)
            == col(i, width) + 1 && row(index_at(col(i, width) + 1, row(i, width) - 1, width), width)
            == row(i, width) - 1,
        in_grid(col(i, width) - 1, row(i, width), width, height) ==> 0 <= index_at(
            col(i, width) - 1,
            row(i, width),
            width,
        ) < width * height && col(index_at(col(i, width) - 1, row(i, width), width), width) == col(
            i,
            width,
        ) - 1 && row(index_at(col(i, width) - 1, row(i, width), width), width) == row(i, width),
        in_grid(col(i, width) + 1, row(i, width), width, height) ==> 0 <= index_at(
            col(i, width) + 1,
            row(i, width),
            width,
        ) < width * height && col(index_at(col(i, width) + 1, row(i, width), width), width) == col(
            i,
            width,
        ) + 1 && row(index_at(col(i, width) + 1, row(i, width), width), width) == row(i, width),
        in_grid(col(i, width) - 1, row(i, width) + 1, width, height) ==> 0 <= index_at(
            col(i, width) - 1,
            row(i, width) + 1,
            width,
        ) < width * height && col(index_at(col(i, width) - 1, row(i, width) + 1, width), width)
            == col(i, width) - 1 && row(index_at(col(i, width) - 1, row(i, width) + 1, width), width)
            == row(i, width) + 1,
        in_grid(col(i, width), row(i, width) + 1, width, height) ==> 0 <= index_at(
            col(i, width),
            row(i, width) + 1,
            width,
        ) < width * height && col(index_at(col(i, width), row(i, width) + 1, width), width) == col(
            i,
            width,
        ) && row(index_at(col(i, width), row(i, width) + 1, width), width) == row(i, width) + 1,
        in_grid(col(i, width) + 1, row(i, width) + 1, width, height) ==> 0 <= index_at(
            col(i, width) + 1,
            row(i, width) + 1,
            width,
        ) < width * height && col(index_at(col(i, width) + 1, row(i, width) + 1, width), width)
            == col(i, width) + 1 && row(index_at(col(i, width) + 1, row(i, width) + 1, width), width)
            == row(i, width) + 1,
{
    let x = col(i, width);
    let y = row(i, width);
    if in_grid(x - 1, y - 1, width, height) {
        lemma_neighbor_position(i, width, height, -1, -1);
    }
    if in_grid(x, y - 1, width, height) {
        lemma_neighbor_position(i, width, height, 0, -1);
    }
    if in_grid(x + 1, y - 1, width, height) {
        lemma_neighbor_position(i, width, height, 1, -1);
    }
    if in_grid(x - 1, y, width, height) {
        lemma_neighbor_position(i, width, height, -1, 0);
    }
    if in_grid(x + 1, y, width, height) {
        lemma_neighbor_position(i, width, height, 1, 0);
    }
    if in_grid(x - 1, y + 1, width, height) {
        lemma_neighbor_position(i, width, height, -1, 1);
    }
    if in_grid(x, y + 1, width, height) {
        lemma_neighbor_position(i, width, height, 0, 1);
    }
    if in_grid(x + 1, y + 1, width, height) {
        lemma_neighbor_position(i, width, height, 1, 1);
    }
}

/// The neighbor enumeration of an in-range cell is exactly the set of
/// in-range cells adjacent to it: every entry is on the board, distinct from
/// the cell itself and adjacent to it, no entry repeats, and every adjacent
/// in-range cell appears. An interior cell has 8 neighbors, a boundary
/// non-corner cell 5, and a corner cell 3.
pub proof fn lemma_neighbor_properties(i: int, width: int, height: int)
    requires
        0 < width,
        0 < height,
        0 <= i < width * height,
    ensures
        forall|j: int| #[trigger]
            neighbor_indices(i, width, height).contains(j) <==> (0 <= j < width * height
                && adjacent(i, j, width)),
        neighbor_indices(i, width, height).no_duplicates(),
        (0 < col(i, width) && col(i, width) + 1 < width && 0 < row(i, width) && row(i, width) + 1
            < height) ==> neighbor_indices(i, width, height).len() == 8,
        ((col(i, width) == 0 || col(i, width) + 1 == width) && 2 <= width && 0 < row(i, width)
            && row(i, width) + 1 < height) ==> neighbor_indices(i, width, height).len() == 5,
        ((row(i, width) == 0 || row(i, width) + 1 == height) && 2 <= height && 0 < col(i, width)
            && col(i, width) + 1 < width) ==> neighbor_indices(i, width, height).len() == 5,
        ((col(i, width) == 0 || col(i, width) + 1 == width) && (row(i, width) == 0 || row(i, width)
            + 1 == height) && 2 <= width && 2 <= height) ==> neighbor_indices(
            i,
            width,
            height,
        ).len() == 3,
{
    let x = col(i, width);
    let y = row(i, width);
    lemma_index_decomposition(i, width, height);
    lemma_all_neighbor_positions(i, width, height);
    assert forall|j: int| #[trigger]
        neighbor_indices(i, width, height).contains(j) implies (0 <= j < width * height && adjacent(
        i,
        j,
        width,
    )) by {
        lemma_neighbor_indices_membership(i, width, height, j);
    }
    assert forall|j: int|
        0 <= j < width * height && adjacent(i, j, width) implies #[trigger] neighbor_indices(
        i,
        width,
        height,
    ).contains(j) by {
        lemma_index_decomposition(j, width, height);
        let dx = col(j, width) - x;
        let dy = row(j, width) - y;
        assert(in_grid(x + dx, y + dy, width, height));
        lemma_neighbor_indices_membership(i, width, height, j);
    }
    let ns = neighbor_indices(i, width, height);
    assert forall|k1: int, k2: int|
        0 <= k1 < ns.len() && 0 <= k2 < ns.len() && k1 != k2 implies ns[k1] != ns[k2] by {
        assert(ns == clipped(x - 1, y - 1, width, height) + clipped(x, y - 1, width, height)
            + clipped(x + 1, y - 1, width, height) + clipped(x - 1, y, width, height) + clipped(
            x + 1,
            y,
            width,
            height,
        ) + clipped(x - 1, y + 1, width, height) + clipped(x, y + 1, width, height) + clipped(
            x + 1,
            y + 1,
            width,
            height,
        ));
    }
}

/// Returns the linear indices of all grid cells horizontally, vertically, or
/// diagonally adjacent to `index`: up to 8, fewer where the boundary clips
/// the neighborhood (the grid does not wrap).
pub fn get_neighbors(index: usize, width: usize, height: usize) -> (neighbors: Vec<usize>)
    requires
        0 < width,
        0 < height,
        index < width * height,
        width * height <= usize::MAX,
    ensures
        neighbors@.map_values(|n: usize| n as int) == neighbor_indices(
            index as int,
            width as int,
            height as int,
        ),
        forall|k: int|
            0 <= k < neighbors@.len() ==> (#[trigger] neighbors@[k]) < width * height,
{
    proof {
        lemma_index_decomposition(index as int, width as int, height as int);
        lemma_all_neighbor_positions(index as int, width as int, height as int);
    }
    let x = index % width;
    let y = index / width;
    let mut neighbors: Vec<usize> = Vec::new();
    if y > 0 {
        if x > 0 {
            neighbors.push((y - 1) * width + (x - 1));
        }
        neighbors.push((y - 1) * width + x);
        if x + 1 < width {
            neighbors.push((y - 1) * width + (x + 1));
        }
    }
    if x > 0 {
        neighbors.push(y * width + (x - 1));
    }
    if x + 1 < width {
        neighbors.push(y * width + (x + 1));
    }
    if y + 1 < height {
        if x > 0 {
            neighbors.push((y + 1) * width + (x - 1));
        }
        neighbors.push((y + 1) * width + x);
        if x + 1 < width {
            neighbors.push((y + 1) * width + (x + 1));
        }
    }
    proof {
        assert(neighbors@.map_values(|n: usize| n as int) =~= neighbor_indices(
            index as int,
            width as int,
            height as int,
        ));
    }
    neighbors
}

} // verus!
