use life::board::Board;
use life::grid::get_neighbors;
use life::life::step;
use life::seed::random_board;

/// Builds a width*height board with the given linear indices live.
fn board_with(width: usize, height: usize, live: &[usize]) -> Vec<bool> {
    let mut cells = vec![false; width * height];
    for &i in live {
        cells[i] = true;
    }
    cells
}

#[test]
fn corner_cell_has_three_neighbors() {
    // 4x4 grid, index 0 is the top-left corner.
    let ns = get_neighbors(0, 4, 4);
    assert_eq!(ns, vec![1, 4, 5]);
}

#[test]
fn edge_cell_has_five_neighbors() {
    // 4x4 grid, index 1 sits on the top edge but not in a corner.
    let ns = get_neighbors(1, 4, 4);
    assert_eq!(ns, vec![0, 2, 4, 5, 6]);
}

#[test]
fn interior_cell_has_eight_neighbors() {
    // 4x4 grid, index 5 is the cell at column 1, row 1.
    let ns = get_neighbors(5, 4, 4);
    assert_eq!(ns, vec![0, 1, 2, 4, 6, 8, 9, 10]);
}

#[test]
fn neighbors_are_in_range_unique_and_exclude_self() {
    let width = 5;
    let height = 4;
    for index in 0..width * height {
        let ns = get_neighbors(index, width, height);
        for (a, &n) in ns.iter().enumerate() {
            assert!(n < width * height);
            assert_ne!(n, index);
            for &m in ns.iter().skip(a + 1) {
                assert_ne!(n, m);
            }
        }
    }
}

#[test]
fn neighbor_counts_by_position_class() {
    let width = 5;
    let height = 4;
    for index in 0..width * height {
        let x = index % width;
        let y = index / width;
        let on_x_edge = x == 0 || x + 1 == width;
        let on_y_edge = y == 0 || y + 1 == height;
        let expected = if on_x_edge && on_y_edge {
            3
        } else if on_x_edge || on_y_edge {
            5
        } else {
            8
        };
        assert_eq!(get_neighbors(index, width, height).len(), expected);
    }
}

#[test]
fn block_is_unchanged_after_one_step() {
    // 2x2 block at columns 1-2, rows 1-2 of a 4x4 grid.
    let cells = board_with(4, 4, &[5, 6, 9, 10]);
    let next = step(&cells, 4, 4);
    assert_eq!(next, cells);
}

#[test]
fn blinker_flips_and_flips_back() {
    // Horizontal blinker on the middle row of a 5x5 grid.
    let horizontal = board_with(5, 5, &[11, 12, 13]);
    let vertical = board_with(5, 5, &[7, 12, 17]);
    let after_one = step(&horizontal, 5, 5);
    assert_eq!(after_one, vertical);
    let after_two = step(&after_one, 5, 5);
    assert_eq!(after_two, horizontal);
}

#[test]
fn isolated_cell_dies() {
    // A single live cell in the middle of a 3x3 grid.
    let cells = board_with(3, 3, &[4]);
    let next = step(&cells, 3, 3);
    assert_eq!(next, vec![false; 9]);
}

#[test]
fn dead_cell_with_three_live_neighbors_is_born() {
    // An L of three live cells; the dead cell at column 1, row 1 has exactly
    // three live neighbors and is born, completing a block.
    let cells = board_with(3, 3, &[0, 1, 3]);
    let next = step(&cells, 3, 3);
    assert_eq!(next, board_with(3, 3, &[0, 1, 3, 4]));
}

#[test]
fn overcrowded_cell_dies() {
    // The center of a plus sign has four live neighbors and dies; each arm
    // keeps two or three neighbors.
    let cells = board_with(3, 3, &[1, 3, 4, 5, 7]);
    let next = step(&cells, 3, 3);
    assert_eq!(next, board_with(3, 3, &[0, 1, 2, 3, 5, 6, 7, 8]));
}

#[test]
fn random_board_has_requested_length() {
    assert_eq!(random_board(0).len(), 0);
    assert_eq!(random_board(1).len(), 1);
    assert_eq!(random_board(100).len(), 100);
}

#[test]
fn board_keeps_its_size_across_generations() {
    let mut board = Board::new_random(10, 8);
    assert_eq!(board.width, 10);
    assert_eq!(board.height, 8);
    assert_eq!(board.cells.len(), 80);
    for _ in 0..5 {
        board.step();
        assert_eq!(board.cells.len(), 80);
    }
}

#[test]
fn board_step_applies_the_rule() {
    let mut board = Board {
        width: 5,
        height: 5,
        cells: board_with(5, 5, &[11, 12, 13]),
    };
    board.step();
    assert_eq!(board.cells, board_with(5, 5, &[7, 12, 17]));
    assert!(board.cell(12));
    assert!(!board.cell(11));
}
