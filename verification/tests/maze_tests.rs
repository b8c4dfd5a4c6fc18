use maze_core::maze_gen::Maze;
use maze_core::CoreError;
use maze_core::{GRID_SIZE, MAZE_ROWS};

#[test]
fn test_constants() {
    assert_eq!(GRID_SIZE, 41);
    assert_eq!(MAZE_ROWS * 2 + 1, GRID_SIZE);
}

#[test]
fn test_maze_generation() {
    let maze = Maze::generate(5, 5, 12345);
    let grid = maze.to_binary_grid();

    assert_eq!(grid.len(), 41);
    assert_eq!(grid[0].len(), 41);

    assert_eq!(grid[1][1], 1);

    assert_eq!(grid[9][9], 1);
}

#[test]
fn maze_gen_test_determinism() {
    let maze1 = Maze::generate(10, 10, 99999);
    let maze2 = Maze::generate(10, 10, 99999);

    let grid1 = maze1.to_binary_grid();
    let grid2 = maze2.to_binary_grid();

    assert_eq!(grid1, grid2);
}

#[test]
fn test_different_seeds() {
    let maze1 = Maze::generate(10, 10, 11111);
    let maze2 = Maze::generate(10, 10, 22222);

    let grid1 = maze1.to_binary_grid();
    let grid2 = maze2.to_binary_grid();

    assert_ne!(grid1, grid2);
}

#[test]
fn test_grid_size_20x20() {
    let maze = Maze::generate(20, 20, 2918957128);
    let grid = maze.to_binary_grid();

    assert_eq!(grid.len(), 41);
    assert_eq!(grid[0].len(), 41);

    assert_eq!(grid[0][0], 0);
    assert_eq!(grid[0][40], 0);
    assert_eq!(grid[40][0], 0);
    assert_eq!(grid[40][40], 0);

    assert_eq!(grid[1][1], 1);
    assert_eq!(grid[39][39], 1);
}

#[test]
fn test_to_binary_grid_vec() {
    let maze = Maze::generate(5, 5, 12345);
    let grid_vec = maze.to_binary_grid_vec();
    let grid_array = maze.to_binary_grid();

    assert_eq!(grid_vec.len(), 11);
    for (i, row) in grid_vec.iter().enumerate() {
        assert_eq!(row.len(), 11);
        for (j, &cell) in row.iter().enumerate() {
            assert_eq!(cell, grid_array[i][j]);
        }
    }
}

/// All path cells reachable from the canonical start by 4-neighborhood steps
/// over path cells.
fn reachable_path_cells(grid: &[Vec<u8>], size: usize) -> usize {
    let mut seen = vec![vec![false; size]; size];
    let mut queue = std::collections::VecDeque::new();
    seen[1][1] = true;
    queue.push_back((1usize, 1usize));
    let mut count = 0usize;
    while let Some((r, c)) = queue.pop_front() {
        count += 1;
        let mut neighbors = Vec::new();
        if r >= 1 {
            neighbors.push((r - 1, c));
        }
        if c + 1 < size {
            neighbors.push((r, c + 1));
        }
        if r + 1 < size {
            neighbors.push((r + 1, c));
        }
        if c >= 1 {
            neighbors.push((r, c - 1));
        }
        for (nr, nc) in neighbors {
            if grid[nr][nc] == 1 && !seen[nr][nc] {
                seen[nr][nc] = true;
                queue.push_back((nr, nc));
            }
        }
    }
    count
}

#[test]
fn test_spanning_tree_property() {
    for &seed in &[1u32, 42, 12345, 99999, 2918957128] {
        for &dims in &[5usize, 10, 20] {
            let maze = Maze::generate(dims, dims, seed);
            let grid = maze.to_binary_grid_vec();
            let size = dims * 2 + 1;
            assert_eq!(grid.len(), size);

            // Full wall border.
            for i in 0..size {
                assert_eq!(grid[0][i], 0, "seed {} dims {}: top border open", seed, dims);
                assert_eq!(grid[size - 1][i], 0, "seed {} dims {}: bottom border open", seed, dims);
                assert_eq!(grid[i][0], 0, "seed {} dims {}: left border open", seed, dims);
                assert_eq!(grid[i][size - 1], 0, "seed {} dims {}: right border open", seed, dims);
            }

            // Canonical start and goal are path cells.
            assert_eq!(grid[1][1], 1);
            assert_eq!(grid[size - 2][size - 2], 1);

            // Exactly one connected component of path cells, reachable from
            // the start: a spanning tree over dims * dims cell centers.
            let total: usize = grid
                .iter()
                .map(|row| row.iter().filter(|&&b| b == 1).count())
                .sum();
            let reached = reachable_path_cells(&grid, size);
            assert_eq!(
                reached, total,
                "seed {} dims {}: disconnected path cells",
                seed, dims
            );

            // A spanning tree over n cells opens exactly n - 1 passages.
            let cells = dims * dims;
            assert_eq!(total, cells + (cells - 1));
        }
    }
}

#[test]
fn test_generate_checked_rejects_oversized() {
    assert!(matches!(
        Maze::generate_checked(21, 20, 1),
        Err(CoreError::DimensionOverflow)
    ));
    assert!(matches!(
        Maze::generate_checked(20, 21, 1),
        Err(CoreError::DimensionOverflow)
    ));
    let maze = Maze::generate_checked(5, 5, 12345).unwrap();
    let grid = maze.to_binary_grid();
    let direct = Maze::generate(5, 5, 12345).to_binary_grid();
    assert_eq!(grid, direct);
}
