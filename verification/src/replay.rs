//! Path replay state machine.
//!
//! A move sequence is replayed against a flat occupancy grid from a start
//! position toward a goal position.  Each move must name a valid direction,
//! stay inside the grid, and land on a path cell; one rejected move
//! invalidates the whole sequence.  Replay stops as soon as the goal is
//! reached: later moves are ignored.  The verdict is true exactly when the
//! goal was reached.

use vstd::prelude::*;

verus! {

/// The grid byte at `(r, c)` of a row-major flat grid with side `size`.
pub open spec fn grid_at(g: Seq<u8>, size: int, r: int, c: int) -> u8 {
    g[r * size + c]
}

/// Row displacement of a direction: north is -1, south is +1.
pub open spec fn row_delta(dir: u8) -> int {
    if dir == 0 {
        -1
    } else if dir == 2 {
        1
    } else {
        0
    }
}

/// Column displacement of a direction: east is +1, west is -1.
pub open spec fn col_delta(dir: u8) -> int {
    if dir == 1 {
        1
    } else if dir == 3 {
        -1
    } else {
        0
    }
}

/// Replay of `moves` from position `(r, c)`: true iff some prefix of the
/// moves walks to `(end, end)` with every step a valid direction, in bounds,
/// and on a path cell.  Moves after the goal is reached are ignored; running
/// out of moves before the goal means failure.
pub open spec fn replay_from(
    g: Seq<u8>,
    size: int,
    end: int,
    moves: Seq<u8>,
    r: int,
    c: int,
) -> bool
    decreases moves.len(),
{
    if moves.len() == 0 {
        false
    } else {
        let dir = moves[0];
        if dir > 3 {
            false
        } else {
            let nr = r + row_delta(dir);
            let nc = c + col_delta(dir);
            if nr < 0 || nr >= size || nc < 0 || nc >= size {
                false
            } else if grid_at(g, size, nr, nc) != 1 {
                false
            } else if nr == end && nc == end {
                true
            } else {
                replay_from(g, size, end, moves.drop_first(), nr, nc)
            }
        }
    }
}

/// Whole-sequence validity: the start cell must itself be a path cell, and
/// the replay from the start must reach the goal.  An empty move sequence is
/// never valid, since the start differs from the goal only by walking.
pub open spec fn replay_valid(g: Seq<u8>, size: int, start: int, end: int, moves: Seq<u8>) -> bool {
    grid_at(g, size, start, start) == 1 && replay_from(g, size, end, moves, start, start)
}

/// A position strictly inside an in-bounds row and column maps to an
/// in-bounds flat index.
pub proof fn lemma_flat_index(r: int, c: int, size: int)
    requires
        0 <= r < size,
        0 <= c < size,
    ensures
        0 <= r * size + c < size * size,
{
    assert(0 <= r * size + c < size * size) by (nonlinear_arith)
        requires
            0 <= r < size,
            0 <= c < size,
    ;
}

/// Replay a move sequence against a flat grid with side `grid_size`, from
/// `(start_pos, start_pos)` toward `(end_pos, end_pos)`.
///
/// Returns true exactly when the start cell is a path and a prefix of the
/// moves reaches the goal with every step a valid direction, in bounds, and
/// on a path cell.
pub fn verify_maze_solution(
    moves: &Vec<u8>,
    grid: &Vec<u8>,
    grid_size: usize,
    start_pos: usize,
    end_pos: usize,
) -> (valid: bool)
    requires
        grid@.len() == grid_size * grid_size,
        start_pos < grid_size,
        end_pos < grid_size,
    ensures
        valid == replay_valid(
            grid@,
            grid_size as int,
            start_pos as int,
            end_pos as int,
            moves@,
        ),
{
    let ghost g = grid@;
    let ghost size = grid_size as int;
    let ghost end = end_pos as int;
    let glen = grid.len();
    proof {
        assert(grid_size <= 0xffff_ffff) by (nonlinear_arith)
            requires
                grid_size * grid_size == glen,
                glen <= usize::MAX,
        ;
    }
    let mut row = start_pos;
    let mut col = start_pos;
    proof {
        lemma_flat_index(row as int, col as int, grid_size as int);
        assert(row * grid_size + col < glen);
    }
    if grid[row * grid_size + col] != 1 {
        return false;
    }
    proof {
        assert(grid_at(g, size, start_pos as int, start_pos as int) == 1);
        assert(moves@.skip(0) =~= moves@);
    }
    let mut i: usize = 0;
    while i < moves.len()
        invariant
            grid@ == g,
            g.len() == size * size,
            size == grid_size,
            end == end_pos,
            grid_size <= 0xffff_ffff,
            glen == g.len(),
            row < grid_size,
            col < grid_size,
            i <= moves@.len(),
            grid_at(g, size, start_pos as int, start_pos as int) == 1,
            replay_valid(g, size, start_pos as int, end, moves@) == replay_from(
                g,
                size,
                end,
                moves@.skip(i as int),
                row as int,
                col as int,
            ),
        decreases moves@.len() - i,
    {
        let ghost rest = moves@.skip(i as int);
        assert(rest[0] == moves@[i as int]);
        let dir = moves[i];
        if dir > 3 {
            return false;
        }
        let next_row: usize;
        let next_col: usize;
        if dir == 0 {
            if row == 0 {
                return false;
            }
            next_row = row - 1;
            next_col = col;
        } else if dir == 1 {
            next_row = row;
            next_col = col + 1;
            if next_col >= grid_size {
                return false;
            }
        } else if dir == 2 {
            next_row = row + 1;
            next_col = col;
            if next_row >= grid_size {
                return false;
            }
        } else {
            if col == 0 {
                return false;
            }
            next_row = row;
            next_col = col - 1;
        }
        proof {
            lemma_flat_index(next_row as int, next_col as int, size);
            assert(next_row * grid_size + next_col < glen);
        }
        if grid[next_row * grid_size + next_col] != 1 {
            return false;
        }
        row = next_row;
        col = next_col;
        if row == end_pos && col == end_pos {
            return true;
        }
        proof {
            assert(moves@.skip(i as int).drop_first() =~= moves@.skip(i + 1));
        }
        i = i + 1;
    }
    false
}

} // verus!
