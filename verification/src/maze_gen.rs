//! Maze generation by recursive backtracking.
//!
//! The generator walks an R x C cell grid (R, C at most 20) depth-first with
//! an explicit stack, clearing walls between a cell and a randomly chosen
//! unvisited neighbor, and backtracking when no unvisited neighbor remains.
//! The walk is modeled step by step as a mathematical state machine
//! ([`GenState`], [`gen_step`], [`gen_iter`]) so that the generated cell
//! structure is pinned to a pure function of the seed: regeneration from the
//! same seed is byte-identical (see [`lemma_generation_deterministic`]).
//!
//! One quirk is kept deliberately: on backtracking, the cursor is assigned
//! the entry popped off the stack, which is the cell it already pointed at,
//! so the same cell is examined once more before the next entry surfaces.
//! This matches the committed cross-implementation behavior exactly.

use vstd::prelude::*;

use crate::rng::{lcg_init, lcg_next, lcg_scale, SimpleLCG};
use crate::CoreError;

verus! {

/// Direction index: north.
pub const NORTH: usize = 0;

/// Direction index: east.
pub const EAST: usize = 1;

/// Direction index: south.
pub const SOUTH: usize = 2;

/// Direction index: west.
pub const WEST: usize = 3;

/// Maximum cell rows; the backing cell buffer is always this tall.
pub const MAX_MAZE_ROWS: usize = 20;

/// Maximum cell columns; the backing cell buffer is always this wide.
pub const MAX_MAZE_COLS: usize = 20;

/// A cell of the maze: one wall flag per cardinal direction, plus a visited
/// flag used only during generation.
#[derive(Clone, Copy)]
pub struct Cell {
    pub wall_north: bool,
    pub wall_east: bool,
    pub wall_south: bool,
    pub wall_west: bool,
    pub visited: bool,
}

/// A fresh cell: all four walls present, not yet visited.
pub open spec fn cell_new() -> Cell {
    Cell { wall_north: true, wall_east: true, wall_south: true, wall_west: true, visited: false }
}

/// `c` with the wall in direction `dir` cleared.
pub open spec fn clear_wall(c: Cell, dir: usize) -> Cell {
    if dir == NORTH {
        Cell { wall_north: false, ..c }
    } else if dir == EAST {
        Cell { wall_east: false, ..c }
    } else if dir == SOUTH {
        Cell { wall_south: false, ..c }
    } else {
        Cell { wall_west: false, ..c }
    }
}

/// `c` marked visited.
pub open spec fn mark_visited(c: Cell) -> Cell {
    Cell { visited: true, ..c }
}

/// The direction opposite to `dir`.
pub open spec fn opposite(dir: usize) -> usize {
    if dir == NORTH {
        SOUTH
    } else if dir == SOUTH {
        NORTH
    } else if dir == EAST {
        WEST
    } else {
        EAST
    }
}

impl Cell {
    /// A fresh cell: all walls present, not visited.
    pub fn new() -> (c: Self)
        ensures
            c == cell_new(),
    {
        Self { wall_north: true, wall_east: true, wall_south: true, wall_west: true, visited: false }
    }

    /// This cell with the wall in direction `dir` cleared.
    pub fn with_wall_cleared(self, dir: usize) -> (r: Self)
        requires
            dir <= 3,
        ensures
            r == clear_wall(self, dir),
    {
        if dir == NORTH {
            Self { wall_north: false, ..self }
        } else if dir == EAST {
            Self { wall_east: false, ..self }
        } else if dir == SOUTH {
            Self { wall_south: false, ..self }
        } else {
            Self { wall_west: false, ..self }
        }
    }
}

/// Flat index of cell `(r, c)` in the backing buffer.
pub open spec fn cell_idx(r: int, c: int) -> int {
    r * 20 + c
}

/// The cell at `(r, c)` of a flat cell buffer.
pub open spec fn cell_at(cells: Seq<Cell>, r: int, c: int) -> Cell {
    cells[cell_idx(r, c)]
}

/// The unvisited in-bounds neighbors of cell `(r, c)`, in the fixed
/// enumeration order north, east, south, west.  Each entry is
/// `(direction, neighbor row, neighbor column)`.
pub open spec fn unvisited_neighbors(
    cells: Seq<Cell>,
    rows: usize,
    cols: usize,
    r: usize,
    c: usize,
) -> Seq<(usize, usize, usize)> {
    (if r >= 1 && r - 1 < rows && c < cols && !cell_at(cells, r - 1, c as int).visited {
        seq![(NORTH, (r - 1) as usize, c)]
    } else {
        Seq::empty()
    }) + (if r < rows && c + 1 < cols && !cell_at(cells, r as int, c + 1).visited {
        seq![(EAST, r, (c + 1) as usize)]
    } else {
        Seq::empty()
    }) + (if r + 1 < rows && c < cols && !cell_at(cells, r + 1, c as int).visited {
        seq![(SOUTH, (r + 1) as usize, c)]
    } else {
        Seq::empty()
    }) + (if c >= 1 && r < rows && c - 1 < cols && !cell_at(cells, r as int, c - 1).visited {
        seq![(WEST, r, (c - 1) as usize)]
    } else {
        Seq::empty()
    })
}

/// Each listed neighbor lies one step from `(r, c)` in its direction, and
/// the guard of that direction held: a north neighbor exists only when
/// `r >= 1`, an east neighbor only when `c + 1 < cols`, a south neighbor
/// only when `r + 1 < rows`, a west neighbor only when `c >= 1`.
pub proof fn lemma_unvisited_neighbors_shape(
    cells: Seq<Cell>,
    rows: usize,
    cols: usize,
    r: usize,
    c: usize,
)
    ensures
        forall|i: int|
            0 <= i < unvisited_neighbors(cells, rows, cols, r, c).len() ==> {
                let t = #[trigger] unvisited_neighbors(cells, rows, cols, r, c)[i];
                &&& (t.0 == NORTH ==> r >= 1 && t.1 == r - 1 && t.2 == c)
                &&& (t.0 == EAST ==> c + 1 < cols && t.1 == r && t.2 == c + 1)
                &&& (t.0 == SOUTH ==> r + 1 < rows && t.1 == r + 1 && t.2 == c)
                &&& (t.0 == WEST ==> c >= 1 && t.1 == r && t.2 == c - 1)
            },
{
}

/// Every listed neighbor has a valid direction, lies inside the active
/// `rows` x `cols` region, and is unvisited.
pub proof fn lemma_unvisited_neighbors_sound(
    cells: Seq<Cell>,
    rows: usize,
    cols: usize,
    r: usize,
    c: usize,
)
    requires
        rows <= 20,
        cols <= 20,
    ensures
        forall|i: int|
            0 <= i < unvisited_neighbors(cells, rows, cols, r, c).len() ==> {
                let t = #[trigger] unvisited_neighbors(cells, rows, cols, r, c)[i];
                t.0 <= 3 && t.1 < rows && t.2 < cols && !cell_at(cells, t.1 as int, t.2 as int).visited
            },
{
}

/// The instantaneous state of the generation walk: the cell buffer, the RNG
/// state, the explicit stack, and the cursor.
pub struct GenState {
    pub cells: Seq<Cell>,
    pub rng: u32,
    pub stack: Seq<(usize, usize)>,
    pub cur: (usize, usize),
}

/// The backing buffer before the walk starts: 400 fresh cells with the start
/// cell `(0, 0)` already marked visited.
pub open spec fn init_cells() -> Seq<Cell> {
    Seq::new(400, |i: int| cell_new()).update(0, mark_visited(cell_new()))
}

/// The walk's starting state for a given initial RNG state: the start cell is
/// visited and on the stack, and the cursor points at it.
pub open spec fn gen_init(rng0: u32) -> GenState {
    GenState { cells: init_cells(), rng: rng0, stack: seq![(0usize, 0usize)], cur: (0usize, 0usize) }
}

/// One iteration of the generation loop.
///
/// With a non-empty stack: if the cursor's cell has unvisited neighbors, one
/// is chosen by the RNG, the wall between the two cells is cleared on both
/// sides, and the neighbor is marked visited, pushed, and made the cursor.
/// Otherwise the stack is popped and the cursor is assigned the popped entry
/// (which it already equals).  With an empty stack the state is final.
pub open spec fn gen_step(s: GenState, rows: usize, cols: usize) -> GenState {
    if s.stack.len() == 0 {
        s
    } else {
        let r = s.cur.0;
        let c = s.cur.1;
        let ns = unvisited_neighbors(s.cells, rows, cols, r, c);
        if ns.len() > 0 {
            let rng1 = lcg_next(s.rng);
            let i = lcg_scale(rng1, ns.len() as int);
            let t = ns[i];
            let cleared = s.cells.update(
                cell_idx(r as int, c as int),
                clear_wall(cell_at(s.cells, r as int, c as int), t.0),
            );
            let linked = cleared.update(
                cell_idx(t.1 as int, t.2 as int),
                mark_visited(clear_wall(cell_at(cleared, t.1 as int, t.2 as int), opposite(t.0))),
            );
            GenState {
                cells: linked,
                rng: rng1,
                stack: s.stack.push((t.1, t.2)),
                cur: (t.1, t.2),
            }
        } else {
            GenState {
                cells: s.cells,
                rng: s.rng,
                stack: s.stack.drop_last(),
                cur: s.stack.last(),
            }
        }
    }
}

/// The state after `n` iterations of the generation loop.
pub open spec fn gen_iter(s: GenState, rows: usize, cols: usize, n: nat) -> GenState
    decreases n,
{
    if n == 0 {
        s
    } else {
        gen_step(gen_iter(s, rows, cols, (n - 1) as nat), rows, cols)
    }
}

/// `cells` is the cell buffer the walk leaves behind for this seed: the state
/// after some number of iterations has an empty stack and that buffer.
pub open spec fn maze_complete(rows: usize, cols: usize, seed: u32, cells: Seq<Cell>) -> bool {
    exists|n: nat|
        (#[trigger] gen_iter(gen_init(lcg_init(seed)), rows, cols, n)).stack.len() == 0
            && cells == gen_iter(gen_init(lcg_init(seed)), rows, cols, n).cells
}

/// A state with an empty stack is a fixed point of the loop.
pub proof fn lemma_gen_step_fixpoint(s: GenState, rows: usize, cols: usize)
    requires
        s.stack.len() == 0,
    ensures
        gen_step(s, rows, cols) == s,
{
}

/// Once the stack is empty the state never changes again.
pub proof fn lemma_gen_iter_stable(s: GenState, rows: usize, cols: usize, m: nat, n: nat)
    requires
        m <= n,
        gen_iter(s, rows, cols, m).stack.len() == 0,
    ensures
        gen_iter(s, rows, cols, n) == gen_iter(s, rows, cols, m),
    decreases n,
{
    if n > m {
        lemma_gen_iter_stable(s, rows, cols, m, (n - 1) as nat);
        lemma_gen_step_fixpoint(gen_iter(s, rows, cols, (n - 1) as nat), rows, cols);
    }
}

/// Generation determinism: any two complete walks from the same seed leave
/// the same cell structure, so regeneration from a seed is byte-identical.
pub proof fn lemma_generation_deterministic(
    rows: usize,
    cols: usize,
    seed: u32,
    c1: Seq<Cell>,
    c2: Seq<Cell>,
)
    requires
        maze_complete(rows, cols, seed, c1),
        maze_complete(rows, cols, seed, c2),
    ensures
        c1 == c2,
{
    let s0 = gen_init(lcg_init(seed));
    let n1 = choose|n: nat|
        (#[trigger] gen_iter(s0, rows, cols, n)).stack.len() == 0
            && c1 == gen_iter(s0, rows, cols, n).cells;
    let n2 = choose|n: nat|
        (#[trigger] gen_iter(s0, rows, cols, n)).stack.len() == 0
            && c2 == gen_iter(s0, rows, cols, n).cells;
    if n1 <= n2 {
        lemma_gen_iter_stable(s0, rows, cols, n1, n2);
    } else {
        lemma_gen_iter_stable(s0, rows, cols, n2, n1);
    }
}

/// No wall on the outer border of the active region has been cleared: the
/// top row keeps its north walls, the bottom row its south walls, the left
/// column its west walls, and the right column its east walls.
pub open spec fn border_intact(cells: Seq<Cell>, rows: usize, cols: usize) -> bool {
    forall|r: int, c: int|
        0 <= r < rows && 0 <= c < cols ==> {
            let cl = #[trigger] cell_at(cells, r, c);
            &&& (r == 0 ==> cl.wall_north)
            &&& (r == rows - 1 ==> cl.wall_south)
            &&& (c == 0 ==> cl.wall_west)
            &&& (c == cols - 1 ==> cl.wall_east)
        }
}

/// Every stack entry, and the cursor while the stack is non-empty, lies in
/// the active region.
pub open spec fn walk_in_region(s: GenState, rows: usize, cols: usize) -> bool {
    &&& forall|i: int|
        0 <= i < s.stack.len() ==> (#[trigger] s.stack[i]).0 < rows && s.stack[i].1 < cols
    &&& s.stack.len() > 0 ==> s.cur.0 < rows && s.cur.1 < cols
}

/// One step of the walk preserves the border and stays in the region: walls
/// are only ever cleared between two cells of the active region, never on
/// its outer edge.
pub proof fn lemma_gen_step_preserves_border(s: GenState, rows: usize, cols: usize)
    requires
        1 <= rows <= 20,
        1 <= cols <= 20,
        s.cells.len() == 400,
        border_intact(s.cells, rows, cols),
        walk_in_region(s, rows, cols),
    ensures
        gen_step(s, rows, cols).cells.len() == 400,
        border_intact(gen_step(s, rows, cols).cells, rows, cols),
        walk_in_region(gen_step(s, rows, cols), rows, cols),
{
    if s.stack.len() > 0 {
        let r = s.cur.0;
        let c = s.cur.1;
        let ns = unvisited_neighbors(s.cells, rows, cols, r, c);
        if ns.len() > 0 {
            let rng1 = lcg_next(s.rng);
            crate::rng::lemma_lcg_next_bound(s.rng);
            crate::rng::lemma_lcg_scale_bound(rng1, ns.len() as int);
            let i = lcg_scale(rng1, ns.len() as int);
            lemma_unvisited_neighbors_sound(s.cells, rows, cols, r, c);
            lemma_unvisited_neighbors_shape(s.cells, rows, cols, r, c);
            let t = ns[i];
            let post = gen_step(s, rows, cols).cells;
            assert forall|r2: int, c2: int| 0 <= r2 < rows && 0 <= c2 < cols implies {
                let cl = #[trigger] cell_at(post, r2, c2);
                &&& (r2 == 0 ==> cl.wall_north)
                &&& (r2 == rows - 1 ==> cl.wall_south)
                &&& (c2 == 0 ==> cl.wall_west)
                &&& (c2 == cols - 1 ==> cl.wall_east)
            } by {
                let idx1 = cell_idx(r as int, c as int);
                let idx2 = cell_idx(t.1 as int, t.2 as int);
                let idx = cell_idx(r2, c2);
                let cleared = s.cells.update(
                    idx1,
                    clear_wall(cell_at(s.cells, r as int, c as int), t.0),
                );
                assert(t.0 <= 3);
                assert((t.1, t.2) != (r, c));
                assert(idx1 != idx2) by {
                    assert(t.1 < 20 && t.2 < 20 && r < 20 && c < 20);
                }
                if r2 == t.1 && c2 == t.2 {
                    assert(idx == idx2);
                    assert(cell_at(post, r2, c2) == mark_visited(
                        clear_wall(cell_at(s.cells, r2, c2), opposite(t.0)),
                    ));
                    if t.0 == NORTH {
                        assert(r2 == r - 1 && r < rows);
                        assert(r2 != rows - 1);
                    } else if t.0 == EAST {
                        assert(c2 == c + 1 && c2 != 0);
                    } else if t.0 == SOUTH {
                        assert(r2 == r + 1 && r2 != 0);
                    } else {
                        assert(c2 == c - 1 && c < cols);
                        assert(c2 != cols - 1);
                    }
                } else if r2 == r && c2 == c {
                    assert(idx == idx1 && idx != idx2);
                    assert(cell_at(post, r2, c2) == clear_wall(cell_at(s.cells, r2, c2), t.0));
                    if t.0 == NORTH {
                        assert(r2 != 0);
                    } else if t.0 == EAST {
                        assert(c + 1 < cols);
                        assert(c2 != cols - 1);
                    } else if t.0 == SOUTH {
                        assert(r + 1 < rows);
                        assert(r2 != rows - 1);
                    } else {
                        assert(c2 != 0);
                    }
                } else {
                    assert(r2 < 20 && c2 < 20 && r < 20 && c < 20 && t.1 < 20 && t.2 < 20);
                    assert(idx != idx1 && idx != idx2);
                    assert(cell_at(post, r2, c2) == cell_at(s.cells, r2, c2));
                }
            }
        }
    }
}

/// Every state the walk reaches keeps the border intact and stays inside the
/// active region.
pub proof fn lemma_gen_iter_border(rng0: u32, rows: usize, cols: usize, n: nat)
    requires
        1 <= rows <= 20,
        1 <= cols <= 20,
    ensures
        gen_iter(gen_init(rng0), rows, cols, n).cells.len() == 400,
        border_intact(gen_iter(gen_init(rng0), rows, cols, n).cells, rows, cols),
        walk_in_region(gen_iter(gen_init(rng0), rows, cols, n), rows, cols),
    decreases n,
{
    if n == 0 {
        assert(border_intact(init_cells(), rows, cols)) by {
            assert forall|r: int, c: int| 0 <= r < rows && 0 <= c < cols implies {
                let cl = #[trigger] cell_at(init_cells(), r, c);
                &&& (r == 0 ==> cl.wall_north)
                &&& (r == rows - 1 ==> cl.wall_south)
                &&& (c == 0 ==> cl.wall_west)
                &&& (c == cols - 1 ==> cl.wall_east)
            } by {
                assert(0 <= cell_idx(r, c) < 400);
            }
        }
    } else {
        lemma_gen_iter_border(rng0, rows, cols, (n - 1) as nat);
        lemma_gen_step_preserves_border(gen_iter(gen_init(rng0), rows, cols, (n - 1) as nat), rows, cols);
    }
}

/// Border soundness of generation: a completed walk never cleared a wall on
/// the outer edge of the active region.
pub proof fn lemma_complete_maze_border(rows: usize, cols: usize, seed: u32, cells: Seq<Cell>)
    requires
        1 <= rows <= 20,
        1 <= cols <= 20,
        maze_complete(rows, cols, seed, cells),
    ensures
        border_intact(cells, rows, cols),
{
    let s0 = gen_init(lcg_init(seed));
    let n = choose|n: nat|
        (#[trigger] gen_iter(s0, rows, cols, n)).stack.len() == 0 && cells == gen_iter(
            s0,
            rows,
            cols,
            n,
        ).cells;
    lemma_gen_iter_border(lcg_init(seed), rows, cols, n);
}

/// A canonical grid built from a border-intact cell structure keeps a full
/// wall border: every position on the outer edge of the 41 x 41 grid is 0.
pub proof fn lemma_canonical_grid_border(cells: Seq<Cell>, rows: usize, cols: usize)
    requires
        rows <= 20,
        cols <= 20,
        border_intact(cells, rows, cols),
    ensures
        forall|gr: int, gc: int|
            0 <= gr < 41 && 0 <= gc < 41 && (gr == 0 || gr == 40 || gc == 0 || gc == 40)
                ==> #[trigger] flat_at(canonical_grid(cells, rows as int, cols as int), gr, gc)
                == 0,
{
    assert forall|gr: int, gc: int|
        0 <= gr < 41 && 0 <= gc < 41 && (gr == 0 || gr == 40 || gc == 0 || gc == 40) implies #[trigger] flat_at(
        canonical_grid(cells, rows as int, cols as int),
        gr,
        gc,
    ) == 0 by {
        let k = gr * 41 + gc;
        assert(0 <= k < 1681) by (nonlinear_arith)
            requires
                k == gr * 41 + gc,
                0 <= gr < 41,
                0 <= gc < 41,
        ;
        vstd::arithmetic::div_mod::lemma_fundamental_div_mod_converse(k, 41, gr, gc);
        if grid_marked(cells, rows as int, cols as int, gr, gc) {
            let (r, c) = choose|r: int, c: int|
                0 <= r < rows && 0 <= c < cols && #[trigger] cell_touches(cells, r, c, gr, gc);
            assert(false);
        }
    }
}

/// The centers of the first and the last active cells are path cells: in
/// particular the canonical start `(1, 1)`, and for a full-size maze the
/// canonical goal `(39, 39)`.
pub proof fn lemma_canonical_grid_start_goal(cells: Seq<Cell>, rows: usize, cols: usize)
    requires
        1 <= rows <= 20,
        1 <= cols <= 20,
    ensures
        flat_at(canonical_grid(cells, rows as int, cols as int), 1, 1) == 1,
        flat_at(
            canonical_grid(cells, rows as int, cols as int),
            2 * rows - 1,
            2 * cols - 1,
        ) == 1,
{
    let g = canonical_grid(cells, rows as int, cols as int);
    assert(cell_touches(cells, 0, 0, 1, 1));
    assert(grid_marked(cells, rows as int, cols as int, 1, 1));
    vstd::arithmetic::div_mod::lemma_fundamental_div_mod_converse(42, 41, 1, 1);
    assert(g[42] == 1);
    let r = rows - 1;
    let c = cols - 1;
    let gr = 2 * (r as int) + 1;
    let gc = 2 * (c as int) + 1;
    assert(cell_touches(cells, r as int, c as int, gr, gc));
    assert(grid_marked(cells, rows as int, cols as int, gr, gc));
    let k = gr * 41 + gc;
    assert(0 <= k < 1681) by (nonlinear_arith)
        requires
            k == gr * 41 + gc,
            0 <= gr < 41,
            0 <= gc < 41,
    ;
    vstd::arithmetic::div_mod::lemma_fundamental_div_mod_converse(k, 41, gr, gc);
    assert(g[k] == 1);
}

/// The number of visited cells among the first `n` entries of a cell buffer.
pub open spec fn num_visited(cells: Seq<Cell>, n: int) -> int
    decreases n,
{
    if n <= 0 {
        0
    } else {
        num_visited(cells, n - 1) + if cells[n - 1].visited {
            1int
        } else {
            0int
        }
    }
}

/// The visited count over a prefix is between 0 and the prefix length.
pub proof fn lemma_num_visited_bounds(cells: Seq<Cell>, n: int)
    ensures
        0 <= num_visited(cells, n) <= if n <= 0 {
            0int
        } else {
            n
        },
    decreases n,
{
    if n > 0 {
        lemma_num_visited_bounds(cells, n - 1);
    }
}

/// Buffers that agree on their first `n` entries have the same visited count
/// over those entries.
pub proof fn lemma_num_visited_congruent(c1: Seq<Cell>, c2: Seq<Cell>, n: int)
    requires
        forall|i: int| 0 <= i < n ==> c1[i] == c2[i],
    ensures
        num_visited(c1, n) == num_visited(c2, n),
    decreases n,
{
    if n > 0 {
        lemma_num_visited_congruent(c1, c2, n - 1);
    }
}

/// Updating entry `i` changes the visited count over a prefix containing `i`
/// exactly by the change in that entry's visited flag.
pub proof fn lemma_num_visited_update(cells: Seq<Cell>, n: int, i: int, c: Cell)
    requires
        0 <= i < n <= cells.len(),
    ensures
        num_visited(cells.update(i, c), n) == num_visited(cells, n) + (if c.visited {
            1int
        } else {
            0int
        }) - (if cells[i].visited {
            1int
        } else {
            0int
        }),
    decreases n,
{
    let updated = cells.update(i, c);
    if i == n - 1 {
        lemma_num_visited_congruent(updated, cells, n - 1);
    } else {
        lemma_num_visited_update(cells, n - 1, i, c);
    }
}

/// Cell `(r, c)` writes a path byte at grid position `(gr, gc)`: its center
/// always, and the adjacent position toward each cleared wall.
pub open spec fn touches(cell: Cell, r: int, c: int, gr: int, gc: int) -> bool {
    ||| (gr == 2 * r + 1 && gc == 2 * c + 1)
    ||| (!cell.wall_north && gr == 2 * r && gc == 2 * c + 1)
    ||| (!cell.wall_south && gr == 2 * r + 2 && gc == 2 * c + 1)
    ||| (!cell.wall_east && gr == 2 * r + 1 && gc == 2 * c + 2)
    ||| (!cell.wall_west && gr == 2 * r + 1 && gc == 2 * c)
}

/// [`touches`] for the cell at `(r, c)` of a flat cell buffer.
pub open spec fn cell_touches(cells: Seq<Cell>, r: int, c: int, gr: int, gc: int) -> bool {
    touches(cell_at(cells, r, c), r, c, gr, gc)
}

/// Grid position `(gr, gc)` is a path: some active cell writes it.
pub open spec fn grid_marked(cells: Seq<Cell>, rows: int, cols: int, gr: int, gc: int) -> bool {
    exists|r: int, c: int|
        0 <= r < rows && 0 <= c < cols && #[trigger] cell_touches(cells, r, c, gr, gc)
}

/// The byte at 2-D position `(gr, gc)` of a row-major flattened 41 x 41 grid.
pub open spec fn flat_at(g: Seq<u8>, gr: int, gc: int) -> u8 {
    g[gr * 41 + gc]
}

/// The canonical occupancy grid of a cell structure: a row-major flattened
/// 41 x 41 byte grid, 1 where some active cell writes a path, 0 elsewhere
/// (including the whole border).
pub open spec fn canonical_grid(cells: Seq<Cell>, rows: int, cols: int) -> Seq<u8> {
    Seq::new(
        1681,
        |k: int|
            if grid_marked(cells, rows, cols, k / 41, k % 41) {
                1u8
            } else {
                0u8
            },
    )
}

/// Partial-progress form of [`grid_marked`]: only cells processed before
/// `(row, col)` in row-major order have written their path bytes.
spec fn grid_marked_upto(
    cells: Seq<Cell>,
    rows: int,
    cols: int,
    row: int,
    col: int,
    gr: int,
    gc: int,
) -> bool {
    exists|r: int, c: int|
        0 <= r < rows && 0 <= c < cols && (r < row || (r == row && c < col))
            && #[trigger] cell_touches(cells, r, c, gr, gc)
}

/// Maze generator state: a fixed-capacity 20 x 20 cell buffer of which the
/// top-left `rows` x `cols` region is active.
pub struct Maze {
    cells: Vec<Cell>,
    rows: usize,
    cols: usize,
}

impl Maze {
    /// The flat cell buffer (always 400 entries).
    pub closed spec fn cell_seq(&self) -> Seq<Cell> {
        self.cells@
    }

    /// The number of active cell rows.
    pub closed spec fn spec_rows(&self) -> usize {
        self.rows
    }

    /// The number of active cell columns.
    pub closed spec fn spec_cols(&self) -> usize {
        self.cols
    }

    /// Well-formed: full backing buffer, active region within bounds.
    pub open spec fn wf(&self) -> bool {
        self.cell_seq().len() == 400 && self.spec_rows() <= 20 && self.spec_cols() <= 20
    }

    /// The direction opposite to `dir`.
    pub fn opposite_dir(dir: usize) -> (r: usize)
        requires
            dir <= 3,
        ensures
            r == opposite(dir),
    {
        if dir == NORTH {
            SOUTH
        } else if dir == SOUTH {
            NORTH
        } else if dir == EAST {
            WEST
        } else {
            EAST
        }
    }

    /// All unvisited in-bounds neighbors of cell `(row, col)`, in the fixed
    /// enumeration order north, east, south, west.
    fn get_unvisited_neighbors(&self, row: usize, col: usize) -> (v: Vec<(usize, usize, usize)>)
        requires
            self.wf(),
            row < 20,
            col < 20,
        ensures
            v@ == unvisited_neighbors(self.cell_seq(), self.spec_rows(), self.spec_cols(), row, col),
    {
        let mut v: Vec<(usize, usize, usize)> = Vec::new();
        let ghost cells = self.cell_seq();
        let ghost north_part = if row >= 1 && row - 1 < self.spec_rows() && col < self.spec_cols()
            && !cell_at(cells, row - 1, col as int).visited {
            seq![(NORTH, (row - 1) as usize, col)]
        } else {
            Seq::<(usize, usize, usize)>::empty()
        };
        let ghost east_part = if row < self.spec_rows() && col + 1 < self.spec_cols()
            && !cell_at(cells, row as int, col + 1).visited {
            seq![(EAST, row, (col + 1) as usize)]
        } else {
            Seq::<(usize, usize, usize)>::empty()
        };
        let ghost south_part = if row + 1 < self.spec_rows() && col < self.spec_cols()
            && !cell_at(cells, row + 1, col as int).visited {
            seq![(SOUTH, (row + 1) as usize, col)]
        } else {
            Seq::<(usize, usize, usize)>::empty()
        };
        let ghost west_part = if col >= 1 && row < self.spec_rows() && col - 1 < self.spec_cols()
            && !cell_at(cells, row as int, col - 1).visited {
            seq![(WEST, row, (col - 1) as usize)]
        } else {
            Seq::<(usize, usize, usize)>::empty()
        };
        if row >= 1 && row - 1 < self.rows && col < self.cols
            && !self.cells[(row - 1) * 20 + col].visited {
            v.push((NORTH, row - 1, col));
        }
        assert(v@ =~= north_part);
        if row < self.rows && col + 1 < self.cols && !self.cells[row * 20 + (col + 1)].visited {
            v.push((EAST, row, col + 1));
        }
        assert(v@ =~= north_part + east_part);
        if row + 1 < self.rows && col < self.cols && !self.cells[(row + 1) * 20 + col].visited {
            v.push((SOUTH, row + 1, col));
        }
        assert(v@ =~= north_part + east_part + south_part);
        if col >= 1 && row < self.rows && col - 1 < self.cols
            && !self.cells[row * 20 + (col - 1)].visited {
            v.push((WEST, row, col - 1));
        }
        assert(v@ =~= north_part + east_part + south_part + west_part);
        v
    }

    /// Run the recursive-backtracker walk over the active region, drawing
    /// choices from `rng`, until the stack is exhausted.  The resulting cell
    /// structure is the (unique) completed state of the walk.
    fn recursive_backtracker(&mut self, rng: &mut SimpleLCG)
        requires
            old(self).wf(),
            old(self).cell_seq() == Seq::new(400, |i: int| cell_new()),
        ensures
            final(self).wf(),
            final(self).spec_rows() == old(self).spec_rows(),
            final(self).spec_cols() == old(self).spec_cols(),
            exists|n: nat|
                {
                    let s = #[trigger] gen_iter(
                        gen_init(old(rng)@),
                        old(self).spec_rows(),
                        old(self).spec_cols(),
                        n,
                    );
                    s.stack.len() == 0 && final(self).cell_seq() == s.cells && final(rng)@ == s.rng
                },
    {
        let ghost rows = self.spec_rows();
        let ghost cols = self.spec_cols();
        let ghost s0 = gen_init(rng@);
        let mut stack: Vec<(usize, usize)> = Vec::new();
        let mut current: (usize, usize) = (0, 0);

        let mut start_cell = self.cells[0];
        start_cell.visited = true;
        self.cells[0] = start_cell;
        stack.push((0, 0));
        let ghost mut n: nat = 0;
        proof {
            assert(self.cell_seq() =~= init_cells());
            assert(stack@ =~= seq![(0usize, 0usize)]);
            assert(gen_iter(s0, rows, cols, 0) == s0);
            lemma_num_visited_bounds(self.cell_seq(), 400);
        }

        while stack.len() > 0
            invariant
                self.wf(),
                self.spec_rows() == rows,
                self.spec_cols() == cols,
                current.0 < 20,
                current.1 < 20,
                forall|i: int|
                    0 <= i < stack@.len() ==> (#[trigger] stack@[i]).0 < 20 && stack@[i].1 < 20,
                num_visited(self.cell_seq(), 400) <= 400,
                ({
                    let s = gen_iter(s0, rows, cols, n);
                    &&& self.cell_seq() == s.cells
                    &&& rng@ == s.rng
                    &&& stack@ == s.stack
                    &&& current == s.cur
                }),
            decreases 400 - num_visited(self.cell_seq(), 400), stack.len(),
        {
            let ghost s_pre = gen_iter(s0, rows, cols, n);
            let row = current.0;
            let col = current.1;
            let neighbors = self.get_unvisited_neighbors(row, col);
            proof {
                lemma_unvisited_neighbors_sound(self.cell_seq(), rows, cols, row, col);
            }
            if neighbors.len() > 0 {
                let i = rng.choice_index(neighbors.len());
                let (dir, nr, nc) = neighbors[i];
                let cleared_cell = self.cells[row * 20 + col].with_wall_cleared(dir);
                self.cells[row * 20 + col] = cleared_cell;
                let ghost cleared = self.cell_seq();
                let mut neighbor_cell = self.cells[nr * 20 + nc].with_wall_cleared(
                    Maze::opposite_dir(dir),
                );
                neighbor_cell.visited = true;
                self.cells[nr * 20 + nc] = neighbor_cell;
                stack.push((nr, nc));
                current = (nr, nc);
                proof {
                    let s_post = gen_step(s_pre, rows, cols);
                    assert(self.cell_seq() =~= s_post.cells);
                    assert(stack@ =~= s_post.stack);
                    lemma_num_visited_update(
                        s_pre.cells,
                        400,
                        cell_idx(row as int, col as int),
                        clear_wall(cell_at(s_pre.cells, row as int, col as int), dir),
                    );
                    lemma_num_visited_update(
                        cleared,
                        400,
                        cell_idx(nr as int, nc as int),
                        mark_visited(clear_wall(cell_at(cleared, nr as int, nc as int), opposite(dir))),
                    );
                    lemma_num_visited_bounds(self.cell_seq(), 400);
                    n = n + 1;
                }
            } else {
                let popped = stack[stack.len() - 1];
                stack.pop();
                current = popped;
                proof {
                    let s_post = gen_step(s_pre, rows, cols);
                    assert(stack@ =~= s_post.stack);
                    n = n + 1;
                }
            }
        }
    }

    /// The canonical occupancy grid, row-major flattened: 1681 bytes, 1 for
    /// path and 0 for wall.  Each active cell's center `(2r+1, 2c+1)` is a
    /// path, each cleared wall opens the adjacent position, and everything
    /// else, the outer border included, stays a wall.
    #[verifier::rlimit(30)]
    pub fn grid_bytes(&self) -> (g: Vec<u8>)
        requires
            self.wf(),
        ensures
            g@ == canonical_grid(self.cell_seq(), self.spec_rows() as int, self.spec_cols() as int),
    {
        let ghost cells = self.cell_seq();
        let ghost rows = self.spec_rows() as int;
        let ghost cols = self.spec_cols() as int;
        let mut g: Vec<u8> = Vec::new();
        let mut k: usize = 0;
        while k < 1681
            invariant
                k <= 1681,
                g@.len() == k,
                forall|j: int| 0 <= j < k ==> g@[j] == 0u8,
            decreases 1681 - k,
        {
            g.push(0);
            k = k + 1;
        }
        assert forall|gr: int, gc: int| 0 <= gr < 41 && 0 <= gc < 41 implies flat_at(g@, gr, gc)
            == (if grid_marked_upto(cells, rows, cols, 0, 0, gr, gc) {
            1u8
        } else {
            0u8
        }) by {
            assert(!grid_marked_upto(cells, rows, cols, 0, 0, gr, gc));
            assert(0 <= gr * 41 + gc < 1681) by (nonlinear_arith)
                requires
                    0 <= gr < 41,
                    0 <= gc < 41,
            ;
        }
        let mut row: usize = 0;
        while row < self.rows
            invariant
                self.wf(),
                cells == self.cell_seq(),
                rows == self.spec_rows() as int,
                cols == self.spec_cols() as int,
                row <= self.rows,
                g@.len() == 1681,
                forall|gr: int, gc: int|
                    0 <= gr < 41 && 0 <= gc < 41 ==> #[trigger] flat_at(g@, gr, gc) == (
                    if grid_marked_upto(cells, rows, cols, row as int, 0, gr, gc) {
                        1u8
                    } else {
                        0u8
                    }),
            decreases self.rows - row,
        {
            let mut col: usize = 0;
            while col < self.cols
                invariant
                    self.wf(),
                    cells == self.cell_seq(),
                    rows == self.spec_rows() as int,
                    cols == self.spec_cols() as int,
                    row < self.rows,
                    col <= self.cols,
                    g@.len() == 1681,
                    forall|gr: int, gc: int|
                        0 <= gr < 41 && 0 <= gc < 41 ==> #[trigger] flat_at(g@, gr, gc) == (
                        if grid_marked_upto(cells, rows, cols, row as int, col as int, gr, gc) {
                            1u8
                        } else {
                            0u8
                        }),
                decreases self.cols - col,
            {
                let ghost g_pre = g@;
                let cell = self.cells[row * 20 + col];
                let gr = row * 2 + 1;
                let gc = col * 2 + 1;
                g[gr * 41 + gc] = 1;
                if !cell.wall_north {
                    g[(gr - 1) * 41 + gc] = 1;
                }
                if !cell.wall_south {
                    g[(gr + 1) * 41 + gc] = 1;
                }
                if !cell.wall_east {
                    g[gr * 41 + (gc + 1)] = 1;
                }
                if !cell.wall_west {
                    g[gr * 41 + (gc - 1)] = 1;
                }
                proof {
                    let r = row as int;
                    let c = col as int;
                    assert forall|a: int, b: int| 0 <= a < 41 && 0 <= b < 41 implies flat_at(
                        g@,
                        a,
                        b,
                    ) == (if grid_marked_upto(cells, rows, cols, r, c + 1, a, b) {
                        1u8
                    } else {
                        0u8
                    }) by {
                        if touches(cell, r, c, a, b) {
                            assert(cell_touches(cells, r, c, a, b));
                            assert(grid_marked_upto(cells, rows, cols, r, c + 1, a, b));
                            assert(flat_at(g@, a, b) == 1u8);
                        } else {
                            assert(flat_at(g@, a, b) == flat_at(g_pre, a, b));
                            assert(grid_marked_upto(cells, rows, cols, r, c + 1, a, b)
                                == grid_marked_upto(cells, rows, cols, r, c, a, b)) by {
                                if grid_marked_upto(cells, rows, cols, r, c + 1, a, b) {
                                    let (r2, c2) = choose|r2: int, c2: int|
                                        0 <= r2 < rows && 0 <= c2 < cols && (r2 < r || (r2 == r
                                            && c2 < c + 1)) && #[trigger] cell_touches(
                                            cells,
                                            r2,
                                            c2,
                                            a,
                                            b,
                                        );
                                    if r2 == r && c2 == c {
                                        assert(false);
                                    } else {
                                        assert(grid_marked_upto(cells, rows, cols, r, c, a, b));
                                    }
                                }
                            }
                        }
                    }
                }
                col = col + 1;
            }
            proof {
                let r = row as int;
                assert forall|a: int, b: int| 0 <= a < 41 && 0 <= b < 41 implies grid_marked_upto(
                    cells,
                    rows,
                    cols,
                    r + 1,
                    0,
                    a,
                    b,
                ) == grid_marked_upto(cells, rows, cols, r, cols, a, b) by {
                    if grid_marked_upto(cells, rows, cols, r + 1, 0, a, b) {
                        assert(grid_marked_upto(cells, rows, cols, r, cols, a, b));
                    }
                    if grid_marked_upto(cells, rows, cols, r, cols, a, b) {
                        assert(grid_marked_upto(cells, rows, cols, r + 1, 0, a, b));
                    }
                }
            }
            row = row + 1;
        }
        proof {
            let rowsn = self.spec_rows() as int;
            assert forall|a: int, b: int| 0 <= a < 41 && 0 <= b < 41 implies grid_marked_upto(
                cells,
                rows,
                cols,
                rowsn,
                0,
                a,
                b,
            ) == grid_marked(cells, rows, cols, a, b) by {
                if grid_marked_upto(cells, rows, cols, rowsn, 0, a, b) {
                    assert(grid_marked(cells, rows, cols, a, b));
                }
                if grid_marked(cells, rows, cols, a, b) {
                    assert(grid_marked_upto(cells, rows, cols, rowsn, 0, a, b));
                }
            }
            assert forall|k2: int| 0 <= k2 < 1681 implies g@[k2] == canonical_grid(
                cells,
                rows,
                cols,
            )[k2] by {
                vstd::arithmetic::div_mod::lemma_fundamental_div_mod(k2, 41);
                assert(0 <= k2 % 41 < 41) by (nonlinear_arith)
                    requires
                        0 <= k2,
                ;
                assert(0 <= k2 / 41 < 41) by (nonlinear_arith)
                    requires
                        0 <= k2 < 1681,
                ;
                assert(g@[k2] == flat_at(g@, k2 / 41, k2 % 41));
            }
            assert(g@ =~= canonical_grid(cells, rows, cols));
        }
        g
    }

    /// The canonical occupancy grid as a full 41 x 41 byte matrix, the
    /// row-major unflattening of [`Maze::grid_bytes`].  Positions beyond the
    /// active region are walls.
    pub fn to_binary_grid(&self) -> (g: Vec<Vec<u8>>)
        requires
            self.wf(),
        ensures
            g@.len() == 41,
            forall|i: int| 0 <= i < 41 ==> (#[trigger] g@[i])@.len() == 41,
            forall|i: int, j: int|
                #![auto]
                0 <= i < 41 && 0 <= j < 41 ==> g@[i]@[j] == flat_at(
                    canonical_grid(self.cell_seq(), self.spec_rows() as int, self.spec_cols() as int),
                    i,
                    j,
                ),
    {
        let ghost flat = canonical_grid(
            self.cell_seq(),
            self.spec_rows() as int,
            self.spec_cols() as int,
        );
        let bytes = self.grid_bytes();
        let mut g: Vec<Vec<u8>> = Vec::new();
        let mut i: usize = 0;
        while i < 41
            invariant
                i <= 41,
                bytes@ == flat,
                bytes@.len() == 1681,
                g@.len() == i,
                forall|a: int| 0 <= a < i ==> (#[trigger] g@[a])@.len() == 41,
                forall|a: int, b: int|
                    #![auto]
                    0 <= a < i && 0 <= b < 41 ==> g@[a]@[b] == flat_at(flat, a, b),
            decreases 41 - i,
        {
            let mut rowv: Vec<u8> = Vec::new();
            let mut j: usize = 0;
            while j < 41
                invariant
                    i < 41,
                    j <= 41,
                    bytes@ == flat,
                    bytes@.len() == 1681,
                    rowv@.len() == j,
                    forall|b: int| #![auto] 0 <= b < j ==> rowv@[b] == flat_at(flat, i as int, b),
                decreases 41 - j,
            {
                rowv.push(bytes[i * 41 + j]);
                j = j + 1;
            }
            g.push(rowv);
            i = i + 1;
        }
        g
    }

    /// The canonical occupancy grid trimmed to its active square: the first
    /// `2 * rows + 1` rows and columns of [`Maze::to_binary_grid`].
    pub fn to_binary_grid_vec(&self) -> (g: Vec<Vec<u8>>)
        requires
            self.wf(),
        ensures
            g@.len() == self.spec_rows() * 2 + 1,
            forall|i: int|
                0 <= i < g@.len() ==> (#[trigger] g@[i])@.len() == self.spec_rows() * 2 + 1,
            forall|i: int, j: int|
                #![auto]
                0 <= i < g@.len() && 0 <= j < g@.len() ==> g@[i]@[j] == flat_at(
                    canonical_grid(self.cell_seq(), self.spec_rows() as int, self.spec_cols() as int),
                    i,
                    j,
                ),
    {
        let ghost flat = canonical_grid(
            self.cell_seq(),
            self.spec_rows() as int,
            self.spec_cols() as int,
        );
        let full = self.to_binary_grid();
        let grid_size = self.rows * 2 + 1;
        let mut g: Vec<Vec<u8>> = Vec::new();
        let mut i: usize = 0;
        while i < grid_size
            invariant
                i <= grid_size,
                grid_size == self.spec_rows() * 2 + 1,
                grid_size <= 41,
                full@.len() == 41,
                forall|a: int| 0 <= a < 41 ==> (#[trigger] full@[a])@.len() == 41,
                forall|a: int, b: int|
                    #![auto]
                    0 <= a < 41 && 0 <= b < 41 ==> full@[a]@[b] == flat_at(flat, a, b),
                g@.len() == i,
                forall|a: int| 0 <= a < i ==> (#[trigger] g@[a])@.len() == grid_size,
                forall|a: int, b: int|
                    #![auto]
                    0 <= a < i && 0 <= b < grid_size ==> g@[a]@[b] == flat_at(flat, a, b),
            decreases grid_size - i,
        {
            let mut rowv: Vec<u8> = Vec::new();
            let mut j: usize = 0;
            while j < grid_size
                invariant
                    i < grid_size,
                    j <= grid_size,
                    grid_size <= 41,
                    full@.len() == 41,
                    forall|a: int| 0 <= a < 41 ==> (#[trigger] full@[a])@.len() == 41,
                    forall|a: int, b: int|
                        #![auto]
                        0 <= a < 41 && 0 <= b < 41 ==> full@[a]@[b] == flat_at(flat, a, b),
                    rowv@.len() == j,
                    forall|b: int| #![auto] 0 <= b < j ==> rowv@[b] == flat_at(flat, i as int, b),
                decreases grid_size - j,
            {
                rowv.push(full[i][j]);
                j = j + 1;
            }
            g.push(rowv);
            i = i + 1;
        }
        g
    }

    /// Generate a maze over `rows` x `cols` cells from `seed`.
    ///
    /// The walk is fully deterministic: the resulting cell structure is the
    /// completed state of the generation walk seeded with `seed`, so the same
    /// arguments always yield the same maze.
    pub fn generate(rows: usize, cols: usize, seed: u32) -> (m: Maze)
        requires
            rows <= MAX_MAZE_ROWS,
            cols <= MAX_MAZE_COLS,
        ensures
            m.wf(),
            m.spec_rows() == rows,
            m.spec_cols() == cols,
            maze_complete(rows, cols, seed, m.cell_seq()),
    {
        let mut cells: Vec<Cell> = Vec::new();
        let mut i: usize = 0;
        while i < 400
            invariant
                i <= 400,
                cells@ =~= Seq::new(i as nat, |j: int| cell_new()),
            decreases 400 - i,
        {
            cells.push(Cell::new());
            i = i + 1;
        }
        let mut maze = Maze { cells, rows, cols };
        proof {
            assert(maze.cell_seq() =~= Seq::new(400, |j: int| cell_new()));
        }
        let mut rng = SimpleLCG::new(seed);
        maze.recursive_backtracker(&mut rng);
        maze
    }

    /// [`Maze::generate`] with the dimension bound checked at run time:
    /// dimensions beyond the fixed maximum are rejected before generation
    /// starts.
    pub fn generate_checked(rows: usize, cols: usize, seed: u32) -> (r: Result<Maze, CoreError>)
        ensures
            (rows <= MAX_MAZE_ROWS && cols <= MAX_MAZE_COLS) ==> {
                &&& r is Ok
                &&& r->Ok_0.wf()
                &&& r->Ok_0.spec_rows() == rows
                &&& r->Ok_0.spec_cols() == cols
                &&& maze_complete(rows, cols, seed, r->Ok_0.cell_seq())
            },
            !(rows <= MAX_MAZE_ROWS && cols <= MAX_MAZE_COLS) ==> r === Result::<
                Maze,
                CoreError,
            >::Err(CoreError::DimensionOverflow),
    {
        if rows <= MAX_MAZE_ROWS && cols <= MAX_MAZE_COLS {
            Ok(Maze::generate(rows, cols, seed))
        } else {
            Err(CoreError::DimensionOverflow)
        }
    }
}

} // verus!
