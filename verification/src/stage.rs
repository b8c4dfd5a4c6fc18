//! Stage orchestration.
//!
//! Stage 1 (maze commitment) derives the 20 x 20 maze from a seed, renders
//! its canonical grid, and commits to the SHA-256 hash of the grid bytes; the
//! journal carries only the seed and that hash.  Stage 2 (path verification)
//! checks a claimed grid against the committed hash, makes defensive
//! structural checks, enforces the move-count bound, and replays the moves;
//! its verdict is bound to the seed.  Both stages are pure: the same inputs
//! always produce the same outputs, byte for byte.

use vstd::prelude::*;

use vstd::string::StringSliceAdditionalSpecFns;

use crate::commitment::{bytes_equal, grid_commitment, sha256_of};
use crate::maze_gen::{
    canonical_grid, flat_at, lemma_canonical_grid_border, lemma_canonical_grid_start_goal,
    lemma_complete_maze_border, maze_complete, Cell, Maze,
};
use crate::replay::{grid_at, replay_valid, verify_maze_solution};
use crate::{CoreError, MazeJournal, PathJournal};
use crate::{GRID_DATA_SIZE, GRID_SIZE, MAX_MOVES, MAZE_COLS, MAZE_ROWS};

verus! {

/// Proving profile for receipt generation, trading proving time against
/// receipt size: composite is fastest and largest, succinct is the balanced
/// default, groth16 is slowest and smallest.
#[derive(Clone, Copy, PartialEq, Eq, Structural, Debug)]
pub enum ReceiptKind {
    /// Fastest to generate, largest receipt.
    Composite,
    /// Balanced speed and size; the default.
    Succinct,
    /// Slowest to generate, smallest receipt.
    Groth16,
}

/// A byte lowered to ASCII lowercase.
pub open spec fn ascii_lower(b: u8) -> u8 {
    if 65 <= b <= 90 {
        (b + 32) as u8
    } else {
        b
    }
}

/// A byte string lowered to ASCII lowercase.
pub open spec fn lower_bytes(s: Seq<u8>) -> Seq<u8> {
    Seq::new(s.len(), |i: int| ascii_lower(s[i]))
}

/// The bytes of the name `composite`.
pub open spec fn composite_name() -> Seq<u8> {
    seq![99u8, 111u8, 109u8, 112u8, 111u8, 115u8, 105u8, 116u8, 101u8]
}

/// The bytes of the name `succinct`.
pub open spec fn succinct_name() -> Seq<u8> {
    seq![115u8, 117u8, 99u8, 99u8, 105u8, 110u8, 99u8, 116u8]
}

/// The bytes of the name `groth16`.
pub open spec fn groth16_name() -> Seq<u8> {
    seq![103u8, 114u8, 111u8, 116u8, 104u8, 49u8, 54u8]
}

/// The receipt kind a name denotes, matched case-insensitively; any other
/// name denotes none.
pub open spec fn kind_of_name(s: Seq<u8>) -> Option<ReceiptKind> {
    if lower_bytes(s) == composite_name() {
        Some(ReceiptKind::Composite)
    } else if lower_bytes(s) == succinct_name() {
        Some(ReceiptKind::Succinct)
    } else if lower_bytes(s) == groth16_name() {
        Some(ReceiptKind::Groth16)
    } else {
        None
    }
}

impl Default for ReceiptKind {
    /// The default proving profile is succinct.
    fn default() -> (r: Self)
        ensures
            r == ReceiptKind::Succinct,
    {
        ReceiptKind::Succinct
    }
}

impl ReceiptKind {
    /// Parse a receipt kind from its name, case-insensitively: `composite`,
    /// `succinct`, or `groth16`.  Any other name is rejected.
    pub fn from_str(s: &str) -> (r: Option<ReceiptKind>)
        ensures
            r == kind_of_name(s.spec_bytes()),
    {
        let b = s.as_bytes();
        let mut low: Vec<u8> = Vec::new();
        let mut i: usize = 0;
        while i < b.len()
            invariant
                i <= b@.len(),
                low@ =~= lower_bytes(b@).take(i as int),
            decreases b@.len() - i,
        {
            let x = b[i];
            if x >= 65 && x <= 90 {
                low.push(x + 32);
            } else {
                low.push(x);
            }
            proof {
                assert(low@ =~= lower_bytes(b@).take(i + 1));
            }
            i = i + 1;
        }
        proof {
            assert(lower_bytes(b@).take(b@.len() as int) =~= lower_bytes(b@));
        }
        let mut name: Vec<u8> = Vec::new();
        name.push(99);
        name.push(111);
        name.push(109);
        name.push(112);
        name.push(111);
        name.push(115);
        name.push(105);
        name.push(116);
        name.push(101);
        proof {
            assert(name@ =~= composite_name());
        }
        if bytes_equal(&low, &name) {
            return Some(ReceiptKind::Composite);
        }
        let mut name2: Vec<u8> = Vec::new();
        name2.push(115);
        name2.push(117);
        name2.push(99);
        name2.push(99);
        name2.push(105);
        name2.push(110);
        name2.push(99);
        name2.push(116);
        proof {
            assert(name2@ =~= succinct_name());
        }
        if bytes_equal(&low, &name2) {
            return Some(ReceiptKind::Succinct);
        }
        let mut name3: Vec<u8> = Vec::new();
        name3.push(103);
        name3.push(114);
        name3.push(111);
        name3.push(116);
        name3.push(104);
        name3.push(49);
        name3.push(54);
        proof {
            assert(name3@ =~= groth16_name());
        }
        if bytes_equal(&low, &name3) {
            return Some(ReceiptKind::Groth16);
        }
        None
    }

    /// The lowercase name of this receipt kind.
    pub fn as_str(&self) -> (r: &'static str)
        ensures
            kind_of_name(r.spec_bytes()) == Some(*self),
    {
        match self {
            ReceiptKind::Composite => {
                let r = "composite";
                proof {
                    reveal_strlit("composite");
                    assert(vstd::string::is_ascii(r));
                    vstd::string::is_ascii_spec_bytes(r);
                    assert(r.spec_bytes() =~= composite_name());
                    assert(lower_bytes(composite_name()) =~= composite_name());
                }
                r
            },
            ReceiptKind::Succinct => {
                let r = "succinct";
                proof {
                    reveal_strlit("succinct");
                    assert(vstd::string::is_ascii(r));
                    vstd::string::is_ascii_spec_bytes(r);
                    assert(r.spec_bytes() =~= succinct_name());
                    assert(lower_bytes(succinct_name()) =~= succinct_name());
                }
                r
            },
            ReceiptKind::Groth16 => {
                let r = "groth16";
                proof {
                    reveal_strlit("groth16");
                    assert(vstd::string::is_ascii(r));
                    vstd::string::is_ascii_spec_bytes(r);
                    assert(r.spec_bytes() =~= groth16_name());
                    assert(lower_bytes(groth16_name()) =~= groth16_name());
                }
                r
            },
        }
    }
}

/// Grid position of the canonical start cell, on both axes.
pub const START_POS: usize = 1;

/// Grid position of the canonical goal cell, on both axes: `GRID_SIZE - 2`.
pub const END_POS: usize = 39;

/// The cell structure of the completed 20 x 20 generation walk for `seed`.
/// [`maze_complete`] determines it uniquely.
pub open spec fn seed_cells(seed: u32) -> Seq<Cell> {
    choose|cells: Seq<Cell>| maze_complete(MAZE_ROWS, MAZE_COLS, seed, cells)
}

/// The canonical occupancy grid a seed commits to: the flattened grid of the
/// maze deterministically derived from it.
pub open spec fn seed_grid(seed: u32) -> Seq<u8> {
    canonical_grid(seed_cells(seed), MAZE_ROWS as int, MAZE_COLS as int)
}

/// A sealed stage-1 artifact: the seed, the canonical grid regenerable from
/// it, and the commitment to the grid bytes.  The attested journal embeds
/// only the commitment; the grid travels out of band.
pub struct MazeArtifact {
    /// The seed the maze was generated from.
    pub maze_seed: u32,
    /// The flattened canonical occupancy grid (1681 bytes).
    pub grid: Vec<u8>,
    /// SHA-256 commitment to the grid bytes.
    pub commitment: Vec<u8>,
}

impl MazeArtifact {
    /// The artifact invariant: the grid is the one derived from the seed,
    /// and the commitment is the hash of exactly those bytes.
    pub open spec fn wf(&self) -> bool {
        &&& self.grid@ == seed_grid(self.maze_seed)
        &&& self.grid@.len() == GRID_DATA_SIZE
        &&& self.commitment@ == sha256_of(self.grid@)
        &&& self.commitment@.len() == 32
    }

    /// The journal stage 1 commits to: the seed and the grid hash.
    pub fn journal(&self) -> (j: MazeJournal)
        requires
            self.wf(),
        ensures
            j.wf(),
            j.maze_seed == self.maze_seed,
            j.grid_hash@ == sha256_of(seed_grid(self.maze_seed)),
    {
        let mut grid_hash: Vec<u8> = Vec::new();
        let mut i: usize = 0;
        while i < self.commitment.len()
            invariant
                self.commitment@.len() == 32,
                i <= 32,
                grid_hash@ =~= self.commitment@.take(i as int),
            decreases 32 - i,
        {
            grid_hash.push(self.commitment[i]);
            proof {
                assert(grid_hash@ =~= self.commitment@.take(i + 1));
            }
            i = i + 1;
        }
        proof {
            assert(self.commitment@.take(32) =~= self.commitment@);
        }
        MazeJournal { maze_seed: self.maze_seed, grid_hash }
    }
}

/// Stage 1: derive the maze for `seed`, render its canonical grid, and
/// commit to the hash of the grid bytes.  Regeneration is idempotent: the
/// artifact is a pure function of the seed.
pub fn generate_maze_artifact(seed: u32) -> (a: MazeArtifact)
    ensures
        a.wf(),
        a.maze_seed == seed,
        maze_complete(MAZE_ROWS, MAZE_COLS, seed, seed_cells(seed)),
{
    let maze = Maze::generate(MAZE_ROWS, MAZE_COLS, seed);
    proof {
        assert(maze_complete(MAZE_ROWS, MAZE_COLS, seed, seed_cells(seed))) by {
            assert(maze_complete(MAZE_ROWS, MAZE_COLS, seed, maze.cell_seq()));
        }
        crate::maze_gen::lemma_generation_deterministic(
            MAZE_ROWS,
            MAZE_COLS,
            seed,
            maze.cell_seq(),
            seed_cells(seed),
        );
    }
    let grid = maze.grid_bytes();
    let commitment = grid_commitment(&grid);
    MazeArtifact { maze_seed: seed, grid, commitment }
}

/// Structure of a committed grid: the grid an artifact commits to keeps a
/// full wall border, and its canonical start and goal cells are paths.
pub proof fn lemma_seed_grid_structure(seed: u32)
    requires
        maze_complete(MAZE_ROWS, MAZE_COLS, seed, seed_cells(seed)),
    ensures
        forall|gr: int, gc: int|
            0 <= gr < 41 && 0 <= gc < 41 && (gr == 0 || gr == 40 || gc == 0 || gc == 40)
                ==> #[trigger] flat_at(seed_grid(seed), gr, gc) == 0,
        flat_at(seed_grid(seed), START_POS as int, START_POS as int) == 1,
        flat_at(seed_grid(seed), END_POS as int, END_POS as int) == 1,
{
    lemma_complete_maze_border(MAZE_ROWS, MAZE_COLS, seed, seed_cells(seed));
    lemma_canonical_grid_border(seed_cells(seed), MAZE_ROWS, MAZE_COLS);
    lemma_canonical_grid_start_goal(seed_cells(seed), MAZE_ROWS, MAZE_COLS);
}

/// The stage-2 verdict for a committed grid hash, a claimed grid, and a move
/// sequence: the claimed grid must hash to the committed value, be a full
/// canonical grid with path cells at the canonical start and goal, the move
/// sequence must be within the length bound, and its replay must reach the
/// goal.  Any failed condition is a negative verdict, never an error.
pub open spec fn path_verdict(committed_hash: Seq<u8>, grid: Seq<u8>, moves: Seq<u8>) -> bool {
    &&& grid.len() == GRID_DATA_SIZE
    &&& sha256_of(grid) == committed_hash
    &&& grid_at(grid, GRID_SIZE as int, START_POS as int, START_POS as int) == 1
    &&& grid_at(grid, GRID_SIZE as int, END_POS as int, END_POS as int) == 1
    &&& moves.len() <= MAX_MOVES
    &&& replay_valid(grid, GRID_SIZE as int, START_POS as int, END_POS as int, moves)
}

/// Stage 2: judge a claimed grid and move sequence against a stage-1
/// journal.  The verdict is bound to the journal's seed; adversarial input
/// (wrong hash, malformed grid, oversized or invalid moves) yields a
/// negative verdict, never a panic.
pub fn verify_path_stage(journal: &MazeJournal, grid: &Vec<u8>, moves: &Vec<u8>) -> (r: PathJournal)
    ensures
        r.maze_seed == journal.maze_seed,
        r.is_valid == (if path_verdict(journal.grid_hash@, grid@, moves@) {
            1u32
        } else {
            0u32
        }),
{
    if grid.len() != GRID_DATA_SIZE {
        return PathJournal { is_valid: 0, maze_seed: journal.maze_seed };
    }
    let computed = grid_commitment(grid);
    if !bytes_equal(&computed, &journal.grid_hash) {
        return PathJournal { is_valid: 0, maze_seed: journal.maze_seed };
    }
    if grid[START_POS * GRID_SIZE + START_POS] != 1 {
        return PathJournal { is_valid: 0, maze_seed: journal.maze_seed };
    }
    if grid[END_POS * GRID_SIZE + END_POS] != 1 {
        return PathJournal { is_valid: 0, maze_seed: journal.maze_seed };
    }
    if moves.len() > MAX_MOVES {
        return PathJournal { is_valid: 0, maze_seed: journal.maze_seed };
    }
    let valid = verify_maze_solution(moves, grid, GRID_SIZE, START_POS, END_POS);
    PathJournal {
        is_valid: if valid {
            1
        } else {
            0
        },
        maze_seed: journal.maze_seed,
    }
}

/// The looser transport-level cap on uploaded move sequences, enforced
/// before any move data reaches the verification stage.
pub const TRANSPORT_MOVE_CAP: usize = 10000;

/// Accept an uploaded move sequence for further processing: it must be
/// non-empty and within the transport-level cap.  The tighter in-stage bound
/// ([`MAX_MOVES`]) is enforced by [`verify_path_stage`] itself.
pub fn moves_upload_acceptable(moves: &Vec<u8>) -> (ok: bool)
    ensures
        ok == (1 <= moves@.len() <= TRANSPORT_MOVE_CAP),
{
    moves.len() >= 1 && moves.len() <= TRANSPORT_MOVE_CAP
}

/// Verdict idempotence: two path journals produced for the same committed
/// hash, claimed grid, and move sequence, bound to the same seed, are equal.
pub proof fn lemma_verdict_idempotent(
    committed_hash: Seq<u8>,
    grid: Seq<u8>,
    moves: Seq<u8>,
    seed: u32,
    r1: PathJournal,
    r2: PathJournal,
)
    requires
        r1.maze_seed == seed,
        r2.maze_seed == seed,
        r1.is_valid == (if path_verdict(committed_hash, grid, moves) {
            1u32
        } else {
            0u32
        }),
        r2.is_valid == (if path_verdict(committed_hash, grid, moves) {
            1u32
        } else {
            0u32
        }),
    ensures
        r1 == r2,
{
}

} // verus!
