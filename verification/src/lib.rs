//! Verifiable maze puzzles: deterministic generation, grid commitment, and
//! move-sequence replay.
//!
//! A maze is derived from a 32-bit seed by a recursive-backtracker walk over a
//! bounded cell grid, rendered into a canonical binary occupancy grid, and
//! committed to by a SHA-256 hash of the grid bytes.  A candidate solution is
//! an ordered move sequence; it is replayed against a claimed grid whose hash
//! must match the commitment, and the verdict is bound to the original seed.

use vstd::prelude::*;

pub mod commitment;
pub mod maze_gen;
pub mod replay;
pub mod rng;
pub mod stage;

verus! {

/// Maze dimensions in cells (not counting walls).
pub const MAZE_ROWS: usize = 20;

/// Maze dimensions in cells (not counting walls).
pub const MAZE_COLS: usize = 20;

/// Side length of the canonical occupancy grid, including walls:
/// `MAZE_ROWS * 2 + 1`.
pub const GRID_SIZE: usize = 41;

/// Maximum number of moves accepted by path verification.
pub const MAX_MOVES: usize = 500;

/// Total byte length of the flattened canonical grid: `GRID_SIZE * GRID_SIZE`.
pub const GRID_DATA_SIZE: usize = 1681;

/// Byte length of a SHA-256 digest.
pub const HASH_SIZE: usize = 32;

/// Byte length of a maze journal: 4-byte seed plus 32-byte grid hash.
pub const MAZE_JOURNAL_SIZE: usize = 36;

/// Hard failures of the core, as opposed to negative verdicts: adversarial
/// domain inputs (a wrong hash, a wall collision, an oversized move list)
/// never raise these, they yield a correctly computed `false` verdict.
#[derive(Clone, Copy, PartialEq, Eq, Structural, Debug)]
pub enum CoreError {
    /// A journal byte string too short to carry its fields.
    MalformedReceipt,
    /// Requested maze dimensions exceed the fixed maximum cell bounds.
    DimensionOverflow,
}

/// The little-endian 4-byte encoding of a 32-bit unsigned integer.
pub open spec fn u32_le_bytes(x: u32) -> Seq<u8> {
    seq![
        (x % 256) as u8,
        ((x / 256) % 256) as u8,
        ((x / 65536) % 256) as u8,
        ((x / 16777216) % 256) as u8,
    ]
}

/// The 32-bit unsigned integer read from 4 little-endian bytes.
pub open spec fn u32_from_le(b0: u8, b1: u8, b2: u8, b3: u8) -> u32 {
    (b0 + b1 * 256 + b2 * 65536 + b3 * 16777216) as u32
}

/// Encode a 32-bit unsigned integer as 4 little-endian bytes.
pub fn encode_u32_le(x: u32) -> (b: Vec<u8>)
    ensures
        b@ == u32_le_bytes(x),
{
    let mut b: Vec<u8> = Vec::new();
    b.push((x % 256) as u8);
    b.push(((x / 256) % 256) as u8);
    b.push(((x / 65536) % 256) as u8);
    b.push((x / 16777216) as u8);
    proof {
        assert(x / 16777216 < 256);
        assert(b@ =~= u32_le_bytes(x));
    }
    b
}

/// Decode a 32-bit unsigned integer from 4 little-endian bytes.
pub fn decode_u32_le(b0: u8, b1: u8, b2: u8, b3: u8) -> (x: u32)
    ensures
        x == u32_from_le(b0, b1, b2, b3),
{
    b0 as u32 + (b1 as u32) * 256 + (b2 as u32) * 65536 + (b3 as u32) * 16777216
}

/// Decoding the little-endian encoding of `x` gives back `x`.
pub proof fn lemma_u32_le_round_trip(x: u32)
    ensures
        u32_from_le(
            u32_le_bytes(x)[0],
            u32_le_bytes(x)[1],
            u32_le_bytes(x)[2],
            u32_le_bytes(x)[3],
        ) == x,
{
    assert(x % 256 + ((x / 256) % 256) * 256 + ((x / 65536) % 256) * 65536 + ((x / 16777216) % 256)
        * 16777216 == x) by (bit_vector);
}

/// Encode a sequence of 32-bit words as consecutive little-endian bytes.
/// A program image identifier of 8 words becomes its canonical 32 bytes.
pub fn encode_u32_words_le(words: &Vec<u32>) -> (b: Vec<u8>)
    ensures
        b@.len() == 4 * words@.len(),
        forall|j: int|
            0 <= j < words@.len() ==> b@.subrange(4 * j, 4 * j + 4) == u32_le_bytes(words@[j]),
{
    let mut b: Vec<u8> = Vec::new();
    let mut i: usize = 0;
    while i < words.len()
        invariant
            i <= words@.len(),
            b@.len() == 4 * i,
            forall|j: int|
                0 <= j < i ==> b@.subrange(4 * j, 4 * j + 4) == u32_le_bytes(words@[j]),
        decreases words@.len() - i,
    {
        let ghost b_pre = b@;
        let mut w = encode_u32_le(words[i]);
        b.append(&mut w);
        proof {
            assert forall|j: int| 0 <= j < i + 1 implies b@.subrange(4 * j, 4 * j + 4)
                == u32_le_bytes(words@[j]) by {
                if j < i {
                    assert(b@.subrange(4 * j, 4 * j + 4) =~= b_pre.subrange(4 * j, 4 * j + 4));
                } else {
                    assert(b@.subrange(4 * j, 4 * j + 4) =~= u32_le_bytes(words@[j]));
                }
            }
        }
        i = i + 1;
    }
    b
}

/// Journal output of the maze commitment stage: the seed and the SHA-256
/// commitment to the canonical grid derived from it.  The grid itself is not
/// part of the journal; it travels out of band and is trusted only through
/// hash equality.
pub struct MazeJournal {
    /// The seed the maze was generated from.
    pub maze_seed: u32,
    /// SHA-256 hash of the flattened canonical grid bytes.
    pub grid_hash: Vec<u8>,
}

impl MazeJournal {
    /// Well-formed: the hash is exactly 32 bytes.
    pub open spec fn wf(&self) -> bool {
        self.grid_hash@.len() == 32
    }

    /// The canonical 36-byte encoding: 4-byte little-endian seed, then the
    /// 32 raw hash bytes.
    pub open spec fn spec_bytes(&self) -> Seq<u8> {
        u32_le_bytes(self.maze_seed) + self.grid_hash@
    }

    /// Encode this journal into its canonical 36 bytes.
    pub fn to_bytes(&self) -> (b: Vec<u8>)
        requires
            self.wf(),
        ensures
            b@ == self.spec_bytes(),
            b@.len() == MAZE_JOURNAL_SIZE,
    {
        let mut b = encode_u32_le(self.maze_seed);
        let mut i: usize = 0;
        while i < self.grid_hash.len()
            invariant
                self.wf(),
                i <= 32,
                b@ =~= u32_le_bytes(self.maze_seed) + self.grid_hash@.take(i as int),
            decreases self.grid_hash@.len() - i,
        {
            b.push(self.grid_hash[i]);
            proof {
                assert(b@ =~= u32_le_bytes(self.maze_seed) + self.grid_hash@.take(i + 1));
            }
            i = i + 1;
        }
        proof {
            assert(self.grid_hash@.take(32) =~= self.grid_hash@);
        }
        b
    }

    /// Decode a journal from bytes: the first 4 bytes are the little-endian
    /// seed, the next 32 the grid hash; extra bytes are ignored.  Fewer than
    /// 36 bytes is a malformed receipt.
    pub fn from_bytes(bytes: &Vec<u8>) -> (r: Result<MazeJournal, CoreError>)
        ensures
            bytes@.len() >= MAZE_JOURNAL_SIZE ==> {
                &&& r is Ok
                &&& r->Ok_0.wf()
                &&& r->Ok_0.maze_seed == u32_from_le(bytes@[0], bytes@[1], bytes@[2], bytes@[3])
                &&& r->Ok_0.grid_hash@ == bytes@.subrange(4, 36)
            },
            bytes@.len() < MAZE_JOURNAL_SIZE ==> r == Result::<MazeJournal, CoreError>::Err(
                CoreError::MalformedReceipt,
            ),
    {
        if bytes.len() < MAZE_JOURNAL_SIZE {
            return Err(CoreError::MalformedReceipt);
        }
        let maze_seed = decode_u32_le(bytes[0], bytes[1], bytes[2], bytes[3]);
        let mut grid_hash: Vec<u8> = Vec::new();
        let mut i: usize = 4;
        while i < 36
            invariant
                bytes@.len() >= 36,
                4 <= i <= 36,
                grid_hash@ =~= bytes@.subrange(4, i as int),
            decreases 36 - i,
        {
            grid_hash.push(bytes[i]);
            proof {
                assert(grid_hash@ =~= bytes@.subrange(4, i + 1));
            }
            i = i + 1;
        }
        Ok(MazeJournal { maze_seed, grid_hash })
    }
}

/// Journal output of the path verification stage: the verdict (0 or 1) and
/// the seed of the maze the path was judged against.
pub struct PathJournal {
    /// 1 when the replayed path reached the goal, 0 otherwise.
    pub is_valid: u32,
    /// The seed of the maze this path was verified against.
    pub maze_seed: u32,
}

impl PathJournal {
    /// The canonical 8-byte encoding: 4-byte little-endian validity flag
    /// (0 or 1), then the 4-byte little-endian seed.
    pub open spec fn spec_bytes(&self) -> Seq<u8> {
        u32_le_bytes(self.is_valid) + u32_le_bytes(self.maze_seed)
    }

    /// Encode this journal into its canonical 8 bytes.
    pub fn to_bytes(&self) -> (b: Vec<u8>)
        ensures
            b@ == self.spec_bytes(),
            b@.len() == 8,
    {
        let mut b = encode_u32_le(self.is_valid);
        let mut tail = encode_u32_le(self.maze_seed);
        b.append(&mut tail);
        b
    }

    /// Decode a journal from bytes: the first 4 bytes are the little-endian
    /// validity flag, the next 4 the seed; extra bytes are ignored.  Fewer
    /// than 8 bytes is a malformed receipt.
    pub fn from_bytes(bytes: &Vec<u8>) -> (r: Result<PathJournal, CoreError>)
        ensures
            bytes@.len() >= 8 ==> {
                &&& r is Ok
                &&& r->Ok_0.is_valid == u32_from_le(bytes@[0], bytes@[1], bytes@[2], bytes@[3])
                &&& r->Ok_0.maze_seed == u32_from_le(bytes@[4], bytes@[5], bytes@[6], bytes@[7])
            },
            bytes@.len() < 8 ==> r == Result::<PathJournal, CoreError>::Err(
                CoreError::MalformedReceipt,
            ),
    {
        if bytes.len() < 8 {
            return Err(CoreError::MalformedReceipt);
        }
        let is_valid = decode_u32_le(bytes[0], bytes[1], bytes[2], bytes[3]);
        let maze_seed = decode_u32_le(bytes[4], bytes[5], bytes[6], bytes[7]);
        Ok(PathJournal { is_valid, maze_seed })
    }
}

} // verus!
