use maze_core::stage::{generate_maze_artifact, verify_path_stage, MazeArtifact};

/// The known maze seed for testing.
const MAZE_SEED: u32 = 2918957128;

/// Full 312-move solution for the test maze.
/// Directions: 0=NORTH, 1=EAST, 2=SOUTH, 3=WEST.
const TEST_MOVES: &[u8] = &[
    1, 1, 2, 2, 3, 3, 2, 2, 2, 2, 2, 2, 2, 2, 2, 2, 2, 2, 1, 1, 1, 1, 2, 2, 3, 3, 2, 2, 1, 1,
    1, 1, 2, 2, 1, 1, 1, 1, 2, 2, 2, 2, 1, 1, 0, 0, 1, 1, 0, 0, 3, 3, 0, 0, 0, 0, 3, 3, 3, 3,
    0, 0, 3, 3, 0, 0, 3, 3, 3, 3, 0, 0, 0, 0, 0, 0, 1, 1, 0, 0, 0, 0, 1, 1, 2, 2, 2, 2, 2, 2,
    3, 3, 2, 2, 1, 1, 1, 1, 1, 1, 1, 1, 2, 2, 1, 1, 2, 2, 1, 1, 1, 1, 1, 1, 1, 1, 0, 0, 0, 0,
    0, 0, 1, 1, 2, 2, 1, 1, 0, 0, 1, 1, 1, 1, 0, 0, 1, 1, 1, 1, 0, 0, 0, 0, 0, 0, 1, 1, 2, 2,
    2, 2, 1, 1, 2, 2, 3, 3, 2, 2, 1, 1, 2, 2, 2, 2, 2, 2, 3, 3, 2, 2, 3, 3, 2, 2, 3, 3, 3, 3,
    2, 2, 1, 1, 2, 2, 3, 3, 2, 2, 3, 3, 2, 2, 2, 2, 2, 2, 3, 3, 0, 0, 3, 3, 0, 0, 1, 1, 0, 0,
    3, 3, 3, 3, 2, 2, 3, 3, 3, 3, 2, 2, 1, 1, 1, 1, 2, 2, 3, 3, 2, 2, 1, 1, 1, 1, 1, 1, 2, 2,
    1, 1, 2, 2, 3, 3, 2, 2, 1, 1, 1, 1, 1, 1, 1, 1, 0, 0, 0, 0, 0, 0, 1, 1, 0, 0, 0, 0, 3, 3,
    3, 3, 0, 0, 0, 0, 1, 1, 0, 0, 1, 1, 0, 0, 0, 0, 1, 1, 2, 2, 2, 2, 2, 2, 2, 2, 2, 2, 2, 2,
    2, 2, 2, 2, 2, 2, 3, 3, 2, 2, 1, 1,
];

fn test_artifact(seed: u32) -> MazeArtifact {
    generate_maze_artifact(seed)
}

#[test]
fn test_valid_bfs_solution() {
    // The known solution has 312 moves and starts east, east, south, south.
    assert_eq!(TEST_MOVES.len(), 312);
    assert_eq!(&TEST_MOVES[..8], &[1, 1, 2, 2, 3, 3, 2, 2]);

    let artifact = test_artifact(MAZE_SEED);
    let journal = artifact.journal();
    let moves = TEST_MOVES.to_vec();
    let result = verify_path_stage(&journal, &artifact.grid, &moves);

    assert_eq!(result.is_valid, 1, "BFS solution should be valid but got invalid");
    assert_eq!(result.maze_seed, MAZE_SEED, "Maze seed should match input");
}

#[test]
fn test_invalid_solution_empty_moves() {
    let artifact = test_artifact(MAZE_SEED);
    let journal = artifact.journal();
    let moves: Vec<u8> = vec![];
    let result = verify_path_stage(&journal, &artifact.grid, &moves);

    assert_eq!(result.is_valid, 0, "Empty moves should be invalid but got valid");
}

#[test]
fn test_invalid_solution_wrong_seed() {
    let wrong_seed = 12345;
    let artifact = test_artifact(wrong_seed);
    let journal = artifact.journal();
    let moves = TEST_MOVES.to_vec();
    let result = verify_path_stage(&journal, &artifact.grid, &moves);

    assert_eq!(result.is_valid, 0, "Wrong seed should be invalid but got valid");
}

#[test]
fn test_partial_solution() {
    let artifact = test_artifact(MAZE_SEED);
    let journal = artifact.journal();
    let moves = TEST_MOVES[..50].to_vec();
    let result = verify_path_stage(&journal, &artifact.grid, &moves);

    assert_eq!(result.is_valid, 0, "Partial solution should be invalid but got valid");
}

#[test]
fn test_invalid_moves() {
    let artifact = test_artifact(MAZE_SEED);
    let journal = artifact.journal();
    let moves = vec![1, 1, 1, 1, 1, 1, 1, 1, 1, 1];
    let result = verify_path_stage(&journal, &artifact.grid, &moves);

    assert_eq!(result.is_valid, 0, "Invalid moves should be invalid but got valid");
}

#[test]
fn test_verification_idempotent() {
    let artifact = test_artifact(MAZE_SEED);
    let journal = artifact.journal();
    let moves = TEST_MOVES.to_vec();
    let first = verify_path_stage(&journal, &artifact.grid, &moves);
    let second = verify_path_stage(&journal, &artifact.grid, &moves);
    assert_eq!(first.is_valid, second.is_valid);
    assert_eq!(first.maze_seed, second.maze_seed);

    let empty: Vec<u8> = vec![];
    let third = verify_path_stage(&journal, &artifact.grid, &empty);
    let fourth = verify_path_stage(&journal, &artifact.grid, &empty);
    assert_eq!(third.is_valid, fourth.is_valid);
}

#[test]
fn test_tampered_grid_rejected() {
    let artifact = test_artifact(MAZE_SEED);
    let journal = artifact.journal();
    let mut tampered = artifact.grid.clone();
    // Open a wall somewhere in the middle: the commitment no longer matches.
    tampered[2 * 41 + 2] = 1 - tampered[2 * 41 + 2];
    let moves = TEST_MOVES.to_vec();
    let result = verify_path_stage(&journal, &tampered, &moves);
    assert_eq!(result.is_valid, 0);
}

#[test]
fn test_wrong_length_grid_rejected() {
    let artifact = test_artifact(MAZE_SEED);
    let journal = artifact.journal();
    let short_grid = vec![1u8; 100];
    let result = verify_path_stage(&journal, &short_grid, &TEST_MOVES.to_vec());
    assert_eq!(result.is_valid, 0);
}

#[test]
fn test_oversized_move_sequence_rejected() {
    let artifact = test_artifact(MAZE_SEED);
    let journal = artifact.journal();
    // A valid solution padded beyond the in-stage bound is still rejected:
    // the length check comes before replay.
    let mut moves = TEST_MOVES.to_vec();
    while moves.len() <= 500 {
        moves.push(0);
    }
    let result = verify_path_stage(&journal, &artifact.grid, &moves);
    assert_eq!(result.is_valid, 0);
}

#[test]
fn test_regeneration_is_byte_identical() {
    let a1 = test_artifact(MAZE_SEED);
    let a2 = test_artifact(MAZE_SEED);
    assert_eq!(a1.maze_seed, a2.maze_seed);
    assert_eq!(a1.grid, a2.grid);
    assert_eq!(a1.commitment, a2.commitment);
}
