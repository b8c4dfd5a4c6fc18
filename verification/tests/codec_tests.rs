use maze_core::commitment::grid_commitment;
use maze_core::stage::{generate_maze_artifact, moves_upload_acceptable, ReceiptKind};
use maze_core::{
    decode_u32_le, encode_u32_le, encode_u32_words_le, CoreError, MazeJournal, PathJournal,
};

#[test]
fn test_commitment_stability_and_sensitivity() {
    let artifact = generate_maze_artifact(2918957128);
    let h1 = grid_commitment(&artifact.grid);
    let h2 = grid_commitment(&artifact.grid);
    assert_eq!(h1, h2);
    assert_eq!(h1.len(), 32);
    assert_eq!(h1, artifact.commitment);

    // Flipping any single byte changes the digest.
    for idx in [0usize, 42, 840, 1638, 1680] {
        let mut flipped = artifact.grid.clone();
        flipped[idx] ^= 1;
        let h3 = grid_commitment(&flipped);
        assert_ne!(h1, h3, "flipping byte {} left the digest unchanged", idx);
    }
}

#[test]
fn test_commitment_known_vector() {
    // SHA-256 of the three bytes "abc" is a published test vector.
    let input = vec![0x61u8, 0x62, 0x63];
    let digest = grid_commitment(&input);
    let expected: [u8; 32] = [
        0xba, 0x78, 0x16, 0xbf, 0x8f, 0x01, 0xcf, 0xea, 0x41, 0x41, 0x40, 0xde, 0x5d, 0xae,
        0x22, 0x23, 0xb0, 0x03, 0x61, 0xa3, 0x96, 0x17, 0x7a, 0x9c, 0xb4, 0x10, 0xff, 0x61,
        0xf2, 0x00, 0x15, 0xad,
    ];
    assert_eq!(digest, expected.to_vec());
}

#[test]
fn test_u32_codec_round_trip() {
    for x in [0u32, 1, 256, 65536, 2918957128, u32::MAX] {
        let bytes = encode_u32_le(x);
        assert_eq!(bytes, x.to_le_bytes().to_vec());
        assert_eq!(decode_u32_le(bytes[0], bytes[1], bytes[2], bytes[3]), x);
    }
}

#[test]
fn test_encode_u32_words() {
    let words = vec![0x04030201u32, 0x08070605];
    let bytes = encode_u32_words_le(&words);
    assert_eq!(bytes, vec![1u8, 2, 3, 4, 5, 6, 7, 8]);
}

#[test]
fn test_maze_journal_round_trip() {
    let artifact = generate_maze_artifact(12345);
    let journal = artifact.journal();
    let bytes = journal.to_bytes();
    assert_eq!(bytes.len(), 36);
    assert_eq!(&bytes[..4], &12345u32.to_le_bytes());
    assert_eq!(&bytes[4..], &artifact.commitment[..]);

    let parsed = MazeJournal::from_bytes(&bytes).unwrap();
    assert_eq!(parsed.maze_seed, journal.maze_seed);
    assert_eq!(parsed.grid_hash, journal.grid_hash);
}

#[test]
fn test_path_journal_round_trip() {
    let journal = PathJournal { is_valid: 1, maze_seed: 2918957128 };
    let bytes = journal.to_bytes();
    assert_eq!(bytes.len(), 8);
    assert_eq!(&bytes[..4], &1u32.to_le_bytes());
    assert_eq!(&bytes[4..], &2918957128u32.to_le_bytes());

    let parsed = PathJournal::from_bytes(&bytes).unwrap();
    assert_eq!(parsed.is_valid, 1);
    assert_eq!(parsed.maze_seed, 2918957128);
}

#[test]
fn test_malformed_receipt() {
    let short = vec![0u8; 35];
    assert!(matches!(
        MazeJournal::from_bytes(&short),
        Err(CoreError::MalformedReceipt)
    ));
    let short8 = vec![0u8; 7];
    assert!(matches!(
        PathJournal::from_bytes(&short8),
        Err(CoreError::MalformedReceipt)
    ));
}

#[test]
fn test_receipt_kind_parsing() {
    assert_eq!(ReceiptKind::from_str("composite"), Some(ReceiptKind::Composite));
    assert_eq!(ReceiptKind::from_str("Succinct"), Some(ReceiptKind::Succinct));
    assert_eq!(ReceiptKind::from_str("GROTH16"), Some(ReceiptKind::Groth16));
    assert_eq!(ReceiptKind::from_str("bogus"), None);
    assert_eq!(ReceiptKind::from_str(""), None);
    assert_eq!(ReceiptKind::default(), ReceiptKind::Succinct);
    assert_eq!(ReceiptKind::Composite.as_str(), "composite");
    assert_eq!(ReceiptKind::Succinct.as_str(), "succinct");
    assert_eq!(ReceiptKind::Groth16.as_str(), "groth16");
}

#[test]
fn test_moves_upload_bounds() {
    assert!(!moves_upload_acceptable(&vec![]));
    assert!(moves_upload_acceptable(&vec![1u8]));
    assert!(moves_upload_acceptable(&vec![0u8; 10000]));
    assert!(!moves_upload_acceptable(&vec![0u8; 10001]));
}
