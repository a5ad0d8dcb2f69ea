use stem_engine::import::{
    calculate_file_hash, get_mixdown_filename, hash_bytes, is_duplicate, to_hex,
    HASH_BUFFER_SIZE,
};

#[test]
fn test_is_duplicate_found() {
    let hash = "abc123".to_string();
    let existing = vec!["def456".to_string(), "abc123".to_string(), "ghi789".to_string()];

    assert!(is_duplicate(&hash, &existing));
}

#[test]
fn test_is_duplicate_not_found() {
    let hash = "xyz999".to_string();
    let existing = vec!["def456".to_string(), "abc123".to_string(), "ghi789".to_string()];

    assert!(!is_duplicate(&hash, &existing));
}

#[test]
fn test_is_duplicate_empty_list() {
    let hash = "abc123".to_string();
    let existing: Vec<String> = vec![];

    assert!(!is_duplicate(&hash, &existing));
}

#[test]
fn test_file_hash_consistency() {
    let content = b"test content";
    let hash1 = hash_bytes(content);
    let hash2 = hash_bytes(content);

    // Same content should produce same hash
    assert_eq!(hash1, hash2);
    assert_eq!(hash1.len(), 64); // SHA-256 produces 64 hex characters
}

#[test]
fn test_different_content_different_hash() {
    let hash1 = hash_bytes(b"content 1");
    let hash2 = hash_bytes(b"content 2");

    // Different content should produce different hashes
    assert_ne!(hash1, hash2);
}

#[test]
fn duplicate_test_calculate_file_hash_identical_files() {
    let content = b"test content for hashing";
    let hash1 = calculate_file_hash(content, content.len() as u64);
    let hash2 = calculate_file_hash(content, content.len() as u64);

    assert_eq!(hash1, hash2);
}

#[test]
fn duplicate_test_calculate_file_hash_different_files() {
    let hash1 = calculate_file_hash(b"content1", 8);
    let hash2 = calculate_file_hash(b"content2", 8);

    assert_ne!(hash1, hash2);
}

#[test]
fn duplicate_test_calculate_file_hash_large_file() {
    // A 2MB file
    let large_content = vec![0u8; 2 * 1024 * 1024];
    let hash = calculate_file_hash(&large_content, large_content.len() as u64);
    assert_eq!(hash.len(), 64);
}

#[test]
fn hash_bytes_matches_known_digests() {
    assert_eq!(
        hash_bytes(b""),
        "e3b0c44298fc1c149afbf4c8996fb92427ae41e4649b934ca495991b7852b855"
    );
    assert_eq!(
        hash_bytes(b"abc"),
        "ba7816bf8f01cfea414140de5dae2223b00361a396177a9cb410ff61f20015ad"
    );
}

#[test]
fn file_hash_covers_head_and_size() {
    // The message is the content followed by the size, lowest byte first.
    let mut message = b"abc".to_vec();
    message.extend_from_slice(&[3, 0, 0, 0, 0, 0, 0, 0]);
    assert_eq!(calculate_file_hash(b"abc", 3), hash_bytes(&message));

    let mut message = b"abc".to_vec();
    message.extend_from_slice(&[0x01, 0x02, 0, 0, 0, 0, 0, 0]);
    assert_eq!(calculate_file_hash(b"abc", 0x0201), hash_bytes(&message));

    // Same start, other size: another fingerprint.
    assert_ne!(calculate_file_hash(b"abc", 3), calculate_file_hash(b"abc", 4));
}

#[test]
fn file_hash_looks_at_the_first_mebibyte_only() {
    let mut first = vec![7u8; HASH_BUFFER_SIZE + 10];
    let mut second = first.clone();
    first[HASH_BUFFER_SIZE] = 1;
    second[HASH_BUFFER_SIZE + 9] = 2;
    let size = first.len() as u64;
    assert_eq!(calculate_file_hash(&first, size), calculate_file_hash(&second, size));
    assert_eq!(
        calculate_file_hash(&first, size),
        calculate_file_hash(&first[..HASH_BUFFER_SIZE], size)
    );

    second[HASH_BUFFER_SIZE - 1] = 3;
    assert_ne!(calculate_file_hash(&first, size), calculate_file_hash(&second, size));
}

#[test]
fn to_hex_writes_two_lower_case_digits_per_byte() {
    assert_eq!(to_hex(&[]), "");
    assert_eq!(to_hex(&[0x00, 0x0f, 0xa5, 0xff, 0x10]), "000fa5ff10");
    assert_eq!(to_hex(&[0xde, 0xad, 0xbe, 0xef]), "deadbeef");
}

#[test]
fn mixdown_filename_appends_wav() {
    assert_eq!(get_mixdown_filename("song-1"), "song-1.wav");
    assert_eq!(get_mixdown_filename(""), ".wav");
}

/// A minimal WAV file whose eight bytes of samples depend on `filename`.
fn minimal_wav(filename: &str) -> Vec<u8> {
    let mut sample_data = vec![0u8; 8];
    for (i, byte) in filename.bytes().enumerate() {
        sample_data[i % 8] ^= byte;
    }
    let mut wav_data = vec![
        0x52, 0x49, 0x46, 0x46, // "RIFF"
        0x2C, 0x00, 0x00, 0x00, // file size - 8
        0x57, 0x41, 0x56, 0x45, // "WAVE"
        0x66, 0x6D, 0x74, 0x20, // "fmt "
        0x10, 0x00, 0x00, 0x00, // chunk size
        0x01, 0x00, // audio format (PCM)
        0x02, 0x00, // num channels (stereo)
        0x44, 0xAC, 0x00, 0x00, // sample rate (44100)
        0x10, 0xB1, 0x02, 0x00, // byte rate
        0x04, 0x00, // block align
        0x10, 0x00, // bits per sample
        0x64, 0x61, 0x74, 0x61, // "data"
        0x08, 0x00, 0x00, 0x00, // data size (8 bytes)
    ];
    wav_data.extend_from_slice(&sample_data);
    wav_data
}

#[test]
fn tests_test_calculate_file_hash_identical_files() {
    let file1 = minimal_wav("file1.wav");
    let file2 = file1.clone();

    let hash1 = calculate_file_hash(&file1, file1.len() as u64);
    let hash2 = calculate_file_hash(&file2, file2.len() as u64);

    assert_eq!(hash1, hash2, "Identical files should have same hash");
}

#[test]
fn tests_test_calculate_file_hash_different_files() {
    let hash1 = calculate_file_hash(b"content1", 8);
    let hash2 = calculate_file_hash(b"content2", 8);

    assert_ne!(hash1, hash2, "Different files should have different hashes");
    assert_ne!(
        calculate_file_hash(&minimal_wav("file1.wav"), 52),
        calculate_file_hash(&minimal_wav("file2.wav"), 52)
    );
}

#[test]
fn tests_test_calculate_file_hash_large_file() {
    // A file larger than 1MB, to test partial hashing
    let large_data = vec![0u8; 2_000_000];
    let hash = calculate_file_hash(&large_data, large_data.len() as u64);
    assert_eq!(hash.len(), 64);
    assert_eq!(hash, calculate_file_hash(&large_data[..HASH_BUFFER_SIZE], 2_000_000));
}
