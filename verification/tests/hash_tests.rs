use abyss::hash::compare::{CompareEngine, CompareReport};
use abyss::hash::database::{
    normalize_path_string, parse_database_path, DatabaseEntry, DatabaseFormat, DatabaseHandler,
};
use abyss::hash::error::{HashUtilityError, IoErrorKind};
use abyss::hash::hash::{
    bytes_to_hex, digest, fast_mode_regions, read_chunk_len, shows_progress, uses_memory_map,
    output_size, BufferedHasher, HashAlgorithm, HashComputer, Hasher, HashRegistry,
    FAST_MODE_SAMPLE_SIZE,
};

fn entry(hash: &str, algorithm: &str) -> DatabaseEntry {
    DatabaseEntry { hash: hash.to_string(), algorithm: algorithm.to_string(), fast_mode: false }
}

fn lines(text: &str) -> Vec<String> {
    text.lines().map(|l| l.to_string()).collect()
}

#[test]
fn test_normalize_path_string_forward_slash() {
    let input = "path/to/file.txt";
    let result = normalize_path_string(input);
    assert_eq!(result, "path/to/file.txt");
}

#[test]
fn test_normalize_path_string_backward_slash() {
    let input = "path\\to\\file.txt";
    let result = normalize_path_string(input);
    assert_eq!(result, "path/to/file.txt");
}

#[test]
fn test_parse_database_path() {
    let input = "path/to\\file.txt";
    let result = parse_database_path(input);
    assert_eq!(result, "path/to/file.txt");
}

#[test]
fn sha256_and_md5_of_hello() {
    let computer = HashComputer::new();
    let r = computer.compute_hash_text("hello", "sha256").unwrap();
    assert_eq!(r.hash, "2cf24dba5fb0a30e26e83b2ac5b9e29e1b161e5c1fa7425e73043362938b9824");
    assert_eq!(r.algorithm, "sha256");
    assert_eq!(r.file_path, "<text>");
    let r = computer.compute_hash(b"hello", "greeting.txt", "MD5").unwrap();
    assert_eq!(r.hash, "5d41402abc4b2a76b9719d911017c592");
    assert_eq!(r.algorithm, "MD5");
    assert_eq!(r.file_path, "greeting.txt");
}

#[test]
fn digest_lengths_match_the_algorithms() {
    assert_eq!(digest(HashAlgorithm::Sha1, b"hello").len(), 20);
    assert_eq!(
        bytes_to_hex(&digest(HashAlgorithm::Sha1, b"hello")),
        "aaf4c61ddcc5e8a2dabede0f3b482cd9aea9434d"
    );
    assert_eq!(digest(HashAlgorithm::Sha512, b"").len(), 64);
    assert_eq!(digest(HashAlgorithm::Sha3_256, b"abc").len(), 32);
    assert_eq!(digest(HashAlgorithm::Blake2b512, b"abc").len(), 64);
    assert_eq!(digest(HashAlgorithm::Blake2s256, b"abc").len(), 32);
    assert_eq!(digest(HashAlgorithm::Blake3, b"abc").len(), 32);
    assert_eq!(digest(HashAlgorithm::Xxh3, b"abc").len(), 8);
    assert_eq!(digest(HashAlgorithm::Xxh128, b"abc").len(), 16);
    assert_eq!(
        bytes_to_hex(&digest(HashAlgorithm::Blake3, b"")),
        "af1349b9f5f9a1a6a0404dea36dcc9499bcb25c9adc112b7cc9a93cae41f3262"
    );
}

#[test]
fn multiple_hashes_follow_the_names() {
    let computer = HashComputer::with_buffer_size(4096);
    assert_eq!(computer.get_buffer_size(), 4096);
    let names = vec!["md5".to_string(), "sha1".to_string()];
    let v = computer.compute_multiple_hashes_text("hello", &names).unwrap();
    assert_eq!(v.len(), 2);
    assert_eq!(v[0].hash, "5d41402abc4b2a76b9719d911017c592");
    assert_eq!(v[1].hash, "aaf4c61ddcc5e8a2dabede0f3b482cd9aea9434d");
    let bad = vec!["md5".to_string(), "crc99".to_string(), "nope".to_string()];
    match computer.compute_multiple_hashes(b"x", "f", &bad) {
        Err(HashUtilityError::UnsupportedAlgorithm { algorithm }) => assert_eq!(algorithm, "crc99"),
        other => panic!("unexpected {:?}", other),
    }
}

#[test]
fn unsupported_algorithm_is_an_error_with_a_message() {
    let e = HashRegistry::parse_algorithm("whirlpool").unwrap_err();
    assert_eq!(
        e.message(),
        "Unsupported hash algorithm: whirlpool\nSuggestion: Use --list to see available algorithms"
    );
    assert!(e.source().is_none());
    assert_eq!(HashRegistry::parse_algorithm("SHA-256").unwrap(), HashAlgorithm::Sha256);
    assert_eq!(HashRegistry::parse_algorithm("blake2b").unwrap(), HashAlgorithm::Blake2b512);
}

#[test]
fn algorithm_list_and_post_quantum() {
    let list = HashRegistry::list_algorithms();
    assert_eq!(list.len(), 15);
    assert_eq!(list[0].name, "MD5");
    assert_eq!(list[6].name, "SHA3-224");
    assert!(list[6].post_quantum);
    assert!(!list[13].cryptographic);
    assert!(HashRegistry::is_post_quantum("SHA3-256"));
    assert!(HashRegistry::is_post_quantum("shake128"));
    assert!(!HashRegistry::is_post_quantum("sha256"));
}

#[test]
fn fast_mode_regions_and_thresholds() {
    assert!(fast_mode_regions(1000).is_none());
    let size: u64 = 1000 * 1024 * 1024;
    let v = fast_mode_regions(size).unwrap();
    assert_eq!(v.len(), 3);
    assert_eq!(v[0], (0, FAST_MODE_SAMPLE_SIZE));
    assert_eq!(v[1], (size / 2 - FAST_MODE_SAMPLE_SIZE / 2, FAST_MODE_SAMPLE_SIZE));
    assert_eq!(v[2], (size - FAST_MODE_SAMPLE_SIZE, FAST_MODE_SAMPLE_SIZE));
    assert_eq!(read_chunk_len(10, 4096), 10);
    assert_eq!(read_chunk_len(10_000, 4096), 4096);
    assert!(!uses_memory_map(0));
    assert!(uses_memory_map(1));
    assert!(!uses_memory_map(2 * 1024 * 1024 * 1024));
    assert!(shows_progress(true, 2 * 1024 * 1024 * 1024, true));
    assert!(!shows_progress(true, 2 * 1024 * 1024 * 1024, false));
}

#[test]
fn written_entries_parse_back() {
    let mut out = String::new();
    DatabaseHandler::write_entry(&mut out, "abc123", "sha256", true, "dir/my  file.txt");
    assert_eq!(out, "abc123  sha256  fast  dir/my  file.txt\n");
    let parsed = DatabaseHandler::parse_line(out.trim_end()).unwrap();
    assert_eq!(parsed.0, "abc123");
    assert_eq!(parsed.1, "sha256");
    assert!(parsed.2);
    assert_eq!(parsed.3, "dir/my  file.txt");
    assert!(DatabaseHandler::parse_line("abc  sha256  quick  f").is_none());
    assert!(DatabaseHandler::parse_line("just one field").is_none());
}

#[test]
fn hashdeep_writing_and_parsing() {
    let mut out = String::new();
    let algs = vec!["md5".to_string(), "sha256".to_string()];
    DatabaseHandler::write_hashdeep_header(&mut out, &algs);
    assert!(out.starts_with("%%%% HASHDEEP-1.0\n%%%% size,md5,sha256,filename\n"));
    let mut line = String::new();
    DatabaseHandler::write_hashdeep_entry(&mut line, 42, &["aa".to_string(), "bb".to_string()], "x/y");
    assert_eq!(line, "42,aa,bb,x/y\n");
    let es = DatabaseHandler::parse_hashdeep_line(line.trim_end(), &algs).unwrap();
    assert_eq!(es.len(), 2);
    assert_eq!(es[0].0, "x/y");
    assert_eq!(es[0].1.hash, "aa");
    assert_eq!(es[0].1.algorithm, "md5");
    assert_eq!(es[1].1.algorithm, "sha256");
    assert!(DatabaseHandler::parse_hashdeep_line("1,2", &algs).is_none());
}

#[test]
fn algorithm_inferred_from_hash_length() {
    assert_eq!(DatabaseHandler::infer_algorithm_from_hash(&"a".repeat(32)), "md5");
    assert_eq!(DatabaseHandler::infer_algorithm_from_hash(&"a".repeat(64)), "sha256");
    assert_eq!(DatabaseHandler::infer_algorithm_from_hash("abc"), "unknown");
}

#[test]
fn format_detection_and_reading() {
    let std_db = lines("\nabc  md5  normal  a.txt\nbroken line\ndef  md5  fast  b.txt\n");
    assert_eq!(DatabaseHandler::detect_format(&std_db), DatabaseFormat::Standard);
    let parsed = DatabaseHandler::read_database(&std_db);
    assert_eq!(parsed.entries.len(), 2);
    assert_eq!(parsed.entries[0].0, "a.txt");
    assert_eq!(parsed.entries[1].1.hash, "def");
    assert!(parsed.entries[1].1.fast_mode);
    assert_eq!(parsed.malformed, vec![3]);

    let deep = lines("%%%% HASHDEEP-1.0\n%%%% size,md5,filename\n## comment\n5,abc,f.txt\n");
    assert_eq!(DatabaseHandler::detect_format(&deep), DatabaseFormat::Hashdeep);
    let parsed = DatabaseHandler::read_database(&deep);
    assert_eq!(parsed.entries.len(), 1);
    assert_eq!(parsed.entries[0].0, "f.txt");
    assert_eq!(parsed.entries[0].1.algorithm, "md5");
    assert!(DatabaseHandler::is_compressed("db.txt.xz"));
    assert!(!DatabaseHandler::is_compressed("db.txt"));
}

#[test]
fn comparing_two_databases() {
    let db1 = vec![
        ("a".to_string(), entry("h1", "md5")),
        ("b".to_string(), entry("h2", "md5")),
        ("c".to_string(), entry("h3", "md5")),
        ("d".to_string(), entry("h1", "md5")),
    ];
    let db2 = vec![
        ("a".to_string(), entry("h1", "md5")),
        ("b".to_string(), entry("hX", "md5")),
        ("e".to_string(), entry("h5", "md5")),
    ];
    let report = CompareEngine::new().compare(&db1, &db2);
    assert_eq!(report.db1_total_files, 4);
    assert_eq!(report.db2_total_files, 3);
    assert_eq!(report.unchanged_files, 1);
    assert_eq!(report.changed_files.len(), 1);
    assert_eq!(report.changed_files[0].path, "b");
    assert_eq!(report.changed_files[0].hash_db1, "h2");
    assert_eq!(report.changed_files[0].hash_db2, "hX");
    assert_eq!(report.removed_files, vec!["c".to_string(), "d".to_string()]);
    assert_eq!(report.added_files, vec!["e".to_string()]);
    assert_eq!(report.duplicates_db1.len(), 1);
    assert_eq!(report.duplicates_db1[0].hash, "h1");
    assert_eq!(report.duplicates_db1[0].count, 2);
    assert!(report.duplicates_db2.is_empty());
    let text = report.to_plain_text();
    assert!(text.starts_with("\n=== Database Comparison Report ===\n\nSummary:\n  Database 1: 4 files\n"));
    assert!(text.contains("\nChanged Files:\n  b\n    DB1: h2\n    DB2: hX\n"));
    assert!(text.contains("\nRemoved Files (in DB1 but not DB2):\n  c\n  d\n"));
    assert!(text.contains("  Hash: h1 (2 files)\n    a\n    d\n"));
}

#[test]
fn a_database_compared_with_itself_changes_nothing() {
    let db = vec![("x".to_string(), entry("1", "md5")), ("y".to_string(), entry("2", "md5"))];
    let report = CompareEngine::new().compare(&db, &db);
    assert_eq!(report.unchanged_files, 2);
    assert!(report.changed_files.is_empty());
    assert!(report.removed_files.is_empty());
    assert!(report.added_files.is_empty());
}

#[test]
fn empty_report_text() {
    let report = CompareReport {
        db1_total_files: 0,
        db2_total_files: 0,
        unchanged_files: 0,
        changed_files: vec![],
        removed_files: vec![],
        added_files: vec![],
        duplicates_db1: vec![],
        duplicates_db2: vec![],
    };
    assert_eq!(
        report.to_plain_text(),
        "\n=== Database Comparison Report ===\n\nSummary:\n  Database 1: 0 files\n  Database 2: 0 files\n  Unchanged:  0 files\n  Changed:    0 files\n  Removed:    0 files\n  Added:      0 files\n  Duplicates in DB1: 0 groups\n  Duplicates in DB2: 0 groups\n\n"
    );
}

#[test]
fn io_errors_are_classified() {
    let e = HashUtilityError::from_io_error_kind(
        std::io::Error::new(std::io::ErrorKind::NotFound, "gone"),
        IoErrorKind::NotFound,
        "scan directory",
        Some("/data".to_string()),
    );
    assert!(matches!(e, HashUtilityError::DirectoryNotFound { ref path } if path == "/data"));
    let e = HashUtilityError::from_io_error(
        std::io::Error::new(std::io::ErrorKind::NotFound, "gone"),
        "read",
        Some("f.txt".to_string()),
    );
    assert_eq!(
        e.message(),
        "File not found: f.txt\nSuggestion: Check that the file path is correct and the file exists"
    );
    let e = HashUtilityError::from_io_error(
        std::io::Error::new(std::io::ErrorKind::PermissionDenied, "no"),
        "read",
        Some("f.txt".to_string()),
    );
    assert!(matches!(e, HashUtilityError::PermissionDenied { .. }));
    let e = HashUtilityError::from_io(std::io::Error::new(std::io::ErrorKind::Other, "boom"));
    assert!(e.source().is_some());
    assert!(e.message().starts_with("I/O error while unknown operation: boom"));
}

#[test]
fn hasher_fed_in_pieces_digests_the_whole() {
    let mut h = HashRegistry::get_hasher("SHA-256").unwrap();
    assert_eq!(h.output_size(), 32);
    h.update(b"he");
    h.update(b"");
    h.update(b"llo");
    assert_eq!(
        bytes_to_hex(&h.finalize()),
        "2cf24dba5fb0a30e26e83b2ac5b9e29e1b161e5c1fa7425e73043362938b9824"
    );
    let mut h = BufferedHasher::new(HashAlgorithm::Md5);
    h.update(b"hello");
    assert_eq!(h.finalize(), digest(HashAlgorithm::Md5, b"hello"));
    assert_eq!(output_size(HashAlgorithm::Xxh3), 8);
    match HashRegistry::get_hasher("crc32") {
        Err(HashUtilityError::UnsupportedAlgorithm { algorithm }) => assert_eq!(algorithm, "crc32"),
        _ => panic!("crc32 is not supported"),
    }
}

#[test]
fn inferring_the_algorithm_of_computed_hashes_names_them_back() {
    let computer = HashComputer::new();
    for name in ["md5", "sha1", "sha224", "sha256", "sha384", "sha512"] {
        let result = computer.compute_hash_text("some text", name).unwrap();
        assert_eq!(DatabaseHandler::infer_algorithm_from_hash(&result.hash), name);
    }
}

#[test]
fn reading_written_entries_gives_them_back() {
    let mut out = String::new();
    DatabaseHandler::write_entry(&mut out, "aa11", "md5", false, "dir\\one.txt");
    DatabaseHandler::write_entry(&mut out, "bb22", "sha1", true, "two  spaced.txt");
    DatabaseHandler::write_entry(&mut out, "cc33", "md5", false, "dir/one.txt");
    let parsed = DatabaseHandler::read_database(&lines(&out));
    assert!(parsed.malformed.is_empty());
    assert_eq!(parsed.entries.len(), 3);
    assert_eq!(parsed.entries[0].0, "dir/one.txt");
    assert_eq!(parsed.entries[0].1.hash, "aa11");
    assert_eq!(parsed.entries[1].0, "two  spaced.txt");
    assert!(parsed.entries[1].1.fast_mode);
    assert_eq!(parsed.entries[1].1.algorithm, "sha1");
    assert_eq!(parsed.entries[2].0, "dir/one.txt");
    assert_eq!(parsed.entries[2].1.hash, "cc33");
}

#[test]
fn parsed_fields_lose_surrounding_whitespace() {
    let parsed = DatabaseHandler::parse_line("ab12  md5  fast  ñandú.txt \u{a0}\t").unwrap();
    assert_eq!(parsed.0, "ab12");
    assert_eq!(parsed.1, "md5");
    assert!(parsed.2);
    assert_eq!(parsed.3, "ñandú.txt");
}

#[test]
fn duplicate_groups_are_disjoint_and_hold_shared_hashes() {
    let db: Vec<(String, DatabaseEntry)> = vec![
        ("d".to_string(), entry("h3", "md5")),
        ("a".to_string(), entry("h1", "md5")),
        ("c".to_string(), entry("h2", "md5")),
        ("f".to_string(), entry("h3", "md5")),
        ("b".to_string(), entry("h1", "md5")),
        ("e".to_string(), entry("h3", "md5")),
    ];
    let groups = CompareEngine::find_duplicates(&db);
    assert_eq!(groups.len(), 2);
    assert_eq!(groups[0].hash, "h1");
    assert_eq!(groups[0].paths, vec!["a".to_string(), "b".to_string()]);
    assert_eq!(groups[0].count, 2);
    assert_eq!(groups[1].hash, "h3");
    assert_eq!(groups[1].paths, vec!["d".to_string(), "e".to_string(), "f".to_string()]);
    assert_eq!(groups[1].count, 3);
    assert!(groups.iter().all(|g| !g.paths.contains(&"c".to_string())));
}

#[test]
fn comparing_the_other_way_round_trades_the_sides() {
    let db1 = vec![
        ("a".to_string(), entry("h1", "md5")),
        ("b".to_string(), entry("h2", "md5")),
        ("c".to_string(), entry("h3", "md5")),
        ("d".to_string(), entry("h1", "md5")),
    ];
    let db2 = vec![
        ("a".to_string(), entry("h1", "md5")),
        ("b".to_string(), entry("hX", "md5")),
        ("e".to_string(), entry("h5", "md5")),
        ("f".to_string(), entry("h5", "md5")),
    ];
    let engine = CompareEngine::new();
    let r = engine.compare(&db1, &db2);
    let s = engine.compare(&db2, &db1);
    assert_eq!(s.db1_total_files, r.db2_total_files);
    assert_eq!(s.db2_total_files, r.db1_total_files);
    assert_eq!(s.unchanged_files, r.unchanged_files);
    assert_eq!(s.added_files, r.removed_files);
    assert_eq!(s.removed_files, r.added_files);
    assert_eq!(s.changed_files.len(), 1);
    assert_eq!(s.changed_files[0].hash_db1, r.changed_files[0].hash_db2);
    assert_eq!(s.changed_files[0].hash_db2, r.changed_files[0].hash_db1);
    assert_eq!(s.duplicates_db1[0].paths, r.duplicates_db2[0].paths);
    assert_eq!(s.duplicates_db2[0].hash, r.duplicates_db1[0].hash);

    let same = engine.compare(&db1, &db1);
    assert!(same.changed_files.is_empty() && same.removed_files.is_empty() && same.added_files.is_empty());
    assert_eq!(same.unchanged_files, same.db1_total_files);
    assert_eq!(same.duplicates_db1[0].paths, same.duplicates_db2[0].paths);
}

#[test]
fn a_later_entry_for_a_path_overrides_an_earlier_one() {
    let db1 = vec![
        ("a".to_string(), entry("h1", "md5")),
        ("b".to_string(), entry("h3", "md5")),
        ("a".to_string(), entry("h2", "md5")),
    ];
    let db2 = vec![("a".to_string(), entry("h2", "md5")), ("b".to_string(), entry("h3", "md5"))];
    let report = CompareEngine::new().compare(&db1, &db2);
    assert_eq!(report.db1_total_files, 2);
    assert_eq!(report.unchanged_files, 2);
    assert!(report.changed_files.is_empty());
}

#[test]
fn compressed_databases_read_back() {
    let data = b"abc123  md5  normal  a.txt\n".to_vec();
    let (name, bytes) = DatabaseHandler::compress_database("dir/hashes.txt", &data);
    assert_eq!(name, "dir/hashes.txt.xz");
    assert_ne!(bytes, data);
    assert_eq!(DatabaseHandler::database_bytes(&name, &bytes).unwrap(), data);
    assert_eq!(DatabaseHandler::database_bytes("dir/hashes.txt", &data).unwrap(), data);
    let broken = DatabaseHandler::database_bytes("db.xz", b"not xz at all");
    assert!(matches!(broken, Err(HashUtilityError::IoError { .. })));
}

#[test]
fn compressed_database_names() {
    assert_eq!(DatabaseHandler::compressed_database_name("db.txt"), "db.txt.xz");
    assert_eq!(DatabaseHandler::compressed_database_name("db"), "db.txt.xz");
    assert_eq!(DatabaseHandler::compressed_database_name("a/hashes.md5"), "a/hashes.md5.xz");
}
