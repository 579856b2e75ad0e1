use abyss::hash::hash::{bytes_to_hex, digest, HashAlgorithm};
use abyss::sync::compression::{compress, decompress, CompressionLevel, CompressionType};
use abyss::sync::conflict::{
    Conflict, ConflictResolution, ConflictResolver, ConflictStrategy, FileInfo, Timestamp,
};
use abyss::sync::engine::{
    hashes_match, is_conflict, join_path, needs_update, pending_action_count, plan_actions,
    relative_entry_path, transfer_payload, FileState, SyncAction, SyncConfig, SyncMode,
};
use abyss::sync::exclude::ExcludePatterns;
use abyss::sync::hash::{build_chunk_lookup, chunk_of_block, hash_bytes, RollingChecksum};
use abyss::sync::throttle::{transfer_chunks, BandwidthLimit};
use abyss::sync::watcher::{EventDebouncer, WatchEvent, WatchEventKind};

fn day(secs: i64) -> Option<Timestamp> {
    Some(Timestamp { secs, nanos: 0 })
}

#[test]
fn test_gzip_roundtrip() {
    let original = b"Hello, world! This is a test of compression.";
    let compressed = compress(original, CompressionType::Gzip, CompressionLevel::balanced()).unwrap();
    let decompressed = decompress(&compressed, CompressionType::Gzip).unwrap();
    assert_eq!(original.as_slice(), decompressed.as_slice());
    assert!(compressed.len() < original.len() * 2);
}

#[test]
fn test_zstd_roundtrip() {
    let original = b"Hello, world! This is a test of compression.";
    let compressed = compress(original, CompressionType::Zstd, CompressionLevel::balanced()).unwrap();
    let decompressed = decompress(&compressed, CompressionType::Zstd).unwrap();
    assert_eq!(original.as_slice(), decompressed.as_slice());
}

#[test]
fn test_no_compression() {
    let original = b"Hello, world!";
    let result = compress(original, CompressionType::NoCompression, CompressionLevel::default()).unwrap();
    assert_eq!(original.as_slice(), result.as_slice());
}

#[test]
fn test_already_compressed_detection() {
    assert!(CompressionType::is_already_compressed("file.gz"));
    assert!(CompressionType::is_already_compressed("photo.jpg"));
    assert!(CompressionType::is_already_compressed("video.mp4"));
    assert!(CompressionType::is_already_compressed("archive.zip"));
    assert!(!CompressionType::is_already_compressed("document.txt"));
    assert!(!CompressionType::is_already_compressed("source.rs"));
    assert!(!CompressionType::is_already_compressed("data.json"));
}

#[test]
fn compressed_output_differs_from_input() {
    let original = b"aaaaaaaaaaaaaaaaaaaaaaaaaaaaaaaaaaaaaaaaaaaaaaaaaaaaaaaaaaaaaaaa";
    let gz = compress(original, CompressionType::Gzip, CompressionLevel::max()).unwrap();
    let zs = compress(original, CompressionType::Zstd, CompressionLevel::fast()).unwrap();
    assert_ne!(gz.as_slice(), original.as_slice());
    assert_ne!(zs.as_slice(), original.as_slice());
    assert_eq!(decompress(&zs, CompressionType::Zstd).unwrap(), original.to_vec());
}

#[test]
fn decompressing_garbage_fails() {
    assert!(decompress(b"not a gzip stream", CompressionType::Gzip).is_err());
    assert!(decompress(b"not a zstd frame", CompressionType::Zstd).is_err());
}

#[test]
fn compression_names_and_levels() {
    assert_eq!(CompressionType::Gzip.name(), "gzip");
    assert_eq!(CompressionType::from_extension("ZST"), Some(CompressionType::Zstd));
    assert_eq!(CompressionType::from_extension("txt"), None);
    assert_eq!(CompressionLevel::new(0).value(), 1);
    assert_eq!(CompressionLevel::new(12).value(), 9);
    assert_eq!(CompressionLevel::new(5).value(), 5);
}

#[test]
fn test_last_write_wins_source_newer() {
    let source = FileInfo::new("test.txt", 100, day(1704153600));
    let dest = FileInfo::new("test.txt", 100, day(1704067200));
    let mut conflict = Conflict::new("test.txt", source, dest).with_strategy(ConflictStrategy::LastWriteWins);
    assert_eq!(conflict.resolve(), ConflictResolution::UseSource);
}

#[test]
fn test_last_write_wins_dest_newer() {
    let source = FileInfo::new("test.txt", 100, day(1704067200));
    let dest = FileInfo::new("test.txt", 100, day(1704153600));
    let mut conflict = Conflict::new("test.txt", source, dest).with_strategy(ConflictStrategy::LastWriteWins);
    assert_eq!(conflict.resolve(), ConflictResolution::UseDest);
}

#[test]
fn test_conflict_path_generation() {
    let source = FileInfo::new("dir/file.txt", 100, None);
    let dest = FileInfo::new("dir/file.txt", 100, None);
    let conflict = Conflict::new("dir/file.txt", source, dest);
    assert_eq!(conflict.conflict_path(1), "dir/file.conflict-1.txt");
    assert_eq!(conflict.conflict_path(2), "dir/file.conflict-2.txt");
}

#[test]
fn resolver_counts_resolutions() {
    let mut resolver = ConflictResolver::new(ConflictStrategy::SourceWins);
    resolver.add_conflict("a", FileInfo::new("a", 1, None), FileInfo::new("a", 2, None));
    resolver.add_conflict("b", FileInfo::new("b", 1, None), FileInfo::new("b", 2, None));
    resolver.resolve_all();
    let stats = resolver.stats();
    assert_eq!(stats.used_source, 2);
    assert_eq!(stats.total(), 2);
    assert!(resolver.pending.is_empty());
}

#[test]
fn test_sync_config_defaults() {
    let config = SyncConfig::default();
    assert_eq!(config.mode, SyncMode::OneWay);
    assert_eq!(config.conflict_strategy, ConflictStrategy::LastWriteWins);
    assert!(!config.dry_run);
    assert!(!config.delete_extra);
}

#[test]
fn test_sync_action_path() {
    let action = SyncAction::CopyToDestination { path: "test.txt".to_string() };
    assert_eq!(action.path(), "test.txt");
    let skip = SyncAction::Skip { path: "skip.txt".to_string(), reason: "test".to_string() };
    assert!(skip.is_skip());
}

fn file(path: &str, size: u64, secs: i64) -> FileState {
    FileState::new(path, size, day(secs), false)
}

#[test]
fn one_way_plan_copies_new_and_changed_files() {
    let config = SyncConfig::default();
    let src = vec![
        file("a.txt", 10, 100),
        file("b.txt", 10, 100),
        file("c.txt", 20, 100),
        FileState::new("docs", 0, None, true),
        file(".git", 1, 100),
    ];
    let dst = vec![file("b.txt", 10, 100), file("c.txt", 10, 100), file("old.txt", 5, 100)];
    let mut resolver = ConflictResolver::new(ConflictStrategy::LastWriteWins);
    let (actions, stats) = plan_actions(&config, &src, &dst, &mut resolver);
    assert_eq!(
        actions,
        vec![
            SyncAction::CopyToDestination { path: "a.txt".to_string() },
            SyncAction::Skip { path: "b.txt".to_string(), reason: "Already up to date".to_string() },
            SyncAction::CopyToDestination { path: "c.txt".to_string() },
            SyncAction::CreateDirInDestination { path: "docs".to_string() },
            SyncAction::Skip { path: ".git".to_string(), reason: "Excluded by pattern".to_string() },
        ]
    );
    assert_eq!(stats.files_scanned, 5);
    assert_eq!(stats.files_skipped, 2);
    assert_eq!(stats.conflicts, 0);
    assert_eq!(pending_action_count(&actions), 3);
}

#[test]
fn mirror_plan_deletes_extras_and_bidirectional_brings_them_back() {
    let mut config = SyncConfig::default();
    config.mode = SyncMode::Mirror;
    let src = vec![file("keep.txt", 1, 100)];
    let dst = vec![file("keep.txt", 1, 100), file("extra.txt", 1, 100), FileState::new("dir", 0, None, true)];
    let mut resolver = ConflictResolver::new(ConflictStrategy::LastWriteWins);
    let (actions, _) = plan_actions(&config, &src, &dst, &mut resolver);
    assert_eq!(actions[1], SyncAction::DeleteFromDestination { path: "extra.txt".to_string() });
    assert_eq!(actions[2], SyncAction::DeleteFromDestination { path: "dir".to_string() });

    config.mode = SyncMode::Bidirectional;
    let (actions, _) = plan_actions(&config, &src, &dst, &mut resolver);
    assert_eq!(actions[1], SyncAction::CopyToSource { path: "extra.txt".to_string() });
    assert_eq!(actions[2], SyncAction::CreateDirInSource { path: "dir".to_string() });
}

#[test]
fn bidirectional_plan_registers_conflicts() {
    let mut config = SyncConfig::default();
    config.mode = SyncMode::Bidirectional;
    let src = vec![file("x.txt", 10, 1000)];
    let dst = vec![file("x.txt", 20, 990)];
    let mut resolver = ConflictResolver::new(ConflictStrategy::KeepBoth);
    let (actions, stats) = plan_actions(&config, &src, &dst, &mut resolver);
    assert_eq!(actions, vec![SyncAction::Conflict { path: "x.txt".to_string() }]);
    assert_eq!(stats.conflicts, 1);
    assert_eq!(resolver.pending.len(), 1);
    assert_eq!(resolver.pending[0].path, "x.txt");
    assert_eq!(resolver.pending[0].strategy, ConflictStrategy::KeepBoth);
    assert_eq!(resolver.pending[0].dest.size, 20);
}

#[test]
fn update_and_conflict_predicates() {
    let a = file("f", 10, 200);
    let b = file("f", 10, 100);
    assert!(needs_update(&a, &b));
    assert!(!needs_update(&b, &a));
    let c = file("f", 11, 159);
    assert!(is_conflict(SyncMode::Bidirectional, &c, &b));
    let d = file("f", 11, 160);
    assert!(!is_conflict(SyncMode::Bidirectional, &d, &b));
    assert!(!is_conflict(SyncMode::OneWay, &c, &b));
}

#[test]
fn relative_paths_of_scanned_entries() {
    assert_eq!(relative_entry_path("/root", "/root", "a"), "a");
    assert_eq!(relative_entry_path("/root", "/root/sub", "a"), "sub/a");
    assert_eq!(relative_entry_path("/root", "/root//x/y", "b"), "x/y/b");
    assert_eq!(relative_entry_path("/root", "/other", "c"), "other/c");
    assert_eq!(join_path("/root", "a.txt"), "/root/a.txt");
}

#[test]
fn transfer_payload_writes_the_original_bytes() {
    let data = b"some file content that compresses some file content".to_vec();
    let (sent, written) = transfer_payload(&data, CompressionType::Gzip, CompressionLevel::balanced(), "notes.txt").unwrap();
    assert_eq!(written, data);
    assert_ne!(sent, data.len() as u64);
    let (sent, written) = transfer_payload(&data, CompressionType::Gzip, CompressionLevel::balanced(), "photo.jpg").unwrap();
    assert_eq!(written, data);
    assert_eq!(sent, data.len() as u64);
    assert!(hashes_match(&data, &written));
    assert!(!hashes_match(&data, b"other"));
}

#[test]
fn test_default_excludes() {
    let excludes = ExcludePatterns::with_defaults();
    assert!(excludes.is_excluded(".git"));
    assert!(excludes.is_excluded(".git/config"));
    assert!(excludes.is_excluded(".DS_Store"));
    assert!(excludes.is_excluded("node_modules"));
    assert!(excludes.is_excluded("node_modules/package/index.js"));
    assert!(excludes.is_excluded("file.swp"));
    assert!(!excludes.is_excluded("src/main.rs"));
    assert!(!excludes.is_excluded("README.md"));
}

#[test]
fn test_custom_patterns() {
    let excludes = ExcludePatterns::from_patterns(&["*.log", "temp/**"]).unwrap();
    assert!(excludes.is_excluded("debug.log"));
    assert!(excludes.is_excluded("temp/file.txt"));
    assert!(!excludes.is_excluded("main.rs"));
}

#[test]
fn test_gitignore_parsing() {
    let content = "\n# Comment\n*.log\ntemp/\n\n# Another comment\n!important.log\n";
    let excludes = ExcludePatterns::parse_gitignore(content).unwrap();
    assert!(excludes.is_excluded("debug.log"));
    assert!(excludes.is_excluded("temp/"));
    assert_eq!(excludes.patterns().len(), 2);
}

#[test]
fn test_add_remove_pattern() {
    let mut excludes = ExcludePatterns::new();
    excludes.add_pattern("*.txt").unwrap();
    assert!(excludes.is_excluded("file.txt"));
    excludes.remove_pattern("*.txt").unwrap();
    assert!(!excludes.is_excluded("file.txt"));
}

#[test]
fn invalid_pattern_is_an_error() {
    assert!(ExcludePatterns::from_patterns(&["a[b"]).is_err());
    let mut excludes = ExcludePatterns::new();
    assert!(excludes.add_pattern("a[b").is_err());
    assert!(excludes.patterns().is_empty());
}

#[test]
fn adding_a_pattern_keeps_what_was_excluded() {
    let mut excludes = ExcludePatterns::from_patterns(&["*.log"]).unwrap();
    assert!(excludes.is_excluded("x.log"));
    excludes.add_pattern("*.tmp").unwrap();
    assert!(excludes.is_excluded("x.log"));
    assert!(excludes.is_excluded("y.tmp"));
}

#[test]
fn test_hash_bytes() {
    let hash1 = hash_bytes(b"hello world");
    let hash2 = hash_bytes(b"hello world");
    let hash3 = hash_bytes(b"goodbye world");
    assert_eq!(hash1, hash2);
    assert_ne!(hash1, hash3);
    assert_eq!(hash1.len(), 64);
}

#[test]
fn blake3_of_empty_input() {
    assert_eq!(
        hash_bytes(b""),
        "af1349b9f5f9a1a6a0404dea36dcc9499bcb25c9adc112b7cc9a93cae41f3262"
    );
    let big = vec![7u8; 200 * 1024];
    assert_eq!(hash_bytes(&big).len(), 64);
}

#[test]
fn test_rolling_checksum() {
    let mut rolling = RollingChecksum::new(4);
    rolling.init(b"abcd");
    let v1 = rolling.value();
    rolling.roll(b'a', b'e');
    let v2 = rolling.value();
    assert_ne!(v1, v2);
    let mut fresh = RollingChecksum::new(4);
    fresh.init(b"bcde");
    assert_eq!(rolling.value(), fresh.value());
}

#[test]
fn rolling_checksum_value_and_hex() {
    let mut rolling = RollingChecksum::new(2);
    rolling.init(&[1, 2]);
    // a = 3, b = 2*1 + 1*2 = 4
    assert_eq!(rolling.value(), (4 << 16) | 3);
    assert_eq!(rolling.hex(), "00040003");
}

#[test]
fn chunks_and_lookup() {
    let c0 = chunk_of_block(0, b"abcd");
    let c1 = chunk_of_block(4, b"abcd");
    assert_eq!(c0.offset, 0);
    assert_eq!(c1.offset, 4);
    assert_eq!(c0.size, 4);
    assert_eq!(c0.rolling, c1.rolling);
    assert_eq!(c0.strong_hash, hash_bytes(b"abcd"));
    let lookup = build_chunk_lookup(&[c0, c1]);
    assert_eq!(lookup.len(), 1);
    assert_eq!(lookup.values().next().unwrap(), &vec![0usize, 1]);
}

#[test]
fn bandwidth_chunks() {
    assert!(!BandwidthLimit::unlimited().is_limited());
    assert_eq!(BandwidthLimit::new(10_240).quota_chunks(), Some(10));
    assert_eq!(BandwidthLimit::new(100).quota_chunks(), Some(1));
    assert_eq!(BandwidthLimit::unlimited().quota_chunks(), None);
    assert_eq!(transfer_chunks(0), 1);
    assert_eq!(transfer_chunks(1025), 2);
}

#[test]
fn test_debouncer() {
    let mut debouncer = EventDebouncer::new(100);
    let event1 = WatchEvent {
        kind: WatchEventKind::Modified,
        paths: vec!["/test/file.txt".to_string()],
        is_dir: false,
    };
    assert!(debouncer.should_process(&event1));
    assert!(!debouncer.should_process(&event1));
    let event2 = WatchEvent {
        kind: WatchEventKind::Modified,
        paths: vec!["/test/other.txt".to_string()],
        is_dir: false,
    };
    assert!(debouncer.should_process(&event2));
}

#[test]
fn debouncer_tells_kinds_apart() {
    let mut debouncer = EventDebouncer::default_window();
    let modified = WatchEvent { kind: WatchEventKind::Modified, paths: vec!["/a".to_string()], is_dir: false };
    let deleted = WatchEvent { kind: WatchEventKind::Deleted, paths: vec!["/a".to_string()], is_dir: false };
    let kept = debouncer.filter(vec![modified.clone(), deleted.clone(), modified]);
    assert_eq!(kept.len(), 2);
    assert_eq!(kept[1].kind, WatchEventKind::Deleted);
}

#[test]
fn large_inputs_hash_the_same_on_several_threads() {
    let big: Vec<u8> = (0..300 * 1024).map(|i| (i % 251) as u8).collect();
    let h = hash_bytes(&big);
    assert_eq!(h.len(), 64);
    assert_eq!(h, bytes_to_hex(&digest(HashAlgorithm::Blake3, &big)));
    assert_ne!(h, hash_bytes(&big[..1000]));
}

#[test]
fn merging_and_parsing_patterns_fail_on_bad_globs() {
    let mut own = ExcludePatterns::from_patterns(&["*.log"]).unwrap();
    let good = ExcludePatterns::from_patterns(&["*.tmp", "*.log"]).unwrap();
    assert!(own.merge(&good).is_ok());
    assert_eq!(own.patterns().len(), 2);
    assert!(ExcludePatterns::parse_gitignore("# comment\n*.bak\n").is_ok());
    assert!(ExcludePatterns::parse_gitignore("*.bak\na[b\n").is_err());
    let mut debouncer = EventDebouncer::new(1000);
    let both = WatchEvent {
        kind: WatchEventKind::Created,
        paths: vec!["/x".to_string(), "/y".to_string()],
        is_dir: false,
    };
    let again = WatchEvent { kind: WatchEventKind::Created, paths: vec!["/y".to_string()], is_dir: false };
    let other = WatchEvent { kind: WatchEventKind::Created, paths: vec!["/z".to_string()], is_dir: false };
    let kept = debouncer.filter(vec![both, again, other]);
    assert_eq!(kept.len(), 2);
    assert_eq!(kept[1].paths, vec!["/z".to_string()]);
}

#[test]
fn gitignore_lines_are_split_and_trimmed_like_str_methods() {
    let content = "  *.bak \u{a0}\r\n\n\t# comment\r\n\u{3000}tëmp/\u{2003}\nlast.tmp";
    let excludes = ExcludePatterns::parse_gitignore(content).unwrap();
    assert_eq!(excludes.patterns(), ["*.bak", "tëmp/", "last.tmp"]);
}

#[test]
fn chunk_lookup_lists_each_index_once() {
    let chunks = vec![
        chunk_of_block(0, b"abcd"),
        chunk_of_block(4, b"wxyz"),
        chunk_of_block(8, b"abcd"),
        chunk_of_block(12, b"qq"),
    ];
    let lookup = build_chunk_lookup(&chunks);
    assert_eq!(lookup.len(), 3);
    assert_eq!(lookup[&chunks[0].rolling], vec![0usize, 2]);
    assert_eq!(lookup[&chunks[1].rolling], vec![1usize]);
    assert_eq!(lookup[&chunks[3].rolling], vec![3usize]);
    assert_eq!(lookup.values().map(|v| v.len()).sum::<usize>(), chunks.len());
}
