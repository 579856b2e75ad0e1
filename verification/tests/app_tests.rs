use abyss::app::{TextEditor, TextInput};
use abyss::events::Key;
use abyss::fs::backend::{byte_range, parent_and_name, BackendCapabilities, BackendType, S3Provider};
use abyss::fs::local::{LocalBackend, LocalFs};
use abyss::fs::copy::{child_path, copy_steps, count_files, CopyStep};
use abyss::fs::selecting::SelectingBackend;
use abyss::hash::database::DatabaseFormat;
use abyss::hash::scan::{FileOutcome, ScanEngine, ScanTally};

#[test]
fn text_input_edits_at_the_cursor() {
    let mut input = TextInput::new("abc");
    assert_eq!(input.cursor, 3);
    assert_eq!(input.original, "abc");
    input.move_left();
    input.insert('X');
    assert_eq!(input.value, "abXc");
    assert_eq!(input.cursor, 3);
    input.delete_back();
    assert_eq!(input.value, "abc");
    assert_eq!(input.cursor, 2);
    input.move_right();
    input.move_right();
    assert_eq!(input.cursor, 3);
    input.clear();
    assert_eq!(input.value, "");
    assert_eq!(input.cursor, 0);
    input.delete_back();
    assert_eq!(input.value, "");
    assert_eq!(input.original, "abc");
}

#[test]
fn editor_typing_and_lines() {
    let mut ed = TextEditor::new();
    ed.insert_char('h');
    ed.insert_char('i');
    assert_eq!(ed.content, vec!["hi".to_string()]);
    assert_eq!(ed.cursor_col, 2);
    assert!(ed.modified);
    ed.cursor_col = 1;
    ed.insert_newline();
    assert_eq!(ed.content, vec!["h".to_string(), "i".to_string()]);
    assert_eq!(ed.cursor_row, 1);
    assert_eq!(ed.cursor_col, 0);
    ed.delete_back();
    assert_eq!(ed.content, vec!["hi".to_string()]);
    assert_eq!(ed.cursor_row, 0);
    assert_eq!(ed.cursor_col, 1);
}

#[test]
fn cutting_and_pasting_a_line() {
    let mut ed = TextEditor::new();
    ed.content = vec!["one".to_string(), "two".to_string(), "three".to_string()];
    ed.cursor_row = 1;
    ed.cut_line();
    assert_eq!(ed.content, vec!["one".to_string(), "three".to_string()]);
    assert_eq!(ed.cut_buffer.as_deref(), Some("two"));
    assert_eq!(ed.cursor_row, 1);
    ed.uncut_line();
    assert_eq!(ed.content, vec!["one".to_string(), "two".to_string(), "three".to_string()]);
    assert_eq!(ed.cursor_row, 2);

    let mut last = TextEditor::new();
    last.content = vec!["only".to_string()];
    last.cut_line();
    assert_eq!(last.content, vec!["".to_string()]);
    assert_eq!(last.cursor_row, 0);
}

#[test]
fn backend_names_and_endpoints() {
    assert_eq!(BackendType::Local.short_name(), "Local");
    assert_eq!(BackendType::Gcs { bucket: "b".to_string() }.short_name(), "GCS");
    assert!(BackendType::Local.is_local());
    assert!(!BackendType::Selecting.is_local());
    assert_eq!(
        S3Provider::Wasabi.endpoint("eu-central-1"),
        Some("https://s3.eu-central-1.wasabisys.com".to_string())
    );
    assert_eq!(S3Provider::Aws.endpoint("us-east-1"), None);
    assert_eq!(S3Provider::MinIO.endpoint("x"), Some("http://localhost:9000".to_string()));
    assert_eq!(S3Provider::Hetzner.display_name(), "Hetzner Object Storage");
    let custom = S3Provider::Custom { name: "Mine".to_string(), endpoint: "http://e".to_string() };
    assert_eq!(custom.display_name(), "Mine");
    assert_eq!(custom.endpoint("r"), Some("http://e".to_string()));
}

#[test]
fn capabilities_by_backend() {
    let local = BackendCapabilities::local();
    assert!(local.streaming && local.permissions && local.xattr);
    let cloud = BackendCapabilities::cloud();
    assert!(cloud.streaming);
    assert!(!cloud.permissions);
    assert_eq!(BackendCapabilities::default(), BackendCapabilities::selecting());
    assert!(!BackendCapabilities::selecting().stat);
}

#[test]
fn ranged_reads_and_path_splitting() {
    let data = b"0123456789";
    assert_eq!(byte_range(data, 2, 3), b"234".to_vec());
    assert_eq!(byte_range(data, 8, 10), b"89".to_vec());
    assert!(byte_range(data, 10, 1).is_empty());
    assert_eq!(parent_and_name("a/b/c.txt"), ("a/b".to_string(), "c.txt".to_string()));
    assert_eq!(parent_and_name("c.txt"), ("".to_string(), "c.txt".to_string()));
}

#[test]
fn local_paths_are_normalized_and_joined() {
    assert_eq!(LocalFs::normalize_path("/a/./b/../c"), "/a/c");
    assert_eq!(LocalFs::normalize_path("a/b/.."), "a");
    assert_eq!(LocalFs::normalize_path(".."), "/");
    let backend = LocalBackend::new("/home/u".to_string());
    assert_eq!(backend.full_path("docs/x"), "/home/u/docs/x");
    assert_eq!(backend.full_path("/etc/hosts"), "/etc/hosts");
    assert_eq!(backend.root_path(), "/home/u");
    assert!(backend.backend_type().is_local());
}

fn listed(name: &str, is_dir: bool, size: u64) -> abyss::fs::types::FileEntry {
    abyss::fs::types::FileEntry { name: name.to_string(), size, is_dir, modified: None, permissions: None }
}

#[test]
fn copying_a_listed_directory() {
    let entries = vec![
        listed("..", true, 0),
        listed("a.txt", false, 5),
        listed("sub", true, 0),
        listed("b.bin", false, 7),
    ];
    assert_eq!(count_files(&entries), 2);
    assert_eq!(child_path("/src//", "x"), "/src/x");
    let steps = copy_steps("/src/", "/dst", &entries);
    assert_eq!(steps.len(), 3);
    match &steps[0] {
        CopyStep::File { source, dest, progress } => {
            assert_eq!(source, "/src/a.txt");
            assert_eq!(dest, "/dst/a.txt");
            assert_eq!(progress.total_bytes, 5);
            assert_eq!(progress.files_done, 0);
            assert_eq!(progress.total_files, 2);
        }
        other => panic!("unexpected {:?}", other),
    }
    assert!(matches!(&steps[1], CopyStep::Directory { source, dest } if source == "/src/sub" && dest == "/dst/sub"));
    match &steps[2] {
        CopyStep::File { progress, .. } => {
            assert_eq!(progress.files_done, 1);
            assert_eq!(progress.current_file, "b.bin");
        }
        other => panic!("unexpected {:?}", other),
    }
}

#[test]
fn the_selection_menu() {
    let menu = SelectingBackend;
    let entries = menu.list_dir("/");
    assert_eq!(entries.len(), 4);
    assert_eq!(entries[0].name, "📁 Local Filesystem");
    assert_eq!(entries[3].name, "☁ Cloud Storage (S3, GCS)");
    assert!(entries.iter().all(|e| e.is_dir && e.size == 0));
    assert_eq!(menu.delete("x").unwrap_err(), "Cannot modify selection menu");
    assert_eq!(menu.read_bytes("x").unwrap_err(), "Cannot read from selection menu");
    assert!(menu.is_dir("anything"));
    assert_eq!(menu.display_path("x"), "Select Storage Type");
    assert!(!menu.capabilities().stat);
}

#[test]
fn listings_hide_dot_files_and_put_directories_first() {
    let entries = vec![
        listed("zeta.txt", false, 1),
        listed(".hidden", false, 1),
        listed("Beta", true, 0),
        listed("alpha.txt", false, 1),
        listed("apple", true, 0),
    ];
    let names: Vec<String> = LocalFs::listing(&entries).into_iter().map(|e| e.name).collect();
    assert_eq!(names, vec!["apple", "Beta", "alpha.txt", "zeta.txt"]);
}

#[test]
fn scan_entries_and_counts() {
    let engine = ScanEngine::new().with_fast_mode(true);
    assert!(!engine.parallel);
    assert!(engine.use_ignore);
    assert_eq!(engine.header_text("md5"), "");
    assert_eq!(engine.entry_text("abc", "md5", "d/f.txt", 12), "abc  md5  fast  d/f.txt\n");
    let deep = ScanEngine::with_parallel(true).with_format(DatabaseFormat::Hashdeep).with_ignore(false);
    assert!(deep.parallel && !deep.use_ignore);
    assert!(deep.header_text("sha256").starts_with("%%%% HASHDEEP-1.0\n%%%% size,sha256,filename\n"));
    assert_eq!(deep.entry_text("abc", "sha256", "d/f.txt", 12), "12,abc,d/f.txt\n");
    let mut tally = ScanTally::new();
    tally.record(FileOutcome::Recorded { size: 10 });
    tally.record(FileOutcome::Recorded { size: 5 });
    tally.record(FileOutcome::HashFailed);
    tally.record(FileOutcome::WriteFailed);
    tally.record(FileOutcome::Skipped);
    assert_eq!(tally.progress_message(), "2 OK, 2 failed, 1 skipped");
    let stats = tally.stats(std::time::Duration::from_secs(2));
    assert_eq!(stats.files_processed, 2);
    assert_eq!(stats.files_failed, 3);
    assert_eq!(stats.total_bytes, 15);
}

#[test]
fn typing_then_backspace_restores_the_input() {
    let mut input = TextInput::new("héllo");
    input.move_left();
    input.move_left();
    let before = (input.value.clone(), input.cursor);
    input.insert('x');
    assert_eq!(input.value, "hélxlo");
    input.delete_back();
    assert_eq!((input.value.clone(), input.cursor), before);
    assert_eq!(input.original, "héllo");
}

#[test]
fn editor_cursor_moves_and_scrolls() {
    let mut e = TextEditor::new();
    e.content = vec!["hello".to_string(), "hi".to_string(), "".to_string(), "world!".to_string()];
    e.cursor_col = 4;
    e.move_cursor(Key::Down, 0);
    assert_eq!((e.cursor_row, e.cursor_col), (1, 2));
    e.move_cursor(Key::Right, 0);
    assert_eq!((e.cursor_row, e.cursor_col), (2, 0));
    e.move_cursor(Key::Left, 0);
    assert_eq!((e.cursor_row, e.cursor_col), (1, 2));
    e.move_cursor(Key::End, 0);
    assert_eq!(e.cursor_col, 2);
    e.move_cursor(Key::Home, 0);
    assert_eq!(e.cursor_col, 0);
    e.move_cursor(Key::PageDown, 0);
    assert_eq!(e.cursor_row, 3);
    e.move_cursor(Key::Up, 0);
    assert_eq!((e.cursor_row, e.cursor_col), (2, 0));
    e.move_cursor(Key::PageUp, 1);
    assert_eq!(e.cursor_row, 1);
    e.move_cursor(Key::Char('z'), 0);
    assert_eq!((e.cursor_row, e.cursor_col), (1, 0));
    e.cursor_row = 3;
    e.follow_cursor(2);
    assert_eq!(e.scroll_offset, 2);
    e.cursor_row = 0;
    e.follow_cursor(2);
    assert_eq!(e.scroll_offset, 0);
}

#[test]
fn enter_then_backspace_restores_the_line() {
    let mut e = TextEditor::new();
    e.content = vec!["first".to_string(), "héllo".to_string()];
    e.cursor_row = 1;
    e.cursor_col = 3;
    e.insert_newline();
    assert_eq!(e.content, vec!["first".to_string(), "hé".to_string(), "llo".to_string()]);
    assert_eq!((e.cursor_row, e.cursor_col), (2, 0));
    e.delete_back();
    assert_eq!(e.content, vec!["first".to_string(), "héllo".to_string()]);
    assert_eq!((e.cursor_row, e.cursor_col), (1, 3));
}

#[test]
fn searching_the_editor_text() {
    let mut e = TextEditor::new();
    e.content = vec![
        "Alpha beta".to_string(),
        "gamma BETA".to_string(),
        "delta".to_string(),
    ];
    assert_eq!(e.search("", 0), None);
    assert_eq!(e.search("Beta", 0), Some(true));
    assert_eq!((e.cursor_row, e.cursor_col), (0, 6));
    e.cursor_col = 7;
    assert_eq!(e.search("beta", 0), Some(true));
    assert_eq!((e.cursor_row, e.cursor_col), (1, 6));
    e.cursor_row = 2;
    e.cursor_col = 0;
    assert_eq!(e.search("alpha", 0), Some(true));
    assert_eq!((e.cursor_row, e.cursor_col), (0, 0));
    let before = (e.cursor_row, e.cursor_col, e.scroll_offset);
    assert_eq!(e.search("zeta", 0), Some(false));
    assert_eq!((e.cursor_row, e.cursor_col, e.scroll_offset), before);
    let mut long = TextEditor::new();
    long.content = (0..30).map(|i| format!("line {}", i)).collect();
    assert_eq!(long.search("line 25", 10), Some(true));
    assert_eq!((long.cursor_row, long.scroll_offset), (25, 20));
    long.scroll_offset = 10;
    assert_eq!(long.search("line 3", 10), Some(true));
    assert_eq!((long.cursor_row, long.scroll_offset), (3, 3));
}

#[test]
fn the_input_cursor_moves_by_bytes() {
    let mut input = TextInput::new("ab");
    input.move_left();
    input.insert('é');
    assert_eq!(input.value, "aéb");
    assert_eq!(input.cursor, 3);
    input.insert('x');
    assert_eq!(input.value, "aéxb");
    assert_eq!(input.cursor, 4);
    input.delete_back();
    assert_eq!(input.value, "aéb");
    assert_eq!(input.cursor, 3);
    input.move_left();
    assert_eq!(input.cursor, 2);
    input.move_left();
    assert_eq!(input.cursor, 1);
    input.move_right();
    input.move_right();
    input.move_right();
    assert_eq!(input.cursor, 4);
    input.move_right();
    assert_eq!(input.cursor, 4);
    let mut single = TextInput::new("é");
    single.cursor = 0;
    single.move_right();
    assert_eq!(single.cursor, 1);
}

#[test]
fn typing_then_deleting_back_in_the_editor_restores_the_line() {
    let mut e = TextEditor::new();
    e.content = vec!["añb".to_string()];
    e.cursor_col = 3;
    e.insert_char('€');
    assert_eq!(e.content[0], "añ€b");
    assert_eq!(e.cursor_col, 4);
    e.delete_back();
    assert_eq!(e.content[0], "añb");
    assert_eq!(e.cursor_col, 3);
    e.cursor_col = 9;
    e.insert_char('z');
    e.delete_back();
    assert_eq!(e.content[0], "añb");
    assert_eq!(e.cursor_col, 4);
}

#[test]
fn normalizing_twice_changes_nothing() {
    for p in ["/a/./b/../c", "a/b/..", "..", "a/./b/../../..", "./x//y/", "/../a"] {
        let once = LocalFs::normalize_path(p);
        assert!(!once.split('/').any(|c| c == "." || c == ".."));
        assert_eq!(LocalFs::normalize_path(&once), once);
    }
    assert_eq!(LocalFs::normalize_path("a/./b/../../.."), "/");
    assert_eq!(LocalFs::normalize_path("/../a"), "/a");
}
