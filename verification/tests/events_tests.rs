use abyss::app::ProgressStage;
use abyss::events::{
    algorithms_message, dedup_status, hash_database, hash_menu_choice, hash_menu_dir,
    hash_menu_start, scan_done_message, verify_status, HashMenuChoice, HashTask,
    hash_menu, normal_action, quit_key, NormalAction,
    move_request, new_folder_message, new_folder_path,
    large_load_answer, opened_editor, opened_file_name, read_failed_message, LargeLoadAnswer,
    editing_message, editor_search_message,
    dry_run_failed_message, dry_run_request, sync_failed_message, sync_now_request,
    copy_request, count_actions, editor_command, editor_message, editor_save_message,
    editor_save_request, EditorCommand, delete_answer, delete_done_message, delete_request, dry_run_message, editor_lines,
    navigate_into, navigate_up, open_selected, pane_entries, rename_request, rename_start,
    search_entries, stream_message, sync_complete_message, sync_progress_view, sync_toggle,
    task_message, viewer_key, CopyDecision, DeleteAnswer, Key, Navigation, OpenDecision,
    RenameDecision, ViewerAction, ViewerState, VIEW_CHUNK,
};
use abyss::sync::engine::{SyncAction, SyncMode, SyncPhase, SyncProgress, SyncStats};
use abyss::fs::types::FileEntry;
use abyss::fs::backend::BackendType;

fn entry(name: &str, is_dir: bool, size: u64) -> FileEntry {
    FileEntry { name: name.to_string(), size, is_dir, modified: None, permissions: None }
}

#[test]
fn viewer_scrolls_and_pages_through_chunks() {
    let s = ViewerState { scroll: 0, lines: 100, file_offset: 0, file_size: 200_000 };
    assert_eq!(viewer_key(s, Key::Down), (ViewerState { scroll: 1, ..s }, ViewerAction::Stay));
    assert_eq!(viewer_key(s, Key::Up), (s, ViewerAction::Stay));
    let bottom = ViewerState { scroll: 80, ..s };
    assert_eq!(viewer_key(bottom, Key::Char('j')), (bottom, ViewerAction::LoadChunk(VIEW_CHUNK)));
    let later = ViewerState { scroll: 0, lines: 100, file_offset: VIEW_CHUNK, file_size: 200_000 };
    assert_eq!(viewer_key(later, Key::Char('k')), (later, ViewerAction::LoadChunk(0)));
    assert_eq!(viewer_key(later, Key::Home), (later, ViewerAction::LoadChunk(0)));
    let mid = ViewerState { scroll: 70, ..s };
    assert_eq!(viewer_key(mid, Key::PageDown), (ViewerState { scroll: 80, ..s }, ViewerAction::Stay));
    assert_eq!(viewer_key(mid, Key::PageUp), (ViewerState { scroll: 50, ..s }, ViewerAction::Stay));
    assert_eq!(viewer_key(s, Key::End), (ViewerState { scroll: 80, ..s }, ViewerAction::Stay));
    assert_eq!(viewer_key(s, Key::Char('q')).1, ViewerAction::Close);
    let whole = ViewerState { scroll: 0, lines: 5, file_offset: 0, file_size: 0 };
    assert_eq!(viewer_key(whole, Key::Down), (whole, ViewerAction::Stay));
    assert_eq!(viewer_key(whole, Key::Other), (whole, ViewerAction::Stay));
}

#[test]
fn panes_get_a_parent_link_below_the_root() {
    let listed = vec![entry("a", false, 1)];
    assert_eq!(pane_entries("/", listed.clone()).len(), 1);
    assert_eq!(pane_entries("", listed.clone()).len(), 1);
    let below = pane_entries("/home", listed);
    assert_eq!(below.len(), 2);
    assert_eq!(below[0].name, "..");
    assert!(below[0].is_dir);
    assert_eq!(below[1].name, "a");
}

#[test]
fn entering_and_leaving_directories() {
    assert!(matches!(navigate_into("/home", None), Navigation::NothingSelected));
    match navigate_into("/home", Some(&entry("notes.txt", false, 3))) {
        Navigation::NotADirectory(m) => assert_eq!(m, "'notes.txt' is not a directory"),
        other => panic!("unexpected {:?}", other),
    }
    assert!(matches!(navigate_into("/home", Some(&entry("..", true, 0))), Navigation::Up));
    match navigate_into("/home", Some(&entry("docs", true, 0))) {
        Navigation::Into(p) => assert_eq!(p, "/home/docs"),
        other => panic!("unexpected {:?}", other),
    }
    match navigate_into("/", Some(&entry("etc", true, 0))) {
        Navigation::Into(p) => assert_eq!(p, "/etc"),
        other => panic!("unexpected {:?}", other),
    }
    assert_eq!(navigate_up("/"), None);
    assert_eq!(navigate_up(""), None);
    assert_eq!(navigate_up("/home/docs"), Some("/home".to_string()));
    assert_eq!(navigate_up("/home"), Some("/".to_string()));
    assert_eq!(navigate_up("a"), Some("/".to_string()));
}

#[test]
fn searching_a_listing() {
    let entries = vec![entry("README.md", false, 1), entry("src", true, 0), entry("Readme.old", false, 1)];
    let (i, m) = search_entries(&entries, "ReadMe");
    assert_eq!(i, Some(0));
    assert_eq!(m, "Found: README.md");
    let (i, m) = search_entries(&entries, "SR");
    assert_eq!(i, Some(1));
    assert_eq!(m, "Found: src");
    let (i, m) = search_entries(&entries, "XYZ");
    assert_eq!(i, None);
    assert_eq!(m, "No match for 'xyz'");
    let (i, m) = search_entries(&entries, "");
    assert_eq!(i, None);
    assert_eq!(m, "Empty search pattern");
}

#[test]
fn opening_files_to_view_or_edit() {
    match open_selected("/d", None, false, false) {
        OpenDecision::Refuse(m) => assert_eq!(m, "No file selected"),
        other => panic!("unexpected {:?}", other),
    }
    match open_selected("/d", Some(&entry("..", true, 0)), false, true) {
        OpenDecision::Refuse(m) => assert_eq!(m, "Cannot edit '..'"),
        other => panic!("unexpected {:?}", other),
    }
    match open_selected("/d", Some(&entry("sub", true, 0)), false, false) {
        OpenDecision::Refuse(m) => assert_eq!(m, "Cannot view directory"),
        other => panic!("unexpected {:?}", other),
    }
    match open_selected("/d/", Some(&entry("big.iso", false, 50 * 1024 * 1024)), true, false) {
        OpenDecision::Confirm { path, size, message } => {
            assert_eq!(path, "/d/big.iso");
            assert_eq!(size, 50 * 1024 * 1024);
            assert_eq!(message, "Remote file is large (50 MB). View? (y/n)");
        }
        other => panic!("unexpected {:?}", other),
    }
    match open_selected("/d", Some(&entry("big.iso", false, 50 * 1024 * 1024)), false, true) {
        OpenDecision::Read(p) => assert_eq!(p, "/d/big.iso"),
        other => panic!("unexpected {:?}", other),
    }
}

#[test]
fn editor_content_and_messages() {
    assert_eq!(editor_lines(""), vec![String::new()]);
    assert_eq!(editor_lines("a\r\nb\n"), vec!["a".to_string(), "b".to_string()]);
    assert_eq!(stream_message(65_536, 262_144, "/f"), "Viewing (Stream 25%): /f - q/Esc to close");
    assert_eq!(stream_message(0, 0, "/f"), "Viewing (Stream 0%): /f - q/Esc to close");
    assert_eq!(task_message(Ok("Copied".to_string()), true), ("Copied".to_string(), true));
    assert_eq!(task_message(Err("boom".to_string()), true), ("✗ Error: boom".to_string(), false));
    assert_eq!(task_message(Err("panic".to_string()), false), ("✗ Task failed: panic".to_string(), false));
}

#[test]
fn renaming_entries() {
    assert_eq!(rename_start(None), Err("No file selected".to_string()));
    assert_eq!(rename_start(Some(&entry("..", true, 0))), Err("Cannot rename '..'".to_string()));
    assert_eq!(rename_start(Some(&entry("a.txt", false, 1))), Ok("a.txt".to_string()));
    assert!(matches!(rename_request("/d", "   ", "a.txt"), RenameDecision::Empty(m) if m == "Name cannot be empty"));
    assert!(matches!(rename_request("/d", " a.txt ", "a.txt"), RenameDecision::Unchanged(m) if m == "Name unchanged"));
    match rename_request("/d", " b.txt", "a.txt") {
        RenameDecision::Rename { old_path, new_path, message } => {
            assert_eq!(old_path, "/d/a.txt");
            assert_eq!(new_path, "/d/b.txt");
            assert_eq!(message, "Renamed 'a.txt' to 'b.txt'");
        }
        other => panic!("unexpected {:?}", other),
    }
}

#[test]
fn copying_and_deleting_the_selection() {
    assert!(matches!(copy_request(true, "/a", "/b", None), CopyDecision::Refuse(m) if m == "Copy already in progress..."));
    assert!(matches!(copy_request(false, "/a", "/b", None), CopyDecision::Refuse(m) if m == "No entry selected"));
    match copy_request(false, "/a", "/b/", Some(&entry("f.bin", false, 10))) {
        CopyDecision::Start { source, dest, message, done, progress } => {
            assert_eq!(source, "/a/f.bin");
            assert_eq!(dest, "/b/f.bin");
            assert_eq!(message, "Copying f.bin...");
            assert_eq!(done, "✓ Copied f.bin successfully");
            assert_eq!(progress.stage, ProgressStage::Transferring);
            assert_eq!(progress.total, 10);
            assert_eq!(progress.total_files, 1);
        }
        other => panic!("unexpected {:?}", other),
    }
    assert_eq!(delete_answer(Key::Char('Y')), DeleteAnswer::Confirm);
    assert_eq!(delete_answer(Key::Esc), DeleteAnswer::Cancel);
    assert_eq!(delete_answer(Key::Char('x')), DeleteAnswer::Ask);
    assert!(delete_request("/a", BackendType::Local, None).is_none());
    let (target, question) = delete_request("/a", BackendType::Local, Some(&entry("d", true, 0))).unwrap();
    assert_eq!(target.path, "/a/d");
    assert_eq!(target.display_path, "/a/d");
    assert!(target.is_dir);
    assert!(matches!(target.backend, BackendType::Local));
    assert_eq!(question, "Press Y to confirm delete, N or Esc to cancel");
    let (target, _) = delete_request("/", BackendType::Gcs { bucket: "b".to_string() }, Some(&entry("f", false, 3))).unwrap();
    assert_eq!(target.path, "/f");
    assert!(!target.is_dir);
    assert_eq!(delete_done_message("/a/d", Ok(())), ("✓ Deleted /a/d".to_string(), true));
    assert_eq!(
        delete_done_message("/a/d", Err("denied".to_string())),
        ("✗ Error deleting: denied".to_string(), false)
    );
}

#[test]
fn sync_messages() {
    let actions = vec![
        SyncAction::CopyToDestination { path: "a".to_string() },
        SyncAction::CopyToSource { path: "b".to_string() },
        SyncAction::CreateDirInDestination { path: "d".to_string() },
        SyncAction::Skip { path: "s".to_string(), reason: "Already up to date".to_string() },
        SyncAction::Conflict { path: "c".to_string() },
    ];
    let counts = count_actions(&actions);
    assert_eq!((counts.copies, counts.creates, counts.deletes, counts.skips, counts.conflicts), (2, 1, 0, 1, 1));
    assert_eq!(
        dry_run_message(counts),
        "Dry-run: 2 to copy, 1 to create, 0 to delete, 1 skip, 1 conflicts | Ctrl+Y to apply"
    );
    let p = SyncProgress {
        phase: SyncPhase::Comparing,
        current_file: "x".to_string(),
        files_done: 3,
        total_files: 7,
        bytes_done: 0,
        total_bytes: 0,
    };
    let (bar, message) = sync_progress_view(&p);
    assert_eq!(bar.stage, ProgressStage::Counting);
    assert_eq!(bar.current, 3);
    assert_eq!(bar.total, 7);
    assert_eq!(message, "🔄 Syncing: 3/7 files");
    let mut stats = SyncStats::default();
    stats.files_copied = 4;
    stats.dirs_created = 1;
    stats.files_skipped = 2;
    stats.conflicts = 1;
    assert_eq!(
        sync_complete_message(&stats, true),
        (5, "✅ Sync complete: 4 copied, 1 created, 2 skipped, 1 conflicts".to_string())
    );
    assert_eq!(sync_complete_message(&stats, false).1, "✅ Sync complete: 4 copied, 1 created, 2 skipped");
    assert_eq!(sync_toggle(false).0, true);
    assert_eq!(sync_toggle(true), (false, "Sync disabled".to_string()));
}

#[test]
fn editor_keys_and_messages() {
    assert_eq!(editor_command(Key::Esc, false, false, true), EditorCommand::Close { discarded: true });
    assert_eq!(editor_command(Key::Char('q'), false, false, false), EditorCommand::Type('q'));
    assert_eq!(editor_command(Key::Char('q'), false, true, false), EditorCommand::Close { discarded: false });
    assert_eq!(editor_command(Key::Char('q'), true, false, true), EditorCommand::Close { discarded: true });
    assert_eq!(editor_command(Key::Char('x'), true, false, false), EditorCommand::Close { discarded: false });
    assert_eq!(editor_command(Key::Char('s'), true, false, false), EditorCommand::Save);
    assert_eq!(editor_command(Key::Char('o'), true, true, false), EditorCommand::SaveRefused);
    assert_eq!(editor_command(Key::Char('k'), true, false, false), EditorCommand::Cut);
    assert_eq!(editor_command(Key::Char('k'), true, true, false), EditorCommand::Ignore);
    assert_eq!(editor_command(Key::Char('u'), true, false, false), EditorCommand::Paste);
    assert_eq!(editor_command(Key::Char('w'), true, true, false), EditorCommand::StartSearch);
    assert_eq!(editor_command(Key::Char('a'), true, false, false), EditorCommand::Type('a'));
    assert_eq!(editor_command(Key::PageDown, false, true, false), EditorCommand::Move);
    assert_eq!(editor_command(Key::Backspace, false, false, false), EditorCommand::DeleteBack);
    assert_eq!(editor_command(Key::Enter, false, true, false), EditorCommand::Ignore);
    assert_eq!(editor_command(Key::Other, false, false, false), EditorCommand::Ignore);
    assert_eq!(editor_message(EditorCommand::Close { discarded: true }), Some("Changes discarded".to_string()));
    assert_eq!(editor_message(EditorCommand::Close { discarded: false }), None);
    assert_eq!(editor_message(EditorCommand::SaveRefused), Some("Cannot save: file is readonly".to_string()));
    assert_eq!(editor_message(EditorCommand::StartSearch), Some("Search (Where Is): ".to_string()));
    let lines = vec!["one".to_string(), "".to_string(), "three".to_string()];
    assert_eq!(
        editor_save_request("/docs", "a.txt", &lines),
        ("/docs/a.txt".to_string(), "one\n\nthree".to_string())
    );
    assert_eq!(editor_save_request("/", "b", &[]), ("/b".to_string(), String::new()));
    assert_eq!(editor_save_message("a.txt", Ok(())), ("Saved 'a.txt'".to_string(), true));
    assert_eq!(editor_save_message("a.txt", Err("disk full".to_string())), ("Save failed: disk full".to_string(), false));
}

#[test]
fn hash_menu_choices_and_messages() {
    assert_eq!(hash_menu_choice("🔍 Scan directory"), HashMenuChoice::Scan);
    assert_eq!(hash_menu_choice("✓ Verify against database"), HashMenuChoice::Verify);
    assert_eq!(hash_menu_choice("Dedup"), HashMenuChoice::Dedup);
    assert_eq!(hash_menu_choice("Benchmark"), HashMenuChoice::Benchmark);
    assert_eq!(hash_menu_choice("Compare databases"), HashMenuChoice::Compare);
    assert_eq!(hash_menu_choice("List Algorithms"), HashMenuChoice::ListAlgorithms);
    assert_eq!(hash_menu_choice("Quit"), HashMenuChoice::Nothing);
    assert_eq!(hash_menu_dir("/", "/home/u"), "/home/u");
    assert_eq!(hash_menu_dir("", "/home/u"), "/home/u");
    assert_eq!(hash_menu_dir("/data", "/home/u"), "/data");
    assert_eq!(hash_database("/data"), "/data/hashes.txt");
    assert_eq!(
        hash_menu_start(HashMenuChoice::Scan, "/data", false),
        (
            Some("Scanning /data...".to_string()),
            Some(HashTask::Scan { dir: "/data".to_string(), output: "/data/hashes.txt".to_string() })
        )
    );
    assert_eq!(
        hash_menu_start(HashMenuChoice::Verify, "/data", false),
        (Some("No database found at /data/hashes.txt. Run Scan first.".to_string()), None)
    );
    assert_eq!(
        hash_menu_start(HashMenuChoice::Verify, "/data", true).1,
        Some(HashTask::Verify { dir: "/data".to_string(), database: "/data/hashes.txt".to_string() })
    );
    assert_eq!(hash_menu_start(HashMenuChoice::Benchmark, "/data", true).1, Some(HashTask::Benchmark));
    assert_eq!(hash_menu_start(HashMenuChoice::Nothing, "/data", true), (None, None));
    let listed = hash_menu_start(HashMenuChoice::ListAlgorithms, "/data", true).0.unwrap();
    assert!(listed.starts_with("Algorithms: MD5 (128b), SHA1 (160b), SHA-224 (224b)"));
    assert!(listed.ends_with("XXH3 (64b), XXH128 (128b)"));
    assert_eq!(algorithms_message(&[]), "Algorithms: ");
    assert_eq!(scan_done_message(3, "/d/hashes.txt"), "✓ Scanned 3 files → /d/hashes.txt");
    assert_eq!(verify_status(5, 0, 0, 2), "✓ All 5 files OK");
    assert_eq!(verify_status(5, 1, 2, 3), "⚠ 5 OK, 1 changed, 2 missing, 3 new");
    assert_eq!(dedup_status(0, 0), "✓ No duplicates found");
    assert_eq!(dedup_status(2, 4096), "Found 2 duplicate groups (4096 bytes wasted)");
}

#[test]
fn browsing_keys() {
    assert!(quit_key(Key::Char('q'), false));
    assert!(quit_key(Key::Char('c'), true));
    assert!(!quit_key(Key::Char('c'), false));
    assert!(!quit_key(Key::Esc, true));
    assert_eq!(normal_action(Key::Tab, false), NormalAction::SwitchPane);
    assert_eq!(normal_action(Key::F(5), false), NormalAction::Copy);
    assert_eq!(normal_action(Key::F(9), true), NormalAction::DiskAnalyzer);
    assert_eq!(normal_action(Key::F(1), false), NormalAction::Ignore);
    assert_eq!(normal_action(Key::Char('h'), true), NormalAction::HashMenu);
    assert_eq!(normal_action(Key::Char('h'), false), NormalAction::Ignore);
    assert_eq!(normal_action(Key::Char('n'), true), NormalAction::ChooseStorage);
    assert_eq!(normal_action(Key::Backspace, false), NormalAction::GoUp);
    let (menu, prompt) = hash_menu();
    assert_eq!(menu.len(), 6);
    assert_eq!(hash_menu_choice(&menu[0].name), HashMenuChoice::Scan);
    assert_eq!(hash_menu_choice(&menu[3].name), HashMenuChoice::Compare);
    assert_eq!(hash_menu_choice(&menu[5].name), HashMenuChoice::ListAlgorithms);
    assert_eq!(prompt, "Hash Menu: ↑/↓ navigate, Enter select, Esc cancel");
}

#[test]
fn moving_and_new_folders() {
    match move_request(false, "/a/", "/b", Some(&entry("f.txt", false, 9))) {
        CopyDecision::Start { source, dest, message, done, progress } => {
            assert_eq!(source, "/a/f.txt");
            assert_eq!(dest, "/b/f.txt");
            assert_eq!(message, "🔄 Moving f.txt...");
            assert_eq!(done, "✓ Moved f.txt successfully");
            assert_eq!(progress.total, 9);
            assert_eq!(progress.total_files, 1);
        }
        other => panic!("unexpected {:?}", other),
    }
    assert!(matches!(
        move_request(true, "/a", "/b", Some(&entry("f", false, 1))),
        CopyDecision::Refuse(m) if m == "Operation already in progress..."
    ));
    assert!(matches!(
        move_request(false, "/a", "/b", Some(&entry("..", true, 0))),
        CopyDecision::Refuse(m) if m == "Cannot move '..'"
    ));
    assert!(matches!(move_request(false, "/a", "/b", None), CopyDecision::Refuse(m) if m == "No entry selected"));
    assert_eq!(new_folder_path("/a"), "/a/NewFolder");
    assert_eq!(new_folder_path(""), "NewFolder");
    assert_eq!(new_folder_message(Ok(())), ("✓ Created directory: NewFolder".to_string(), true));
    assert_eq!(
        new_folder_message(Err("exists".to_string())),
        ("❌ Failed to create directory: exists".to_string(), false)
    );
}

#[test]
fn opening_files_in_the_editor() {
    let (editor, message) = opened_editor("a\nb\r\n", "notes.txt", true);
    assert_eq!(editor.content, vec!["a".to_string(), "b".to_string()]);
    assert_eq!((editor.cursor_row, editor.cursor_col, editor.scroll_offset), (0, 0, 0));
    assert_eq!(editor.filename, "notes.txt");
    assert!(!editor.modified);
    assert_eq!(message, "Viewing: notes.txt (readonly) - q/Esc to close");
    let (editor, message) = opened_editor("", "empty", false);
    assert_eq!(editor.content, vec![String::new()]);
    assert_eq!(message, "Editing: empty - ^O: WriteOut, ^X: Exit, ^K: Cut, ^U: Uncut");
    assert_eq!(read_failed_message("gone"), "Failed to read file: gone");
    assert_eq!(opened_file_name("bucket/dir/big.log"), "big.log");
    assert_eq!(opened_file_name("plain"), "plain");
    assert_eq!(opened_file_name("dir/"), "");
    assert_eq!(large_load_answer(Key::Enter), LargeLoadAnswer::Load);
    assert_eq!(large_load_answer(Key::Char('n')), LargeLoadAnswer::Cancel);
    assert_eq!(large_load_answer(Key::Char('x')), LargeLoadAnswer::Wait);
}

#[test]
fn editor_search_messages() {
    assert_eq!(editor_search_message("Beta", true), "Found 'Beta'");
    assert_eq!(editor_search_message("zeta", false), "Not found 'zeta'");
    assert_eq!(editing_message("a.txt"), "Editing: a.txt - ^O: WriteOut, ^X: Exit, ^K: Cut, ^U: Uncut");
}

#[test]
fn starting_syncs() {
    assert_eq!(sync_now_request(false, false).unwrap_err(), "Sync not enabled - Press Ctrl+S to enable");
    assert_eq!(sync_now_request(true, true).unwrap_err(), "⚠️ Sync already in progress");
    let (message, config) = sync_now_request(true, false).unwrap();
    assert_eq!(message, "🔄 Starting sync (background)...");
    assert_eq!(config.mode, SyncMode::OneWay);
    assert!(!config.dry_run && !config.delete_extra);
    let (message, config) = dry_run_request();
    assert_eq!(message, "🔍 Analyzing changes (dry-run)...");
    assert!(config.dry_run);
    assert_eq!(config.mode, SyncMode::OneWay);
    assert_eq!(sync_failed_message("boom", false), "❌ Sync failed: boom");
    assert_eq!(sync_failed_message("panicked", true), "❌ Sync task failed: panicked");
    assert_eq!(dry_run_failed_message("no access"), "Dry-run failed: no access");
}
