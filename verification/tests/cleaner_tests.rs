use abyss::cleaner::{analyzer_start, rescan_root, cleaner_command, CleanerCommand, CleanerEntry, CleanerMove, CleanerSortMode, CleanerView};
use abyss::events::Key;

fn dir(name: &str, path: &str, size: u64) -> CleanerEntry {
    CleanerEntry { name: name.to_string(), path: path.to_string(), size, is_dir: true }
}

fn file(name: &str, path: &str, size: u64) -> CleanerEntry {
    CleanerEntry { name: name.to_string(), path: path.to_string(), size, is_dir: false }
}

#[test]
fn browsing_down_and_back_up() {
    let mut view = CleanerView::new("/home".to_string());
    assert_eq!(view.sort_mode, CleanerSortMode::Size);
    view.load_entries(
        vec![dir("node_modules", "/home/node_modules", 500), file("a.log", "/home/a.log", 20), dir("target", "/home/target", 300)],
        None,
    );
    assert_eq!(view.total_size, 820);
    assert_eq!(view.selected, 0);
    view.move_down();
    view.move_down();
    view.move_down();
    assert_eq!(view.selected, 2);
    view.move_up();
    assert_eq!(view.selected, 1);
    assert!(matches!(view.enter(), CleanerMove::Stay));
    view.go_top();
    match view.enter() {
        CleanerMove::Entered(p) => assert_eq!(p, "/home/node_modules"),
        other => panic!("unexpected {:?}", other),
    }
    assert_eq!(view.current_path, "/home/node_modules");
    assert_eq!(view.path_stack, vec!["/home".to_string()]);
    assert_eq!(view.last_entered_folder.as_deref(), Some("node_modules"));
    view.load_entries(vec![dir("..", "/home", 0), file("x.js", "/home/node_modules/x.js", 5)], None);
    assert!(matches!(view.enter(), CleanerMove::Back));
    let select = view.go_back().unwrap();
    assert_eq!(select.as_deref(), Some("node_modules"));
    assert_eq!(view.current_path, "/home");
    assert!(view.path_stack.is_empty());
    view.load_entries(
        vec![file("a.log", "/home/a.log", 20), dir("node_modules", "/home/node_modules", 500)],
        select.as_deref(),
    );
    assert_eq!(view.selected, 1);
    assert_eq!(view.selected_entry().unwrap().name, "node_modules");
    assert_eq!(view.go_back(), None);
}

#[test]
fn confirmations_and_sorting() {
    let mut view = CleanerView::new("/p".to_string());
    view.load_entries(vec![dir("..", "/", 0), dir("build", "/p/build", 9)], Some("missing"));
    assert_eq!(view.selected, 0);
    view.toggle_delete_confirm();
    assert!(!view.confirm_delete);
    view.go_bottom();
    assert_eq!(view.selected, 1);
    view.toggle_clean_confirm();
    assert!(view.confirm_clean);
    view.toggle_delete_confirm();
    assert!(view.confirm_delete);
    assert!(!view.confirm_clean);
    view.toggle_clean_confirm();
    assert!(!view.confirm_delete);
    view.toggle_sort();
    assert_eq!(view.sort_mode, CleanerSortMode::Name);
    view.toggle_sort();
    assert_eq!(view.sort_mode, CleanerSortMode::Size);
    let mut empty = CleanerView::new("/e".to_string());
    empty.go_bottom();
    assert_eq!(empty.selected, 0);
    assert!(empty.selected_entry().is_none());
}

#[test]
fn cleaner_keys() {
    assert_eq!(cleaner_command(Key::Esc, false, false), CleanerCommand::Quit);
    assert_eq!(cleaner_command(Key::Char('l'), false, false), CleanerCommand::Enter);
    assert_eq!(cleaner_command(Key::Left, false, false), CleanerCommand::Back);
    assert_eq!(cleaner_command(Key::Char('y'), false, false), CleanerCommand::Ignore);
    assert_eq!(cleaner_command(Key::Char('y'), true, true), CleanerCommand::DeleteSelected);
    assert_eq!(cleaner_command(Key::Char('y'), false, true), CleanerCommand::CleanCurrent);
    assert_eq!(cleaner_command(Key::Char('n'), false, true), CleanerCommand::CancelClean);
    assert_eq!(cleaner_command(Key::Char('n'), true, false), CleanerCommand::CancelDelete);
    assert_eq!(cleaner_command(Key::Char('G'), false, false), CleanerCommand::Bottom);
    assert_eq!(cleaner_command(Key::Char('g'), false, false), CleanerCommand::Top);
    assert_eq!(cleaner_command(Key::Char('s'), false, false), CleanerCommand::ToggleSort);
    assert_eq!(cleaner_command(Key::Tab, false, false), CleanerCommand::Ignore);
}

#[test]
fn opening_and_rescanning_the_analyzer() {
    assert_eq!(
        analyzer_start(false, true, "/x").unwrap_err(),
        "Disk analyzer only available for local filesystem"
    );
    assert_eq!(analyzer_start(true, false, "/x").unwrap_err(), "Invalid directory for analysis");
    assert_eq!(analyzer_start(true, true, "/x").unwrap(), "Scanning /x...");
    let mut v = CleanerView::new("/root".to_string());
    assert_eq!(rescan_root(&v), "/root");
    v.path_stack = vec!["/root".to_string(), "/root/a".to_string()];
    v.current_path = "/root/a/b".to_string();
    assert_eq!(rescan_root(&v), "/root");
}
