use abyss::ui::helpers::{
    compact_duration, display_width, fit, fit_filename, format_age, pad_left, pad_right,
    truncate_middle,
};
use abyss::ui::panes::{columns, source_columns};
use abyss::ui::status::{notice_line, status_details};
use abyss::ui::jobs::{
    background_job_state, compact_job_state, compact_operation_kind, job_eta, phase_name,
    JobOutcome, JobState, OperationKind, OperationPhase, SpeedSnapshot, WaitReason,
};
use abyss::ui::buttons::{button_disabled, button_label, ActionButton};
use abyss::ui::components::truncate_path;
use abyss::ui::console::title_text;
use abyss::ui::panes::{is_executable, pane_title, tab_label, tab_switch_cells};
use abyss::ui::layout::Rect;

#[test]
fn filename_truncation_keeps_the_extension_visible() {
    let value = fit_filename("very-long-episode-name-s01e02.mkv", 16);
    assert_eq!(display_width(&value), 16);
    assert!(value.starts_with("very-lo"));
    assert!(value.ends_with("e02.mkv"));
}

#[test]
fn list_columns_align_for_combining_and_wide_names() {
    for name in [
        "Ты — мой триумф [Flarrow Films]",
        "日本語のフォルダ",
        "family-👨‍👩‍👧‍👦-archive",
    ] {
        let row = columns(name, "1.0KiB", "2h", 40, false);
        assert_eq!(display_width(&row), 40);
        let size = row.find("1.0KiB").unwrap();
        let age = row.rfind("2h").unwrap();
        assert_eq!(display_width(&row[..size]), 26);
        assert_eq!(display_width(&row[..age]), 38);
    }
}

#[test]
fn ordinary_fit_still_truncates_folders_at_the_end() {
    assert_eq!(fit("very-long-folder", 9), "very-lon…");
}

#[test]
fn ready_status_is_not_rendered_beside_the_current_name() {
    assert_eq!(status_details(0, None), "");
    assert_eq!(status_details(3, None), "  [3 marked]");
    assert_eq!(
        status_details(0, Some("Source unavailable")),
        " — Source unavailable"
    );
}

#[test]
fn notices_use_the_full_width_and_middle_truncate_unicode() {
    let short = notice_line("Created café", 30);
    assert_eq!(display_width(&short), 30);
    assert!(short.starts_with(" Created café"));

    let long = notice_line(
        "Copy /資料/とても長い入力パス completed with important-tail.zip",
        32,
    );
    assert_eq!(display_width(&long), 32);
    assert!(long.starts_with(" Copy"));
    assert!(long.contains('…'));
    assert!(long.trim_end().ends_with("important-tail.zip"));
}

#[test]
fn fitting_edge_cases() {
    assert_eq!(fit("abc", 0), "");
    assert_eq!(fit("abc", 1), "…");
    assert_eq!(fit("abc", 3), "abc");
    assert_eq!(fit("日本語", 4), "日…");
    assert_eq!(truncate_middle("abcdefghij", 7), "abc…hij");
    assert_eq!(truncate_middle("abcdefghij", 4), "abc…");
    assert_eq!(pad_right("ab", 4), "ab  ");
    assert_eq!(pad_left("ab", 4), "  ab");
    assert_eq!(pad_right("abcdef", 4), "abc…");
    assert_eq!(pad_left("abcdef", 5), "abcd…");
    assert_eq!(display_width("日本"), 4);
}

#[test]
fn narrow_rows_only_show_the_name() {
    assert_eq!(columns("a-very-long-name.txt", "1B", "1s", 10, false), "a-very-lo…");
    assert_eq!(columns("a-very-long-name.txt", "1B", "1s", 10, true), "a-ve…e.txt");
    let row = source_columns("S3", "bucket", "eu-west-1", "Ready", 60);
    assert_eq!(display_width(&row), 59);
    assert!(row.starts_with("S3              bucket"));
    let row = source_columns("S3", "bucket", "eu-west-1", "Ready", 80);
    assert_eq!(display_width(&row), 80);
    assert!(row.contains(" eu-west-1 "));
    assert_eq!(source_columns("S3", "b", "d", "Ready", 20), "S3  b  Ready");
}

#[test]
fn durations_and_ages() {
    assert_eq!(compact_duration(59), "59s");
    assert_eq!(compact_duration(90), "1m30s");
    assert_eq!(compact_duration(5_431), "1h30m");
    assert_eq!(compact_duration(400_000), "4d15h");
    assert_eq!(format_age(0), "0s");
    assert_eq!(format_age(125), "2m");
    assert_eq!(format_age(7_200), "2h");
    assert_eq!(format_age(3 * 86_400), "3d");
    assert_eq!(format_age(2 * 31_536_000), "2y");
}

#[test]
fn job_labels_and_states() {
    assert_eq!(compact_operation_kind(OperationKind::Archive), "Archive");
    assert_eq!(phase_name(OperationPhase::Compressing), "Compress");
    assert_eq!(phase_name(OperationPhase::VerifyingHashes), "Verifying");
    assert_eq!(background_job_state(&JobState::Running, OperationPhase::Finalizing), "Finalize");
    assert_eq!(background_job_state(&JobState::Queued(WaitReason::Overlap), OperationPhase::Copying), "Queued");
    assert_eq!(
        background_job_state(&JobState::Finished(JobOutcome::Failed("x".to_string())), OperationPhase::Copying),
        "Failed"
    );
    assert_eq!(compact_job_state(&JobState::Queued(WaitReason::Capacity), OperationPhase::Copying), "Queued: waiting for slot");
    assert_eq!(compact_job_state(&JobState::Running, OperationPhase::WritingHashes), "Writing hashes");
    assert_eq!(
        compact_job_state(&JobState::Finished(JobOutcome::Failed("disk full".to_string())), OperationPhase::Copying),
        "Failed: disk full"
    );
    let speed = SpeedSnapshot { current: 100, average: 1000, elapsed_secs: 3 };
    assert_eq!(job_eta(Some(speed), 10_000, 0), Some(20));
    assert_eq!(job_eta(Some(speed), 10_000, 10_000), None);
    assert_eq!(job_eta(None, 10_000, 0), None);
    let stopped = SpeedSnapshot { current: 0, average: 1, elapsed_secs: 3 };
    assert_eq!(job_eta(Some(stopped), 10, 0), None);
}

#[test]
fn buttons_by_view() {
    assert_eq!(ActionButton::Sync.key(), "3");
    assert_eq!(ActionButton::EscLeave.key(), "Esc");
    assert_eq!(ActionButton::Mkdir.label(), "Mkdir");
    assert!(button_disabled(ActionButton::Analyze, false, false, false, true));
    assert!(!button_disabled(ActionButton::Copy, false, false, false, true));
    assert!(button_disabled(ActionButton::View, false, false, true, false));
    assert!(button_disabled(ActionButton::Copy, false, true, false, false));
    assert!(!button_disabled(ActionButton::Quit, false, true, false, false));
    assert!(button_disabled(ActionButton::Refresh, true, false, false, false));
    assert!(!button_disabled(ActionButton::Copy, false, false, false, false));
    assert_eq!(button_label(ActionButton::Copy, false, false, true, false), "Direction");
    assert_eq!(button_label(ActionButton::Move, false, true, false, false), "Clean");
    assert_eq!(button_label(ActionButton::Copy, true, false, false, false), "Extract");
    assert_eq!(button_label(ActionButton::Mkdir, true, false, false, false), "Test");
    assert_eq!(button_label(ActionButton::Delete, true, false, false, true), "");
    assert_eq!(button_label(ActionButton::Delete, false, false, false, false), "Delete");
}

#[test]
fn console_title_paths_and_modes() {
    assert_eq!(title_text(80, true), " Console — Esc pane  ^X size ");
    assert_eq!(title_text(10, false), " Console …");
    assert_eq!(truncate_path("/a/b/c", 10), "/a/b/c");
    assert_eq!(truncate_path("/very/long/path/file.txt", 10), "...ile.txt");
    assert!(is_executable(Some(0o755)));
    assert!(!is_executable(Some(0o644)));
    assert!(!is_executable(None));
}

#[test]
fn pane_titles_and_tab_counters() {
    assert_eq!(pane_title("/home", false, false, false, false, false, 40, true), "▶ /home");
    assert_eq!(
        pane_title("/home", false, false, true, true, true, 60, false),
        "  [PVC >85%] [DIFF] [SYNC] /home"
    );
    assert_eq!(pane_title("a.zip/x", false, true, false, false, false, 40, false), "  [RO] a.zip/x");
    assert_eq!(pane_title("s3://b", true, true, false, false, false, 40, false), "  Sources — s3://b");
    assert_eq!(pane_title("/very/long/path/name", false, false, false, false, false, 9, true), "▶ /ver…name");
    let label = tab_label(0, 3);
    assert_eq!(label, " [ 1/3 ] ");
    let cells = tab_switch_cells(Rect { x: 0, y: 2, width: 40, height: 10 }, label.len() as u16).unwrap();
    assert_eq!(cells.0, Rect { x: 31, y: 2, width: 1, height: 1 });
    assert_eq!(cells.1, Rect { x: 37, y: 2, width: 1, height: 1 });
    assert!(tab_switch_cells(Rect { x: 0, y: 0, width: 2, height: 1 }, 9).is_none());
}
