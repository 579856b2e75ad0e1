use abyss::app::ActivePane;
use abyss::fs::cloud::{
    cloud_listing, dir_marker_key, gcs_display_path, list_prefix, object_key, s3_display_path,
    ListedObject,
};
use abyss::fs::remote::{
    delete_command, df_command, download_command, du_command, du_output_fits, ls_command,
    mkdir_command, parse_directory_sizes, parse_disk_usage, parse_ls_output, parse_u64,
    upload_command, upload_parent,
};
use abyss::fs::types::FileEntry;
use abyss::k8s::{
    claim_info, namespace_names, pod_key, pod_wait, volume_info, ClaimRecord, PodWait, VolumeRecord,
};
use abyss::ui::layout::{contains, find_at, find_last_at, position_at, Rect};
use abyss::ui::pane::{switch_pane, Pane};

fn entry(name: &str) -> FileEntry {
    FileEntry { name: name.to_string(), size: 0, is_dir: false, modified: None, permissions: None }
}

#[test]
fn pane_selection_wraps_around() {
    let mut pane = Pane::new("/home".to_string());
    assert_eq!(pane.selected, Some(0));
    pane.select_previous();
    assert_eq!(pane.selected, Some(0));
    pane.entries = vec![entry("a"), entry("b"), entry("c")];
    pane.select_previous();
    assert_eq!(pane.selected, Some(2));
    pane.select_next();
    assert_eq!(pane.selected, Some(0));
    pane.select_next();
    assert_eq!(pane.selected_entry().unwrap().name, "b");
    pane.selected = Some(7);
    assert!(pane.selected_entry().is_none());
    pane.selected = None;
    pane.select_next();
    assert_eq!(pane.selected, Some(0));
    let empty = Pane::new_selecting();
    assert_eq!(empty.path, "");
}

#[test]
fn switching_the_focus() {
    let mut left = Pane::new("/a".to_string());
    let mut right = Pane::new("/b".to_string());
    left.is_active = true;
    assert_eq!(switch_pane(&mut left, &mut right), ActivePane::Right);
    assert!(!left.is_active && right.is_active);
    assert_eq!(switch_pane(&mut left, &mut right), ActivePane::Left);
    assert!(left.is_active && !right.is_active);
}

#[test]
fn clicks_find_what_was_drawn() {
    let a = Rect { x: 0, y: 0, width: 10, height: 2 };
    let b = Rect { x: 5, y: 1, width: 10, height: 2 };
    assert!(contains(a, 9, 1));
    assert!(!contains(a, 10, 1));
    let edge = Rect { x: 65_530, y: 0, width: 100, height: 1 };
    assert!(contains(edge, 65_534, 0));
    let items = vec![('a', a), ('b', b)];
    assert_eq!(find_at(&items, 6, 1), Some('a'));
    assert_eq!(find_last_at(&items, 6, 1), Some('b'));
    assert_eq!(find_at(&items, 12, 2), Some('b'));
    assert_eq!(find_at(&items, 30, 30), None);
    assert_eq!(position_at(&[a, b], 12, 1), Some(1));
    assert_eq!(position_at(&[a, b], 40, 1), None);
}

#[test]
fn object_keys_and_prefixes() {
    assert_eq!(object_key("//a/b"), "a/b");
    assert_eq!(list_prefix(""), "");
    assert_eq!(list_prefix("/"), "");
    assert_eq!(list_prefix("/photos"), "photos/");
    assert_eq!(list_prefix("photos/"), "photos/");
    assert_eq!(dir_marker_key("/new"), "new/");
    assert_eq!(dir_marker_key("new/"), "new/");
    assert_eq!(s3_display_path("bkt", "/x/y"), "s3://bkt/x/y");
    assert_eq!(gcs_display_path("bkt", "x"), "gs://bkt/x");
}

#[test]
fn object_listings() {
    let objects = vec![
        ListedObject { name: "".to_string(), is_dir: true, size: 0 },
        ListedObject { name: "zeta.txt".to_string(), is_dir: false, size: 4 },
        ListedObject { name: "Docs/".to_string(), is_dir: true, size: 0 },
        ListedObject { name: "/".to_string(), is_dir: true, size: 0 },
        ListedObject { name: "alpha.txt".to_string(), is_dir: false, size: 9 },
    ];
    let listing = cloud_listing(&objects);
    let names: Vec<&str> = listing.iter().map(|e| e.name.as_str()).collect();
    assert_eq!(names, vec!["Docs", "alpha.txt", "zeta.txt"]);
    assert_eq!(listing[1].size, 9);
}

#[test]
fn unsigned_numbers_parse_as_the_standard_library_does() {
    for s in ["0", "42", "+7", "18446744073709551615", "", "+", "-1", "1x", "18446744073709551616", " 1"] {
        assert_eq!(parse_u64(s), s.parse::<u64>().ok(), "input {s:?}");
    }
}

#[test]
fn pod_listings_usage_and_sizes() {
    let ls = "total 12\n\
              drwxr-xr-x    2 root     root          4096 Jan  1 00:00 .\n\
              drwxr-xr-x    3 root     root          4096 Jan  1 00:00 ..\n\
              -rw-r--r--    1 root     root           120 Jan  1 00:00 notes  v2.txt\n\
              drwxr-xr-x    2 root     root          4096 Jan  1 00:00 Backups\n\
              short line\n";
    let entries = parse_ls_output(ls);
    assert_eq!(entries.len(), 2);
    assert_eq!(entries[0].name, "Backups");
    assert!(entries[0].is_dir);
    assert_eq!(entries[1].name, "notes v2.txt");
    assert_eq!(entries[1].size, 120);
    assert_eq!(entries[1].permissions.as_deref(), Some("-rw-r--r--"));
    assert!(parse_ls_output("ls: /x: No such file or directory").is_empty());
    assert!(parse_ls_output("ERROR: Failed to list directory").is_empty());

    assert_eq!(
        parse_disk_usage("/dev/sda1  10G  4.0G  6.0G  40% /data\n"),
        "Size: 10G | Used: 4.0G | Avail: 6.0G | 40%"
    );
    assert_eq!(parse_disk_usage("  oops  \n"), "oops");

    let du = "2048\t/data/big dir\n12\t/data/small\nbad\n";
    assert!(du_output_fits(du));
    let sizes = parse_directory_sizes(du);
    assert_eq!(
        sizes,
        vec![("big dir".to_string(), 2048 * 1024, true), ("small".to_string(), 12 * 1024, true)]
    );
    assert!(!du_output_fits("18446744073709551615\t/data/x\n"));
}

#[test]
fn kubernetes_storage_for_the_menu() {
    let claim = ClaimRecord {
        name: Some("data".to_string()),
        namespace: None,
        storage_capacity: None,
        access_modes: Some(vec!["ReadWriteOnce".to_string()]),
    };
    let info = claim_info(&claim);
    assert_eq!(info.name, "data");
    assert_eq!(info.namespace, "");
    assert_eq!(info.capacity, "Unknown");
    assert_eq!(info.access_modes, vec!["ReadWriteOnce".to_string()]);

    let volume = VolumeRecord {
        name: Some("pv-1".to_string()),
        storage_capacity: Some("10Gi".to_string()),
        access_modes: None,
        claim_ref: Some((Some("prod".to_string()), None)),
        phase: Some("Bound".to_string()),
    };
    let info = volume_info(&volume);
    assert_eq!(info.capacity, "10Gi");
    assert!(info.access_modes.is_empty());
    assert_eq!(info.claim_ref.as_deref(), Some("prod/"));
    assert_eq!(info.status, "Bound");
    assert!(info.is_pv);
    let free = VolumeRecord { name: None, storage_capacity: None, access_modes: None, claim_ref: None, phase: None };
    let info = volume_info(&free);
    assert_eq!(info.name, "");
    assert_eq!(info.status, "Unknown");
    assert!(info.claim_ref.is_none());

    let names = vec![Some("prod".to_string()), None, Some("default".to_string()), Some("kube-system".to_string())];
    assert_eq!(namespace_names(&names), vec!["default".to_string(), "kube-system".to_string(), "prod".to_string()]);
}

#[test]
fn pod_commands_and_phases() {
    assert_eq!(
        ls_command("/data/x"),
        vec!["sh", "-c", "ls -la /data/x 2>&1 || echo 'ERROR: Failed to list directory'"]
    );
    assert_eq!(df_command(), vec!["sh", "-c", "df -h /data 2>/dev/null | tail -1"]);
    assert_eq!(du_command("/data"), vec!["sh", "-c", "du -s /data/* 2>/dev/null | sort -rn"]);
    assert_eq!(delete_command("/data/a"), vec!["rm", "-rf", "/data/a"]);
    assert_eq!(mkdir_command("/data/b"), vec!["mkdir", "-p", "/data/b"]);
    assert_eq!(
        upload_command("/data/sub/file.txt"),
        vec!["sh", "-c", "cat > /tmp/upload.tar && tar -xf /tmp/upload.tar -C /data/sub && rm /tmp/upload.tar"]
    );
    assert_eq!(upload_command("/elsewhere/f")[2], "cat > /tmp/upload.tar && tar -xf /tmp/upload.tar -C /data && rm /tmp/upload.tar");
    assert_eq!(download_command("/data/sub/file.txt"), vec!["tar", "-cf", "-", "-C", "/data/sub", "file.txt"]);
    assert_eq!(download_command("/"), vec!["tar", "-cf", "-", "-C", "/data", "."]);
    assert_eq!(upload_parent("/data/sub/f"), Some("/data/sub".to_string()));
    assert_eq!(upload_parent("/f"), None);
    assert_eq!(upload_parent("f"), None);
    assert_eq!(pod_key("prod", "data"), "prod/data");
    assert!(matches!(pod_wait(Some("Running")), PodWait::Ready));
    assert!(matches!(pod_wait(Some("Unknown")), PodWait::Failed(m) if m == "Pod failed to start: Unknown"));
    assert!(matches!(pod_wait(Some("Pending")), PodWait::Pending));
    assert!(matches!(pod_wait(None), PodWait::Pending));
}
