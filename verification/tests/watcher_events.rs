use ftm::watcher::{
    deduplicate_batch, is_snapshot_trigger, translate_event, EventAction, EventKind, PathInfo,
    WorkerTask,
};

fn file_info(path: &str, matched: bool) -> PathInfo {
    PathInfo {
        path: path.to_string(),
        under_root: true,
        is_dir: false,
        is_file: true,
        matched,
    }
}

fn dir_info(path: &str) -> PathInfo {
    PathInfo {
        path: path.to_string(),
        under_root: true,
        is_dir: true,
        is_file: false,
        matched: false,
    }
}

#[test]
fn snapshot_trigger_per_platform() {
    assert!(is_snapshot_trigger(EventKind::CloseWrite, true));
    assert!(is_snapshot_trigger(EventKind::CloseWrite, false));
    assert!(!is_snapshot_trigger(EventKind::Create, true));
    assert!(is_snapshot_trigger(EventKind::Create, false));
    assert!(!is_snapshot_trigger(EventKind::Modify, true));
    assert!(is_snapshot_trigger(EventKind::Modify, false));
    assert!(!is_snapshot_trigger(EventKind::Remove, false));
}

#[test]
fn remove_becomes_delete_prefix() {
    let paths = vec![file_info("r/a.rs", true)];
    let actions = translate_event(EventKind::Remove, &paths, true);
    assert_eq!(actions.len(), 1);
    match &actions[0] {
        EventAction::Enqueue(WorkerTask::DeletePrefix(p)) => assert_eq!(p, "r/a.rs"),
        _ => panic!("expected a prefixed deletion"),
    }
}

#[test]
fn remove_outside_root_is_ignored() {
    let mut info = file_info("elsewhere/a.rs", true);
    info.under_root = false;
    let actions = translate_event(EventKind::Remove, &vec![info], true);
    assert!(actions.is_empty());
}

#[test]
fn close_write_snapshots_matching_file() {
    let paths = vec![file_info("src/a.rs", true), file_info("skip.bin", false)];
    let actions = translate_event(EventKind::CloseWrite, &paths, true);
    assert_eq!(actions.len(), 1);
    match &actions[0] {
        EventAction::Enqueue(WorkerTask::Snapshot(p)) => assert_eq!(p, "src/a.rs"),
        _ => panic!("expected a snapshot"),
    }
}

#[test]
fn modify_triggers_only_without_close_write() {
    let paths = vec![file_info("src/a.rs", true)];
    assert!(translate_event(EventKind::Modify, &paths, true).is_empty());
    assert_eq!(translate_event(EventKind::Modify, &paths, false).len(), 1);
}

#[test]
fn created_directory_is_walked() {
    let paths = vec![dir_info("newdir")];
    let actions = translate_event(EventKind::Create, &paths, true);
    assert_eq!(actions.len(), 1);
    match &actions[0] {
        EventAction::WalkAndSnapshot(p) => assert_eq!(p, "newdir"),
        _ => panic!("expected a subtree walk"),
    }
}

#[test]
fn created_file_snapshots_without_close_write() {
    let paths = vec![file_info("fresh.rs", true), file_info("skip.bin", false)];
    // With close-write events, file creations wait for the close-write.
    assert!(translate_event(EventKind::Create, &paths, true).is_empty());
    // Without them, a created matching file is snapshotted directly.
    let actions = translate_event(EventKind::Create, &paths, false);
    assert_eq!(actions.len(), 1);
    match &actions[0] {
        EventAction::Enqueue(WorkerTask::Snapshot(p)) => assert_eq!(p, "fresh.rs"),
        _ => panic!("expected a snapshot"),
    }
}

#[test]
fn rename_both_pairs_from_and_to() {
    let paths = vec![dir_info("old"), dir_info("new")];
    let actions = translate_event(EventKind::RenameBoth, &paths, true);
    assert_eq!(actions.len(), 2);
    match &actions[0] {
        EventAction::Enqueue(WorkerTask::DeletePrefix(p)) => assert_eq!(p, "old"),
        _ => panic!("expected the leaving half first"),
    }
    match &actions[1] {
        EventAction::WalkAndSnapshot(p) => assert_eq!(p, "new"),
        _ => panic!("expected the arriving half second"),
    }
}

#[test]
fn rename_to_file_snapshots_it() {
    let paths = vec![file_info("moved.rs", true)];
    let actions = translate_event(EventKind::RenameTo, &paths, true);
    assert_eq!(actions.len(), 1);
    match &actions[0] {
        EventAction::Enqueue(WorkerTask::Snapshot(p)) => assert_eq!(p, "moved.rs"),
        _ => panic!("expected a snapshot"),
    }
}

#[test]
fn dedup_keeps_last_snapshot_per_path() {
    let batch = vec![
        WorkerTask::Snapshot("a.rs".to_string()),
        WorkerTask::Snapshot("b.rs".to_string()),
        WorkerTask::Snapshot("a.rs".to_string()),
    ];
    let out = deduplicate_batch(batch);
    assert_eq!(out.len(), 2);
    match (&out[0], &out[1]) {
        (WorkerTask::Snapshot(p1), WorkerTask::Snapshot(p2)) => {
            assert_eq!(p1, "b.rs");
            assert_eq!(p2, "a.rs");
        },
        _ => panic!("expected two snapshots"),
    }
}

#[test]
fn dedup_drops_dominated_delete_prefixes() {
    let batch = vec![
        WorkerTask::DeletePrefix("dir/sub".to_string()),
        WorkerTask::DeletePrefix("dir".to_string()),
        WorkerTask::DeletePrefix("dir".to_string()),
        WorkerTask::DeletePrefix("dirty".to_string()),
    ];
    let out = deduplicate_batch(batch);
    assert_eq!(out.len(), 2);
    match &out[0] {
        WorkerTask::DeletePrefix(p) => assert_eq!(p, "dir"),
        _ => panic!("expected a deletion"),
    }
    match &out[1] {
        WorkerTask::DeletePrefix(p) => assert_eq!(p, "dirty"),
        _ => panic!("expected the sibling to survive"),
    }
}

#[test]
fn dedup_keeps_order_across_kinds() {
    let batch = vec![
        WorkerTask::DeletePrefix("gone".to_string()),
        WorkerTask::Snapshot("kept.rs".to_string()),
    ];
    let out = deduplicate_batch(batch);
    assert_eq!(out.len(), 2);
    assert!(matches!(&out[0], WorkerTask::DeletePrefix(p) if p == "gone"));
    assert!(matches!(&out[1], WorkerTask::Snapshot(p) if p == "kept.rs"));
}
