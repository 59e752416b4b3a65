use ftm::hashing::compute_checksum;
use ftm::storage::{IndexView, Storage};
use ftm::types::{Index, Operation};

fn new_storage() -> Storage {
    Storage::new(".ftm".to_string(), 100, 1 << 30)
}

fn record(
    st: &Storage,
    index: &mut Index,
    view: &mut IndexView,
    path: &str,
    content: &[u8],
    ts: i64,
) -> Option<Operation> {
    let checksum = compute_checksum(content);
    let size = content.len() as u64;
    st.save_snapshot_with_index(path, checksum, size, size, Some(ts), ts, index, view)
}

#[test]
fn first_write_is_create() {
    let st = new_storage();
    let mut index = Index { history: vec![] };
    let mut view = st.build_index_view(&index);
    let op = record(&st, &mut index, &mut view, "a.txt", b"v1", 1);
    assert_eq!(op, Some(Operation::Create));
    assert_eq!(index.history.len(), 1);
    assert_eq!(index.history[0].file, "a.txt");
    assert_eq!(index.history[0].size, Some(2));
}

#[test]
fn second_distinct_write_is_modify() {
    let st = new_storage();
    let mut index = Index { history: vec![] };
    let mut view = st.build_index_view(&index);
    record(&st, &mut index, &mut view, "a.txt", b"v1", 1);
    let op = record(&st, &mut index, &mut view, "a.txt", b"v2", 2);
    assert_eq!(op, Some(Operation::Modify));
    assert_eq!(index.history.len(), 2);
    assert_ne!(index.history[0].checksum, index.history[1].checksum);
}

#[test]
fn identical_write_is_dropped() {
    let st = new_storage();
    let mut index = Index { history: vec![] };
    let mut view = st.build_index_view(&index);
    record(&st, &mut index, &mut view, "a.txt", b"same", 1);
    let op = record(&st, &mut index, &mut view, "a.txt", b"same", 2);
    assert_eq!(op, None);
    assert_eq!(index.history.len(), 1);
}

#[test]
fn empty_file_is_dropped() {
    let st = new_storage();
    let mut index = Index { history: vec![] };
    let mut view = st.build_index_view(&index);
    let op = record(&st, &mut index, &mut view, "a.txt", b"", 1);
    assert_eq!(op, None);
    assert!(index.history.is_empty());
}

#[test]
fn stale_stage_is_dropped() {
    let st = new_storage();
    let mut index = Index { history: vec![] };
    let mut view = st.build_index_view(&index);
    let checksum = compute_checksum(b"abc");
    let op = st.save_snapshot_with_index("a.txt", checksum, 3, 5, None, 1, &mut index, &mut view);
    assert_eq!(op, None);
    assert!(index.history.is_empty());
}

#[test]
fn two_files_same_content_share_checksum() {
    let st = new_storage();
    let mut index = Index { history: vec![] };
    let mut view = st.build_index_view(&index);
    record(&st, &mut index, &mut view, "a.txt", b"same", 1);
    let op = record(&st, &mut index, &mut view, "b.txt", b"same", 2);
    assert_eq!(op, Some(Operation::Create));
    assert_eq!(index.history.len(), 2);
    assert_eq!(index.history[0].checksum, index.history[1].checksum);
}

#[test]
fn delete_then_recreate() {
    let st = new_storage();
    let mut index = Index { history: vec![] };
    let mut view = st.build_index_view(&index);
    record(&st, &mut index, &mut view, "x.txt", b"one", 1);
    let d = st.record_delete_with_index("x.txt", 2, &mut index, &mut view);
    assert_eq!(d, Some(Operation::Delete));
    let op = record(&st, &mut index, &mut view, "x.txt", b"three", 3);
    assert_eq!(op, Some(Operation::Create));
    let ops: Vec<Operation> = index.history.iter().map(|e| e.op).collect();
    assert_eq!(ops, vec![Operation::Create, Operation::Delete, Operation::Create]);
    assert_eq!(index.history[1].checksum, None);
    assert_eq!(index.history[1].size, None);
}

#[test]
fn delete_of_deleted_is_dropped() {
    let st = new_storage();
    let mut index = Index { history: vec![] };
    let mut view = st.build_index_view(&index);
    record(&st, &mut index, &mut view, "x.txt", b"one", 1);
    st.record_delete_with_index("x.txt", 2, &mut index, &mut view);
    let d2 = st.record_delete_with_index("x.txt", 3, &mut index, &mut view);
    assert_eq!(d2, None);
    assert_eq!(index.history.len(), 2);
}

#[test]
fn delete_of_unknown_is_dropped() {
    let st = new_storage();
    let mut index = Index { history: vec![] };
    let mut view = st.build_index_view(&index);
    let d = st.record_delete_with_index("ghost.txt", 1, &mut index, &mut view);
    assert_eq!(d, None);
    assert!(index.history.is_empty());
}

#[test]
fn backslash_keys_are_normalized() {
    let st = new_storage();
    let mut index = Index { history: vec![] };
    let mut view = st.build_index_view(&index);
    record(&st, &mut index, &mut view, "dir\\a.txt", b"v", 1);
    assert_eq!(index.history[0].file, "dir/a.txt");
}

#[test]
fn deletes_under_prefix_cover_directory() {
    let st = new_storage();
    let mut index = Index { history: vec![] };
    let mut view = st.build_index_view(&index);
    record(&st, &mut index, &mut view, "dir/a.txt", b"a", 1);
    record(&st, &mut index, &mut view, "dir/sub/b.txt", b"b", 2);
    record(&st, &mut index, &mut view, "other.txt", b"c", 3);
    let n = st.record_deletes_under_prefix("dir", 4, &mut index, &mut view);
    assert_eq!(n, 2);
    assert_eq!(index.history.len(), 5);
    let mut deleted: Vec<String> = index.history[3..].iter().map(|e| e.file.clone()).collect();
    deleted.sort();
    assert_eq!(deleted, vec!["dir/a.txt".to_string(), "dir/sub/b.txt".to_string()]);
}

#[test]
fn deletes_under_prefix_skip_similar_names() {
    let st = new_storage();
    let mut index = Index { history: vec![] };
    let mut view = st.build_index_view(&index);
    record(&st, &mut index, &mut view, "dir2/a.txt", b"a", 1);
    let n = st.record_deletes_under_prefix("dir", 2, &mut index, &mut view);
    assert_eq!(n, 0);
    assert_eq!(index.history.len(), 1);
}

#[test]
fn deletes_under_empty_prefix_do_nothing() {
    let st = new_storage();
    let mut index = Index { history: vec![] };
    let mut view = st.build_index_view(&index);
    record(&st, &mut index, &mut view, "a.txt", b"a", 1);
    let n = st.record_deletes_under_prefix("/", 2, &mut index, &mut view);
    assert_eq!(n, 0);
}

#[test]
fn restore_of_deleted_version_recreates() {
    let st = new_storage();
    let mut index = Index { history: vec![] };
    let mut view = st.build_index_view(&index);
    record(&st, &mut index, &mut view, "x.txt", b"one", 1);
    st.record_delete_with_index("x.txt", 2, &mut index, &mut view);
    record(&st, &mut index, &mut view, "x.txt", b"three", 3);
    // Restore to the first version: the snapshot bytes verify against the
    // resolved checksum, and writing them back surfaces as a new create.
    let first = compute_checksum(b"one");
    let found = Storage::restore_find_checksum(&index, "x.txt", &first[..8]).unwrap();
    assert!(ftm::hashing::bytes_match_checksum(b"one", &found));
    let op = record(&st, &mut index, &mut view, "x.txt", b"one", 4);
    assert_eq!(op, Some(Operation::Modify));
    let ops: Vec<Operation> = index.history.iter().map(|e| e.op).collect();
    assert_eq!(
        ops,
        vec![Operation::Create, Operation::Delete, Operation::Create, Operation::Modify]
    );
}

#[test]
fn view_survives_rebuild() {
    let st = new_storage();
    let mut index = Index { history: vec![] };
    let mut view = st.build_index_view(&index);
    record(&st, &mut index, &mut view, "a.txt", b"1", 1);
    record(&st, &mut index, &mut view, "b.txt", b"2", 2);
    record(&st, &mut index, &mut view, "a.txt", b"3", 3);
    let mut rebuilt = st.build_index_view(&index);
    rebuilt.rebuild(&index);
    let last = rebuilt.last_entry_for_file(&index, "a.txt").unwrap();
    assert_eq!(last.timestamp, 3);
    assert!(rebuilt.last_entry_for_file(&index, "c.txt").is_none());
}
