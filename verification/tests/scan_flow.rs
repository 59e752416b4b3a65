use ftm::config::Config;
use ftm::hashing::compute_checksum;
use ftm::scanner::{ScanResult, Scanner};
use ftm::storage::Storage;
use ftm::types::{Index, Operation};

fn new_scanner() -> Scanner {
    Scanner::new(
        "/root/project".to_string(),
        Config::default(),
        Storage::new("/root/project/.ftm".to_string(), 100, 1 << 30),
    )
}

fn empty_result() -> ScanResult {
    ScanResult { created: 0, modified: 0, deleted: 0, unchanged: 0 }
}

#[test]
fn scan_records_new_file_once() {
    let sc = new_scanner();
    let mut index = Index { history: vec![] };
    let mut view = sc.storage.build_index_view(&index);
    let mut result = empty_result();
    let content = vec![b'x'; 10 * 1024];
    let sum = compute_checksum(&content);
    let op = sc.apply_scan_file(
        &mut result,
        &mut index,
        &mut view,
        "c.rs",
        sum.clone(),
        content.len() as u64,
        content.len() as u64,
        Some(111),
        1,
    );
    assert_eq!(op, Some(Operation::Create));
    assert_eq!((result.created, result.modified, result.deleted, result.unchanged), (1, 0, 0, 0));

    // A second pass over the unchanged tree: the fast path skips the file,
    // and deletion detection sees it in the walk.
    assert!(sc.fast_path_unchanged(&index, &view, "c.rs", content.len() as u64, Some(111)));
    assert!(!sc.fast_path_unchanged(&index, &view, "c.rs", content.len() as u64, Some(222)));
    let seen = vec!["c.rs".to_string()];
    let mut result2 = empty_result();
    let deleted = sc.detect_deletes(&seen, &mut result2, &mut index, &mut view, 2);
    assert_eq!(deleted, 0);
    assert_eq!((result2.created, result2.modified, result2.deleted, result2.unchanged), (0, 0, 0, 0));
    assert_eq!(index.history.len(), 1);
}

#[test]
fn scan_counts_modification() {
    let sc = new_scanner();
    let mut index = Index { history: vec![] };
    let mut view = sc.storage.build_index_view(&index);
    let mut result = empty_result();
    let s1 = compute_checksum(b"v1");
    let s2 = compute_checksum(b"v2");
    sc.apply_scan_file(&mut result, &mut index, &mut view, "a.rs", s1, 2, 2, None, 1);
    sc.apply_scan_file(&mut result, &mut index, &mut view, "a.rs", s2, 2, 2, None, 2);
    assert_eq!((result.created, result.modified), (1, 1));
}

#[test]
fn scan_counts_unchanged_content() {
    let sc = new_scanner();
    let mut index = Index { history: vec![] };
    let mut view = sc.storage.build_index_view(&index);
    let mut result = empty_result();
    let sum = compute_checksum(b"same");
    sc.apply_scan_file(&mut result, &mut index, &mut view, "a.rs", sum.clone(), 4, 4, None, 1);
    let op = sc.apply_scan_file(&mut result, &mut index, &mut view, "a.rs", sum, 4, 4, None, 2);
    assert_eq!(op, None);
    assert_eq!((result.created, result.unchanged), (1, 1));
}

#[test]
fn scan_detects_vanished_files() {
    let sc = new_scanner();
    let mut index = Index { history: vec![] };
    let mut view = sc.storage.build_index_view(&index);
    let mut result = empty_result();
    let s1 = compute_checksum(b"a");
    let s2 = compute_checksum(b"b");
    sc.apply_scan_file(&mut result, &mut index, &mut view, "stays.rs", s1, 1, 1, None, 1);
    sc.apply_scan_file(&mut result, &mut index, &mut view, "goes.rs", s2, 1, 1, None, 2);
    let seen = vec!["stays.rs".to_string()];
    let deleted = sc.detect_deletes(&seen, &mut result, &mut index, &mut view, 3);
    assert_eq!(deleted, 1);
    assert_eq!(result.deleted, 1);
    let last = index.history.last().unwrap();
    assert_eq!(last.file, "goes.rs");
    assert_eq!(last.op, Operation::Delete);

    // Detection is idempotent: the file is already marked deleted.
    let deleted_again = sc.detect_deletes(&seen, &mut result, &mut index, &mut view, 4);
    assert_eq!(deleted_again, 0);
}

#[test]
fn fast_path_needs_live_entry() {
    let sc = new_scanner();
    let mut index = Index { history: vec![] };
    let mut view = sc.storage.build_index_view(&index);
    let mut result = empty_result();
    assert!(!sc.fast_path_unchanged(&index, &view, "a.rs", 1, None));
    let sum = compute_checksum(b"x");
    sc.apply_scan_file(&mut result, &mut index, &mut view, "a.rs", sum, 1, 1, Some(5), 1);
    assert!(sc.fast_path_unchanged(&index, &view, "a.rs", 1, Some(5)));
    sc.storage.record_delete_with_index("a.rs", 2, &mut index, &mut view);
    assert!(!sc.fast_path_unchanged(&index, &view, "a.rs", 1, Some(5)));
}
