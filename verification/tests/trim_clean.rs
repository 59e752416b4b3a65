use ftm::hashing::compute_checksum;
use ftm::storage::{IndexView, RestoreError, Storage};
use ftm::types::{HistoryEntry, Index, Operation};

fn record(
    st: &Storage,
    index: &mut Index,
    view: &mut IndexView,
    path: &str,
    content: &[u8],
    ts: i64,
) -> Option<Operation> {
    let checksum = compute_checksum(content);
    let size = content.len() as u64;
    st.save_snapshot_with_index(path, checksum, size, size, Some(ts), ts, index, view)
}

#[test]
fn trim_caps_history_length() {
    let st = Storage::new(".ftm".to_string(), 3, 1 << 30);
    let mut index = Index { history: vec![] };
    let mut view = st.build_index_view(&index);
    for (i, content) in [b"c1", b"c2", b"c3", b"c4", b"c5", b"c6"].iter().enumerate() {
        record(&st, &mut index, &mut view, "t.txt", &content[..], i as i64);
    }
    assert_eq!(index.history.len(), 6);
    let (removed, _freed, to_delete) = st.trim_history_and_quota(&mut index);
    assert_eq!(removed, 3);
    assert_eq!(index.history.len(), 3);
    // The retained entries are the newest three.
    let ts: Vec<i64> = index.history.iter().map(|e| e.timestamp).collect();
    assert_eq!(ts, vec![3, 4, 5]);
    // The evicted contents lost their last referent.
    let mut gone = to_delete.clone();
    gone.sort();
    let mut expect = vec![
        compute_checksum(b"c1"),
        compute_checksum(b"c2"),
        compute_checksum(b"c3"),
    ];
    expect.sort();
    assert_eq!(gone, expect);
}

#[test]
fn trim_keeps_snapshots_still_referenced() {
    let st = Storage::new(".ftm".to_string(), 2, 1 << 30);
    let mut index = Index { history: vec![] };
    let mut view = st.build_index_view(&index);
    record(&st, &mut index, &mut view, "a.txt", b"shared", 1);
    record(&st, &mut index, &mut view, "b.txt", b"shared", 2);
    record(&st, &mut index, &mut view, "c.txt", b"other", 3);
    let (removed, _freed, to_delete) = st.trim_history_and_quota(&mut index);
    assert_eq!(removed, 1);
    // "shared" is still referenced by b.txt's entry, so nothing is deleted.
    assert!(to_delete.is_empty());
}

#[test]
fn trim_enforces_quota_bytes() {
    let st = Storage::new(".ftm".to_string(), 100, 10);
    let mut index = Index { history: vec![] };
    let mut view = st.build_index_view(&index);
    record(&st, &mut index, &mut view, "a.txt", b"aaaaaaaa", 1); // 8 bytes
    record(&st, &mut index, &mut view, "b.txt", b"bbbbbbbb", 2); // 8 bytes
    let (removed, freed, _to_delete) = st.trim_history_and_quota(&mut index);
    assert_eq!(removed, 1);
    assert_eq!(freed, 8);
    assert_eq!(index.history.len(), 1);
    assert_eq!(index.history[0].file, "b.txt");
}

#[test]
fn trim_under_limits_is_a_no_op() {
    let st = Storage::new(".ftm".to_string(), 10, 1 << 30);
    let mut index = Index { history: vec![] };
    let mut view = st.build_index_view(&index);
    record(&st, &mut index, &mut view, "a.txt", b"v", 1);
    let (removed, freed, to_delete) = st.trim_history_and_quota(&mut index);
    assert_eq!((removed, freed), (0, 0));
    assert!(to_delete.is_empty());
    assert_eq!(index.history.len(), 1);
}

#[test]
fn clean_removes_orphans_and_keeps_referenced() {
    let st = Storage::new(".ftm".to_string(), 100, 1 << 30);
    let mut index = Index { history: vec![] };
    let mut view = st.build_index_view(&index);
    record(&st, &mut index, &mut view, "a.txt", b"keepme", 1);
    let kept = compute_checksum(b"keepme");
    let orphan = compute_checksum(b"nobody-references-this");
    let listing = vec![
        (kept.clone(), 6u64),
        (orphan.clone(), 22u64),
        ("not-a-checksum".to_string(), 5u64),
    ];
    let (report, trim_list, orphans) = st.clean(&mut index, &listing);
    assert_eq!(report.entries_trimmed, 0);
    assert_eq!(report.files_removed, 1);
    assert_eq!(report.bytes_removed, 22);
    assert!(trim_list.is_empty());
    assert_eq!(orphans, vec![(orphan, 22u64)]);
    // The referenced snapshot and the oddly named file both stay.
    assert_eq!(index.history.len(), 1);
}

#[test]
fn clean_reports_trim_and_orphans_together() {
    let st = Storage::new(".ftm".to_string(), 1, 1 << 30);
    let mut index = Index { history: vec![] };
    let mut view = st.build_index_view(&index);
    record(&st, &mut index, &mut view, "a.txt", b"old", 1);
    record(&st, &mut index, &mut view, "a.txt", b"new", 2);
    let old_sum = compute_checksum(b"old");
    let new_sum = compute_checksum(b"new");
    let listing = vec![(old_sum.clone(), 3u64), (new_sum.clone(), 3u64)];
    let (report, trim_list, orphans) = st.clean(&mut index, &listing);
    assert_eq!(report.entries_trimmed, 1);
    assert_eq!(report.bytes_freed_trim, 3);
    assert_eq!(trim_list, vec![old_sum]);
    // The trim casualty is named once, not again as an orphan.
    assert!(orphans.is_empty());
    assert_eq!(report.files_removed, 0);
    assert_eq!(index.history.len(), 1);
    assert_eq!(index.history[0].checksum, Some(new_sum));
}

#[test]
fn list_history_filters_by_file() {
    let st = Storage::new(".ftm".to_string(), 100, 1 << 30);
    let mut index = Index { history: vec![] };
    let mut view = st.build_index_view(&index);
    record(&st, &mut index, &mut view, "a.txt", b"1", 1);
    record(&st, &mut index, &mut view, "b.txt", b"2", 2);
    record(&st, &mut index, &mut view, "a.txt", b"3", 3);
    let entries = st.list_history(&index, "a.txt");
    assert_eq!(entries.len(), 2);
    assert_eq!(entries[0].timestamp, 1);
    assert_eq!(entries[1].timestamp, 3);
    assert!(st.list_history(&index, "c.txt").is_empty());
}

#[test]
fn list_activity_window_and_deleted() {
    let st = Storage::new(".ftm".to_string(), 100, 1 << 30);
    let mut index = Index { history: vec![] };
    let mut view = st.build_index_view(&index);
    record(&st, &mut index, &mut view, "a.txt", b"1", 10);
    record(&st, &mut index, &mut view, "b.txt", b"2", 20);
    st.record_delete_with_index("b.txt", 30, &mut index, &mut view);
    let in_window = st.list_activity(&index, 5, 25, true);
    assert_eq!(in_window.len(), 2);
    let live_only = st.list_activity(&index, 0, 100, false);
    // b.txt's entries drop out: its last entry is a delete.
    assert_eq!(live_only.len(), 1);
    assert_eq!(live_only[0].file, "a.txt");
}

#[test]
fn list_files_counts_and_hides_deleted() {
    let st = Storage::new(".ftm".to_string(), 100, 1 << 30);
    let mut index = Index { history: vec![] };
    let mut view = st.build_index_view(&index);
    record(&st, &mut index, &mut view, "a.txt", b"1", 1);
    record(&st, &mut index, &mut view, "a.txt", b"2", 2);
    record(&st, &mut index, &mut view, "b.txt", b"3", 3);
    st.record_delete_with_index("b.txt", 4, &mut index, &mut view);
    let all = st.list_files(&index, true);
    assert_eq!(all.len(), 2);
    let live = st.list_files(&index, false);
    assert_eq!(live.len(), 1);
    assert_eq!(live[0].0, "a.txt");
    assert_eq!(live[0].1, 2);
}

#[test]
fn restore_finds_by_prefix() {
    let st = Storage::new(".ftm".to_string(), 100, 1 << 30);
    let mut index = Index { history: vec![] };
    let mut view = st.build_index_view(&index);
    record(&st, &mut index, &mut view, "x.txt", b"first", 1);
    st.record_delete_with_index("x.txt", 2, &mut index, &mut view);
    record(&st, &mut index, &mut view, "x.txt", b"second", 3);
    let first_sum = compute_checksum(b"first");
    let found = Storage::restore_find_checksum(&index, "x.txt", &first_sum[..8]).unwrap();
    assert_eq!(found, first_sum);
    assert!(ftm::hashing::bytes_match_checksum(b"first", &found));
    assert!(!ftm::hashing::bytes_match_checksum(b"tampered", &found));
    assert!(Storage::restore_find_checksum(&index, "x.txt", "000000000000").is_err());
    assert!(Storage::restore_find_checksum(&index, "y.txt", &first_sum[..8]).is_err());
}

#[test]
fn restore_rejects_short_or_ambiguous_prefixes() {
    let entry = |c: char, ts: i64| HistoryEntry {
        timestamp: ts,
        op: Operation::Create,
        file: "x.txt".to_string(),
        checksum: Some(std::iter::repeat(c).take(63).collect::<String>() + if ts == 1 { "a" } else { "b" }),
        size: Some(1),
        mtime_nanos: None,
    };
    let index = Index { history: vec![entry('a', 1), entry('a', 2)] };
    // Shorter than eight hex digits: refused outright.
    assert_eq!(
        Storage::restore_find_checksum(&index, "x.txt", "aaaa"),
        Err(RestoreError::PrefixTooShort)
    );
    // Eight digits matching two distinct checksums: ambiguous.
    assert_eq!(
        Storage::restore_find_checksum(&index, "x.txt", "aaaaaaaa"),
        Err(RestoreError::Ambiguous)
    );
    // The full prefix pins one version.
    let full: String = std::iter::repeat('a').take(63).collect::<String>() + "a";
    assert_eq!(Storage::restore_find_checksum(&index, "x.txt", &full[..]), Ok(full));
}

#[test]
fn snapshot_path_fans_out() {
    let st = Storage::new("/root/.ftm".to_string(), 100, 1 << 30);
    let p = st.snapshot_path("ab12cd");
    assert_eq!(p, "/root/.ftm/snapshots/a/b/ab12cd");
    assert_eq!(st.index_path(), "/root/.ftm/index.json");
    assert_eq!(st.snapshots_dir(), "/root/.ftm/snapshots");
}

#[test]
fn sha256_hex_shape() {
    assert!(ftm::hashing::is_sha256_hex(
        "ba7816bf8f01cfea414140de5dae2223b00361a396177a9cb410ff61f20015ad"
    ));
    assert!(!ftm::hashing::is_sha256_hex("ba7816"));
    assert!(!ftm::hashing::is_sha256_hex(
        "BA7816BF8F01CFEA414140DE5DAE2223B00361A396177A9CB410FF61F20015AD"
    ));
}

#[test]
fn checksum_is_real_sha256() {
    // The digest comes from the outside crate; hold it to a known vector.
    assert_eq!(
        compute_checksum(b"abc"),
        "ba7816bf8f01cfea414140de5dae2223b00361a396177a9cb410ff61f20015ad"
    );
}
