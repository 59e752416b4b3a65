//! Data model of the tracker: history entries, the append-only index, and
//! the well-formedness invariants that every committed mutation preserves.

use vstd::prelude::*;

verus! {

use crate::path_util::{is_normalized, valid_rel_key};

/// What happened to a file at one point of its history.
#[derive(Clone, Copy, PartialEq, Eq, Structural, Debug)]
pub enum Operation {
    Create,
    Modify,
    Delete,
}

/// One immutable record of the history index.
///
/// `timestamp` is the UTC instant of recording, in nanoseconds since the
/// Unix epoch. `file` is the path relative to the watched root, with
/// forward-slash separators. `checksum` is the lowercase hex SHA-256 of the
/// file bytes at that moment and `size` their count; both are absent for
/// `Delete`. `mtime_nanos` is the file modification time, used only as a
/// fast-skip hint.
pub struct HistoryEntry {
    pub timestamp: i64,
    pub op: Operation,
    pub file: String,
    pub checksum: Option<String>,
    pub size: Option<u64>,
    pub mtime_nanos: Option<i64>,
}

/// The ordered sequence of history records; the sole source of truth.
pub struct Index {
    pub history: Vec<HistoryEntry>,
}

/// Result of a clean run (trim + orphan removal): counts for both phases.
pub struct CleanResult {
    /// History entries removed by trim (`max_history` / `max_quota`).
    pub entries_trimmed: usize,
    /// Bytes freed by trim (snapshots unreferenced once the entries left).
    pub bytes_freed_trim: u64,
    /// Orphan snapshot files removed (referenced by no history entry).
    pub files_removed: usize,
    /// Bytes freed by orphan removal.
    pub bytes_removed: u64,
}

/// Tree node for structured file listing. Directories have children;
/// files carry their history entry count.
pub struct FileTreeNode {
    pub name: String,
    pub count: Option<usize>,
    pub children: Option<Vec<FileTreeNode>>,
}

/// A lowercase hexadecimal digit.
pub open spec fn is_hex_char(c: char) -> bool {
    ('0' <= c && c <= '9') || ('a' <= c && c <= 'f')
}

/// A 64-character lowercase hex string: the shape of a SHA-256 checksum.
pub open spec fn is_checksum(s: Seq<char>) -> bool {
    s.len() == 64 && (forall|i: int| 0 <= i < s.len() ==> is_hex_char(#[trigger] s[i]))
}

/// Shape of a single entry: `Delete` carries no checksum, size or mtime;
/// `Create` and `Modify` carry a well-formed checksum and a size; the
/// file key is a well-formed relative path — nonempty, forward slashes
/// only, not absolute, no ".." segment.
pub open spec fn entry_shape_ok(e: HistoryEntry) -> bool {
    &&& (e.op is Delete <==> e.checksum is None)
    &&& (e.op is Delete <==> e.size is None)
    &&& (e.op is Delete ==> e.mtime_nanos is None)
    &&& (e.checksum matches Some(c) ==> is_checksum(c@))
    &&& valid_rel_key(e.file@)
}

/// Position of the last entry for file `f`, or -1 if `f` was never recorded.
pub open spec fn last_index_for(h: Seq<HistoryEntry>, f: Seq<char>) -> int
    decreases h.len(),
{
    if h.len() == 0 {
        -1
    } else if h.last().file@ == f {
        h.len() - 1
    } else {
        last_index_for(h.drop_last(), f)
    }
}

/// Whether some entry for file `f` exists.
pub open spec fn is_tracked(h: Seq<HistoryEntry>, f: Seq<char>) -> bool {
    last_index_for(h, f) >= 0
}

/// `j` is the entry right after `i` in the history of its own file: both
/// speak of the same file and no entry for that file lies between them.
pub open spec fn is_succ_for_file(h: Seq<HistoryEntry>, i: int, j: int) -> bool {
    0 <= i < j < h.len() && h[j].file@ == h[i].file@ && last_index_for(h.take(j), h[j].file@) == i
}

/// What two neighbouring entries of one file may look like: after a
/// `Delete` only a `Create`; a `Create` only first or after a `Delete`;
/// and never the same checksum twice in a row (deduplication).
pub open spec fn pair_ok(a: HistoryEntry, b: HistoryEntry) -> bool {
    &&& (a.op is Delete ==> b.op is Create)
    &&& (!(a.op is Delete) ==> !(b.op is Create))
    &&& (a.checksum matches Some(ca) ==> (b.checksum matches Some(cb) ==> ca@ != cb@))
}

/// The index invariant: every entry well-shaped, every neighbouring pair of
/// one file's history admissible.
pub open spec fn index_wf(h: Seq<HistoryEntry>) -> bool {
    &&& (forall|i: int| 0 <= i < h.len() ==> entry_shape_ok(#[trigger] h[i]))
    &&& (forall|i: int, j: int| is_succ_for_file(h, i, j) ==> pair_ok(h[i], h[j]))
}

/// The set of checksums some entry references.
pub open spec fn referenced(h: Seq<HistoryEntry>) -> Set<Seq<char>> {
    Set::new(
        |c: Seq<char>|
            exists|i: int|
                0 <= i < h.len() && ((#[trigger] h[i].checksum) matches Some(cs) && cs@ == c),
    )
}

/// The last entry for a file, if any, names it.
pub proof fn lemma_last_index_for(h: Seq<HistoryEntry>, f: Seq<char>)
    ensures
        last_index_for(h, f) == -1 || 0 <= last_index_for(h, f) < h.len(),
        last_index_for(h, f) >= 0 ==> h[last_index_for(h, f)].file@ == f,
        forall|k: int| last_index_for(h, f) < k < h.len() ==> h[k].file@ != f,
    decreases h.len(),
{
    if h.len() > 0 && h.last().file@ != f {
        lemma_last_index_for(h.drop_last(), f);
        assert(forall|k: int| 0 <= k < h.len() - 1 ==> h[k] == h.drop_last()[k]);
    }
}

/// Appending an entry moves the last index of its own file to the end and
/// leaves every other file's last index alone.
pub proof fn lemma_last_index_push(h: Seq<HistoryEntry>, e: HistoryEntry, f: Seq<char>)
    ensures
        e.file@ == f ==> last_index_for(h.push(e), f) == h.len(),
        e.file@ != f ==> last_index_for(h.push(e), f) == last_index_for(h, f),
{
    assert(h.push(e).drop_last() =~= h);
}

/// The neighbouring pairs of a pushed sequence: the old ones, plus the one
/// that ties the new entry to its file's former last entry.
pub proof fn lemma_succ_push(h: Seq<HistoryEntry>, e: HistoryEntry, i: int, j: int)
    requires
        is_succ_for_file(h.push(e), i, j),
    ensures
        j < h.len() ==> is_succ_for_file(h, i, j),
        j == h.len() ==> i == last_index_for(h, e.file@) && h[i].file@ == e.file@,
{
    if j < h.len() {
        assert(h.push(e).take(j) =~= h.take(j));
    } else {
        assert(h.push(e).take(j) =~= h);
        lemma_last_index_for(h, e.file@);
    }
}

/// No Delete after Delete: in a well-formed index, what follows a file's
/// `Delete` is a `Create` — never another `Delete`.
pub proof fn lemma_no_delete_after_delete(h: Seq<HistoryEntry>, i: int, j: int)
    requires
        index_wf(h),
        is_succ_for_file(h, i, j),
        h[i].op is Delete,
    ensures
        h[j].op is Create,
        !(h[j].op is Delete),
{
}

/// Path normalization: every file key a well-formed index stores uses
/// forward-slash separators.
pub proof fn lemma_paths_normalized(h: Seq<HistoryEntry>, i: int)
    requires
        index_wf(h),
        0 <= i < h.len(),
    ensures
        is_normalized(h[i].file@),
{
}

/// Appending an entry keeps the index well-formed, provided the entry is
/// well-shaped and forms an admissible pair with its file's last entry.
pub proof fn lemma_wf_push(h: Seq<HistoryEntry>, e: HistoryEntry)
    requires
        index_wf(h),
        entry_shape_ok(e),
        last_index_for(h, e.file@) >= 0 ==> pair_ok(h[last_index_for(h, e.file@)], e),
    ensures
        index_wf(h.push(e)),
{
    let h1 = h.push(e);
    assert forall|i: int| 0 <= i < h1.len() implies entry_shape_ok(h1[i]) by {
        if i < h.len() {
            assert(h1[i] == h[i]);
        } else {
            assert(h1[i] == e);
        }
    }
    assert forall|i: int, j: int| is_succ_for_file(h1, i, j) implies pair_ok(h1[i], h1[j]) by {
        lemma_succ_push(h, e, i, j);
        if j < h.len() {
            assert(h1[i] == h[i]);
            assert(h1[j] == h[j]);
        } else {
            assert(h1[i] == h[i]);
            assert(h1[j] == e);
        }
    }
}

} // verus!
