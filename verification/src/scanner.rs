//! The full-tree scan, as decisions over plain values: the fast skip for
//! unchanged files, recording one observed file, and deletion detection
//! for tracked files the walk did not see. The walk itself, hashing and
//! saving are the caller's; every decision is made here.

use vstd::prelude::*;

verus! {

use crate::config::{matches_path_spec, Config};
use crate::storage::{
    delete_decision, snapshot_decision, view_wf, IndexView, Storage,
};
use crate::types::{
    entry_shape_ok, index_wf, is_checksum, last_index_for, lemma_last_index_for,
    lemma_last_index_push, HistoryEntry, Index, Operation,
};
use crate::path_util::{lemma_normalized_id, normalized, valid_rel_key};
use crate::text::str_eq;

/// What one scan saw: files newly recorded, changed, gone, and untouched.
pub struct ScanResult {
    pub created: usize,
    pub modified: usize,
    pub deleted: usize,
    pub unchanged: usize,
}

/// One scan pass over a watched root: the configuration that filters the
/// walk and the storage whose index the scan updates.
pub struct Scanner {
    pub root_dir: String,
    pub config: Config,
    pub storage: Storage,
}

/// Whether `f` appears in the list of files the walk has seen.
pub open spec fn in_seen(seen: Seq<String>, f: Seq<char>) -> bool {
    exists|i: int| 0 <= i < seen.len() && (#[trigger] seen[i])@ == f
}

impl Scanner {
    /// A scanner over `root_dir` with the given filter and storage.
    pub fn new(root_dir: String, config: Config, storage: Storage) -> (r: Scanner)
        ensures
            r.root_dir == root_dir,
            r.config == config,
            r.storage == storage,
    {
        Scanner { root_dir, config, storage }
    }

    /// The fast path: a file need not be rehashed when its last entry is
    /// live and records the same size and modification time.
    pub fn fast_path_unchanged(
        &self,
        index: &Index,
        view: &IndexView,
        file_key: &str,
        size: u64,
        mtime_nanos: Option<i64>,
    ) -> (r: bool)
        requires
            view_wf(view.last_by_file@, index.history@),
        ensures
            r == ({
                let h = index.history@;
                let li = last_index_for(h, file_key@);
                &&& li >= 0
                &&& !(h[li].op is Delete)
                &&& h[li].size == Some(size)
                &&& h[li].mtime_nanos == mtime_nanos
            }),
    {
        proof {
            lemma_last_index_for(index.history@, file_key@);
        }
        match view.last_entry_for_file(index, file_key) {
            None => false,
            Some(last) => {
                if last.op == Operation::Delete {
                    return false;
                }
                let size_same = match last.size {
                    Some(s) => s == size,
                    None => false,
                };
                if !size_same {
                    return false;
                }
                match (last.mtime_nanos, mtime_nanos) {
                    (Some(a), Some(b)) => a == b,
                    (None, None) => true,
                    _ => false,
                }
            },
        }
    }

    /// Applies one observed file to the index and the counters: a `Create`
    /// or `Modify` entry counts as such; a dropped recording (stale stage,
    /// empty file, or unchanged content) counts as unchanged. Returns the
    /// recorded operation, after which the caller publishes the staged
    /// bytes; on `None` the caller discards them. Only a path the filter
    /// admits may be recorded: an excluded path never enters the index
    /// through the scan.
    pub fn apply_scan_file(
        &self,
        result: &mut ScanResult,
        index: &mut Index,
        view: &mut IndexView,
        rel_path: &str,
        checksum: String,
        size: u64,
        current_size: u64,
        mtime_nanos: Option<i64>,
        timestamp: i64,
    ) -> (r: Option<Operation>)
        requires
            view_wf(old(view).last_by_file@, old(index).history@),
            index_wf(old(index).history@),
            is_checksum(checksum@),
            valid_rel_key(normalized(rel_path@)),
            matches_path_spec(self.config, rel_path@),
            old(result).created < usize::MAX,
            old(result).modified < usize::MAX,
            old(result).unchanged < usize::MAX,
        ensures
            view_wf(final(view).last_by_file@, final(index).history@),
            index_wf(final(index).history@),
            r == (if current_size != size || size == 0 {
                None::<Operation>
            } else {
                snapshot_decision(old(index).history@, normalized(rel_path@), checksum@)
            }),
            r is None ==> final(index).history@ == old(index).history@,
            r is None ==> *final(view) == *old(view),
            r matches Some(op) ==> ({
                let h0 = old(index).history@;
                let h1 = final(index).history@;
                &&& h1.len() == h0.len() + 1
                &&& h1.drop_last() == h0
                &&& h1.last().timestamp == timestamp
                &&& h1.last().op == op
                &&& h1.last().file@ == normalized(rel_path@)
                &&& (h1.last().checksum matches Some(c) && c@ == checksum@)
                &&& h1.last().size == Some(size)
                &&& h1.last().mtime_nanos == mtime_nanos
            }),
            final(result).created == old(result).created + (if r == Some(Operation::Create) {
                1int
            } else {
                0int
            }),
            final(result).modified == old(result).modified + (if r == Some(Operation::Modify) {
                1int
            } else {
                0int
            }),
            final(result).unchanged == old(result).unchanged + (if r is None {
                1int
            } else {
                0int
            }),
            final(result).deleted == old(result).deleted,
    {
        let r = self.storage.save_snapshot_with_index(
            rel_path,
            checksum,
            size,
            current_size,
            mtime_nanos,
            timestamp,
            index,
            view,
        );
        match r {
            Some(Operation::Create) => {
                result.created = result.created + 1;
            },
            Some(Operation::Modify) => {
                result.modified = result.modified + 1;
            },
            Some(Operation::Delete) => {},
            None => {
                result.unchanged = result.unchanged + 1;
            },
        }
        r
    }

    /// The scan's gate and recorder in one: checks the key shape and the
    /// filter itself and records only what both admit. `None` means the
    /// path is no well-formed key or the filter refuses it, and nothing
    /// changed; `Some` carries the recording outcome, exactly as
    /// `apply_scan_file` describes it.
    pub fn scan_file(
        &self,
        result: &mut ScanResult,
        index: &mut Index,
        view: &mut IndexView,
        rel_path: &str,
        checksum: String,
        size: u64,
        current_size: u64,
        mtime_nanos: Option<i64>,
        timestamp: i64,
    ) -> (r: Option<Option<Operation>>)
        requires
            view_wf(old(view).last_by_file@, old(index).history@),
            index_wf(old(index).history@),
            is_checksum(checksum@),
            old(result).created < usize::MAX,
            old(result).modified < usize::MAX,
            old(result).unchanged < usize::MAX,
        ensures
            view_wf(final(view).last_by_file@, final(index).history@),
            index_wf(final(index).history@),
            r is None ==> !(valid_rel_key(normalized(rel_path@)) && matches_path_spec(
                self.config,
                rel_path@,
            )),
            r is None ==> final(index).history@ == old(index).history@ && *final(view) == *old(
                view,
            ) && *final(result) == *old(result),
            r matches Some(inner) ==> ({
                let h0 = old(index).history@;
                let h1 = final(index).history@;
                &&& valid_rel_key(normalized(rel_path@))
                &&& matches_path_spec(self.config, rel_path@)
                &&& inner == (if current_size != size || size == 0 {
                    None::<Operation>
                } else {
                    snapshot_decision(h0, normalized(rel_path@), checksum@)
                })
                &&& (inner is None ==> h1 == h0 && *final(view) == *old(view))
                &&& (inner matches Some(op) ==> ({
                    &&& h1.len() == h0.len() + 1
                    &&& h1.drop_last() == h0
                    &&& h1.last().timestamp == timestamp
                    &&& h1.last().op == op
                    &&& h1.last().file@ == normalized(rel_path@)
                    &&& (h1.last().checksum matches Some(c) && c@ == checksum@)
                    &&& h1.last().size == Some(size)
                    &&& h1.last().mtime_nanos == mtime_nanos
                }))
                &&& final(result).created == old(result).created + (if inner == Some(
                    Operation::Create,
                ) {
                    1int
                } else {
                    0int
                })
                &&& final(result).modified == old(result).modified + (if inner == Some(
                    Operation::Modify,
                ) {
                    1int
                } else {
                    0int
                })
                &&& final(result).unchanged == old(result).unchanged + (if inner is None {
                    1int
                } else {
                    0int
                })
                &&& final(result).deleted == old(result).deleted
            }),
    {
        if !crate::path_util::is_valid_rel_key(rel_path) {
            return None;
        }
        if !self.config.matches_path(rel_path) {
            return None;
        }
        Some(
            self.apply_scan_file(
                result,
                index,
                view,
                rel_path,
                checksum,
                size,
                current_size,
                mtime_nanos,
                timestamp,
            ),
        )
    }

    /// Phase two of a scan: every tracked file whose last entry is live
    /// but which the walk did not see gets a `Delete` entry; the deleted
    /// counter grows by the number of entries appended.
    #[verifier::loop_isolation(false)]
    #[verifier::rlimit(60)]
    pub fn detect_deletes(
        &self,
        seen: &Vec<String>,
        result: &mut ScanResult,
        index: &mut Index,
        view: &mut IndexView,
        timestamp: i64,
    ) -> (r: usize)
        requires
            view_wf(old(view).last_by_file@, old(index).history@),
            index_wf(old(index).history@),
            old(result).deleted + old(view).last_by_file@.len() <= usize::MAX,
        ensures
            view_wf(final(view).last_by_file@, final(index).history@),
            index_wf(final(index).history@),
            final(result).deleted == old(result).deleted + r,
            final(result).created == old(result).created,
            final(result).modified == old(result).modified,
            final(result).unchanged == old(result).unchanged,
            ({
                let h0 = old(index).history@;
                let h1 = final(index).history@;
                &&& h1.len() == h0.len() + r
                &&& h1.take(h0.len() as int) == h0
                &&& (forall|k: int|
                    h0.len() <= k < h1.len() ==> ({
                        let e = #[trigger] h1[k];
                        &&& e.op is Delete
                        &&& e.checksum is None
                        &&& e.timestamp == timestamp
                        &&& delete_decision(h0, e.file@)
                        &&& !in_seen(seen@, e.file@)
                    }))
                &&& (forall|k1: int, k2: int|
                    h0.len() <= k1 < k2 < h1.len() ==> (#[trigger] h1[k1]).file@ != (
                    #[trigger] h1[k2]).file@)
                &&& (forall|fp: Seq<char>|
                    #![trigger delete_decision(h0, fp)]
                    delete_decision(h0, fp) && !in_seen(seen@, fp) ==> exists|k: int|
                        h0.len() <= k < h1.len() && (#[trigger] h1[k]).file@ == fp)
            }),
    {
        let ghost h0 = index.history@;
        // Collect the files to mark deleted from the view.
        let mut to_delete: Vec<String> = Vec::new();
        let n = view.last_by_file.len();
        let mut j: usize = 0;
        while j < n
            invariant
                n == view.last_by_file@.len(),
                j <= n,
                forall|m: int|
                    0 <= m < to_delete@.len() ==> delete_decision(h0, (#[trigger] to_delete@[m])@)
                        && !in_seen(seen@, to_delete@[m]@),
                forall|m: int|
                    0 <= m < to_delete@.len() ==> exists|j0: int|
                        0 <= j0 < j && (#[trigger] to_delete@[m])@ == view.last_by_file@[j0].0@,
                forall|m1: int, m2: int|
                    0 <= m1 < m2 < to_delete@.len() ==> (#[trigger] to_delete@[m1])@ != (
                    #[trigger] to_delete@[m2])@,
                forall|j0: int|
                    0 <= j0 < j && delete_decision(h0, (#[trigger] view.last_by_file@[j0]).0@)
                        && !in_seen(seen@, view.last_by_file@[j0].0@) ==> exists|m: int|
                        0 <= m < to_delete@.len() && (#[trigger] to_delete@[m])@
                            == view.last_by_file@[j0].0@,
                to_delete@.len() <= j,
            decreases n - j,
        {
            let ghost v = view.last_by_file@;
            let ghost td0 = to_delete@;
            proof {
                lemma_last_index_for(h0, v[j as int].0@);
                assert(v[j as int].1 == last_index_for(h0, v[j as int].0@));
            }
            let i = view.last_by_file[j].1;
            if index.history[i].op != Operation::Delete {
                if !Self::seen_contains(seen, view.last_by_file[j].0.as_str()) {
                    to_delete.push(view.last_by_file[j].0.clone());
                    proof {
                        assert(to_delete@[td0.len() as int]@ == v[j as int].0@);
                        assert forall|m1: int, m2: int|
                            0 <= m1 < m2 < to_delete@.len() implies (#[trigger] to_delete@[m1])@
                            != (#[trigger] to_delete@[m2])@ by {
                            if m2 == to_delete@.len() - 1 {
                                let j0 = choose|j0: int|
                                    0 <= j0 < j && (#[trigger] td0[m1])@ == v[j0].0@;
                                assert(v[j0].0@ != v[j as int].0@);
                            } else {
                                assert(td0[m1] == to_delete@[m1]);
                                assert(td0[m2] == to_delete@[m2]);
                            }
                        }
                    }
                }
            }
            proof {
                assert(forall|mm: int|
                    0 <= mm < td0.len() ==> #[trigger] to_delete@[mm] == td0[mm]);
                assert forall|mm: int| 0 <= mm < to_delete@.len() implies exists|j0: int|
                    0 <= j0 < j + 1 && (#[trigger] to_delete@[mm])@ == v[j0].0@ by {
                    if mm < td0.len() {
                        assert(to_delete@[mm] == td0[mm]);
                        let j0 = choose|j0: int| 0 <= j0 < j && (#[trigger] td0[mm])@ == v[j0].0@;
                        assert(to_delete@[mm]@ == v[j0].0@);
                    } else {
                        assert(to_delete@[mm]@ == v[j as int].0@);
                    }
                }
                assert forall|j0: int|
                    0 <= j0 < j + 1 && delete_decision(h0, (#[trigger] v[j0]).0@) && !in_seen(
                    seen@,
                    v[j0].0@,
                ) implies exists|m: int|
                    0 <= m < to_delete@.len() && (#[trigger] to_delete@[m])@ == v[j0].0@ by {
                    if j0 < j {
                        let mm = choose|mm: int|
                            0 <= mm < td0.len() && (#[trigger] td0[mm])@ == v[j0].0@;
                        assert(to_delete@[mm] == td0[mm]);
                    } else {
                        assert(to_delete@[to_delete@.len() - 1]@ == v[j as int].0@);
                    }
                }
            }
            j = j + 1;
        }
        // Every live unseen file is in the collected list.
        proof {
            assert forall|fp: Seq<char>|
                #![trigger delete_decision(h0, fp)]
                delete_decision(h0, fp) && !in_seen(seen@, fp) implies exists|m: int|
                0 <= m < to_delete@.len() && (#[trigger] to_delete@[m])@ == fp by {
                lemma_last_index_for(h0, fp);
                let li = last_index_for(h0, fp);
                assert(h0[li].file@ == fp);
                assert(exists|j0: int|
                    0 <= j0 < view.last_by_file@.len() && (#[trigger] view.last_by_file@[j0]).0@
                        == h0[li].file@);
                let j0 = choose|j0: int|
                    0 <= j0 < view.last_by_file@.len() && (#[trigger] view.last_by_file@[j0]).0@
                        == h0[li].file@;
                assert(delete_decision(h0, view.last_by_file@[j0].0@));
            }
        }
        // Append one Delete entry per collected file.
        let count = to_delete.len();
        let ghost tdl = to_delete@;
        let mut m: usize = 0;
        while m < count
            invariant
                view_wf(view.last_by_file@, index.history@),
                index_wf(index.history@),
                count == tdl.len(),
                to_delete@ == tdl,
                m <= count,
                index.history@.len() == h0.len() + m,
                index.history@.take(h0.len() as int) == h0,
                forall|k: int|
                    h0.len() <= k < index.history@.len() ==> ({
                        let e = #[trigger] index.history@[k];
                        &&& e.op is Delete
                        &&& e.checksum is None
                        &&& e.timestamp == timestamp
                        &&& e.file@ == tdl[k - h0.len()]@
                    }),
                forall|mm: int|
                    m <= mm < tdl.len() ==> last_index_for(index.history@, (#[trigger] tdl[mm])@)
                        == last_index_for(h0, tdl[mm]@),
            decreases count - m,
        {
            let ghost hc = index.history@;
            let ghost fm = tdl[m as int]@;
            proof {
                lemma_last_index_for(h0, fm);
                let li = last_index_for(h0, fm);
                assert(h0[li].file@ == fm);
                assert(entry_shape_ok(h0[li]));
                lemma_normalized_id(fm);
                assert(last_index_for(hc, fm) == li);
                assert(hc[li] == hc.take(h0.len() as int)[li]);
                assert(delete_decision(hc, fm));
            }
            let item = to_delete[m].clone();
            let res = self.storage.record_delete_with_index(item.as_str(), timestamp, index, view);
            proof {
                let h1 = index.history@;
                assert(res is Some);
                assert(h1.drop_last() == hc);
                assert(h1.take(h0.len() as int) =~= hc.take(h0.len() as int));
                assert(h1.last().file@ == fm);
                assert forall|k: int| h0.len() <= k < h1.len() implies ({
                    let e = #[trigger] h1[k];
                    &&& e.op is Delete
                    &&& e.checksum is None
                    &&& e.timestamp == timestamp
                    &&& e.file@ == tdl[k - h0.len()]@
                }) by {
                    if k < h1.len() - 1 {
                        assert(h1[k] == hc[k]);
                    }
                }
                assert forall|mm: int| m + 1 <= mm < tdl.len() implies last_index_for(
                    h1,
                    (#[trigger] tdl[mm])@,
                ) == last_index_for(h0, tdl[mm]@) by {
                    assert(tdl[mm]@ != fm);
                    assert(h1 == hc.push(h1.last()));
                    lemma_last_index_push(hc, h1.last(), tdl[mm]@);
                }
            }
            m = m + 1;
        }
        result.deleted = result.deleted + count;
        proof {
            let h1 = index.history@;
            assert forall|k1: int, k2: int| h0.len() <= k1 < k2 < h1.len() implies (
            #[trigger] h1[k1]).file@ != (#[trigger] h1[k2]).file@ by {
                assert(h1[k1].file@ == tdl[k1 - h0.len()]@);
                assert(h1[k2].file@ == tdl[k2 - h0.len()]@);
            }
            assert forall|fp: Seq<char>|
                #![trigger delete_decision(h0, fp)]
                delete_decision(h0, fp) && !in_seen(seen@, fp) implies exists|k: int|
                h0.len() <= k < h1.len() && (#[trigger] h1[k]).file@ == fp by {
                let mm = choose|mm: int| 0 <= mm < tdl.len() && (#[trigger] tdl[mm])@ == fp;
                assert(h1[h0.len() + mm].file@ == fp);
            }
        }
        count
    }

    /// Whether the walk saw exactly this file key.
    #[verifier::loop_isolation(false)]
    fn seen_contains(seen: &Vec<String>, f: &str) -> (r: bool)
        ensures
            r == in_seen(seen@, f@),
    {
        let n = seen.len();
        let mut i: usize = 0;
        while i < n
            invariant
                i <= n,
                forall|k: int| 0 <= k < i ==> (#[trigger] seen@[k])@ != f@,
            decreases n - i,
        {
            if str_eq(seen[i].as_str(), f) {
                return true;
            }
            i = i + 1;
        }
        false
    }
}

} // verus!
