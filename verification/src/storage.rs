//! The history index and its operations: the last-entry-per-file view,
//! recording snapshots and deletions, trimming to quota, orphan collection,
//! and the read-side listings. All decisions are made here over plain
//! values; reading and writing the disk stays with the caller.

use vstd::prelude::*;

verus! {

use crate::path_util::{
    lemma_normalized_id, normalize_rel_path, normalized, path_under_prefix, trim_trailing_slashes,
    trimmed_slashes, under_prefix, valid_rel_key,
};
use crate::types::{
    entry_shape_ok, index_wf, is_checksum, is_hex_char, is_succ_for_file, last_index_for,
    lemma_last_index_for, lemma_last_index_push, lemma_succ_push, lemma_wf_push, pair_ok,
    referenced, CleanResult, HistoryEntry, Index, Operation,
};
use crate::text::str_eq;

/// What recording a snapshot of `f` with this `checksum` does to history
/// `h`: `None` when the content equals the file's live last entry (the
/// recording is dropped), otherwise the operation of the appended entry.
pub open spec fn snapshot_decision(h: Seq<HistoryEntry>, f: Seq<char>, checksum: Seq<char>) -> Option<
    Operation,
> {
    let li = last_index_for(h, f);
    if li < 0 {
        Some(Operation::Create)
    } else if h[li].op is Delete {
        Some(Operation::Create)
    } else if h[li].checksum matches Some(c) && c@ == checksum {
        None
    } else {
        Some(Operation::Modify)
    }
}

/// Whether recording a deletion of `f` appends an entry: only when `f` is
/// tracked and not already deleted.
pub open spec fn delete_decision(h: Seq<HistoryEntry>, f: Seq<char>) -> bool {
    last_index_for(h, f) >= 0 && !(h[last_index_for(h, f)].op is Delete)
}

/// Bytes of one entry, when it recorded any.
pub open spec fn entry_size(e: HistoryEntry) -> int {
    match e.size {
        Some(s) => s as int,
        None => 0,
    }
}

/// Whether checksum `c` occurs strictly after position `i`.
pub open spec fn checksum_after(h: Seq<HistoryEntry>, i: int, c: Seq<char>) -> bool {
    exists|k: int| i < k < h.len() && ((#[trigger] h[k].checksum) matches Some(cc) && cc@ == c)
}

/// Total bytes of the distinct snapshots referenced at or after position
/// `i`: each checksum counted once, at its last occurrence, with that
/// entry's recorded size.
pub open spec fn ref_bytes_from(h: Seq<HistoryEntry>, i: int) -> int
    decreases h.len() - i when 0 <= i <= h.len()
{
    if i >= h.len() {
        0
    } else if h[i].checksum matches Some(c) && !checksum_after(h, i, c@) {
        ref_bytes_from(h, i + 1) + entry_size(h[i])
    } else {
        ref_bytes_from(h, i + 1)
    }
}

/// Total bytes of the distinct snapshots the whole history references.
pub open spec fn referenced_bytes(h: Seq<HistoryEntry>) -> int {
    ref_bytes_from(h, 0)
}

/// Total size of a listing of snapshot files.
pub open spec fn sum_sizes(s: Seq<(String, u64)>) -> int
    decreases s.len(),
{
    if s.len() == 0 {
        0
    } else {
        sum_sizes(s.drop_last()) + s.last().1
    }
}

/// The entries of one file.
pub open spec fn file_pred(f: Seq<char>) -> spec_fn(HistoryEntry) -> bool {
    |e: HistoryEntry| e.file@ == f
}

/// The activity filter: a timestamp window; unless deleted files are
/// wanted, entries of files whose last entry is a `Delete` are left out.
pub open spec fn activity_pred(
    h: Seq<HistoryEntry>,
    since: i64,
    until: i64,
    include_deleted: bool,
) -> spec_fn(HistoryEntry) -> bool {
    |e: HistoryEntry|
        since <= e.timestamp <= until && (include_deleted || !(h[last_index_for(h, e.file@)].op
            is Delete))
}

/// How many entries speak of file `f`.
pub open spec fn count_for(h: Seq<HistoryEntry>, f: Seq<char>) -> int {
    h.filter(file_pred(f)).len() as int
}

/// Idempotence: once a snapshot of a file stands as its last entry,
/// recording the same content again changes nothing — the decision for
/// that file and checksum is to drop the recording.
pub proof fn lemma_record_idempotent(h: Seq<HistoryEntry>, e: HistoryEntry, c: Seq<char>)
    requires
        !(e.op is Delete),
        e.checksum matches Some(cs) && cs@ == c,
    ensures
        snapshot_decision(h.push(e), e.file@, c) is None,
{
    lemma_last_index_push(h, e, e.file@);
    assert(h.push(e)[h.len() as int] == e);
}

/// Content deduplication: an entry just recorded for one file leaves the
/// recording decision of every other file untouched. Two files written
/// with identical bytes thus each get an entry naming the same checksum,
/// while the store keeps one snapshot under that name.
pub proof fn lemma_content_dedup(h: Seq<HistoryEntry>, e: HistoryEntry, f2: Seq<char>, c: Seq<char>)
    requires
        e.file@ != f2,
    ensures
        snapshot_decision(h.push(e), f2, c) == snapshot_decision(h, f2, c),
{
    lemma_last_index_push(h, e, f2);
    lemma_last_index_for(h, f2);
    let li = last_index_for(h, f2);
    if li >= 0 {
        assert(h.push(e)[li] == h[li]);
    }
}

/// Restore round trip: bytes that verify against the checksum a restore
/// request resolved to hash back to exactly the checksum recorded in the
/// matched entry, so a restored file's content rehashes to it.
pub proof fn lemma_restore_round_trip(
    h: Seq<HistoryEntry>,
    f: Seq<char>,
    pfx: Seq<char>,
    bytes: Seq<u8>,
    c: Seq<char>,
)
    requires
        first_restore_match(h, f, pfx) >= 0,
        h[first_restore_match(h, f, pfx)].checksum matches Some(cs) && cs@ == c,
        crate::hashing::sha256_hex(bytes) == c,
    ensures
        h[first_restore_match(h, f, pfx)].checksum matches Some(cs2) && crate::hashing::sha256_hex(
            bytes,
        ) == cs2@,
{
}

/// Counting referenced bytes from position `i` is counting them over the
/// sequence with the first `k` entries dropped.
pub proof fn lemma_ref_bytes_skip(h: Seq<HistoryEntry>, k: int, i: int)
    requires
        0 <= k <= i <= h.len(),
    ensures
        ref_bytes_from(h, i) == ref_bytes_from(h.skip(k), i - k),
    decreases h.len() - i,
{
    let s = h.skip(k);
    if i < h.len() {
        lemma_ref_bytes_skip(h, k, i + 1);
        assert(s[i - k] == h[i]);
        match h[i].checksum {
            Some(cs) => {
                assert(checksum_after(h, i, cs@) == checksum_after(s, i - k, cs@)) by {
                    if checksum_after(h, i, cs@) {
                        let j = choose|j: int|
                            i < j < h.len() && ((#[trigger] h[j].checksum) matches Some(cc) && cc@
                                == cs@);
                        assert(s[j - k] == h[j]);
                        assert(i - k < j - k < s.len() && ((#[trigger] s[j - k].checksum)
                            matches Some(cc) && cc@ == cs@));
                    }
                    if checksum_after(s, i - k, cs@) {
                        let j2 = choose|j2: int|
                            i - k < j2 < s.len() && ((#[trigger] s[j2].checksum) matches Some(cc)
                                && cc@ == cs@);
                        assert(h[j2 + k] == s[j2]);
                        assert(i < j2 + k < h.len() && ((#[trigger] h[j2 + k].checksum)
                            matches Some(cc) && cc@ == cs@));
                    }
                }
            },
            None => {},
        }
    }
}

/// Quota: after a trim that took `k` entries off the front, what remains
/// satisfies both the entry cap and the byte quota, or is empty — stated
/// over the remaining sequence itself.
pub proof fn lemma_trim_meets_quota(h: Seq<HistoryEntry>, k: int, max_history: int, max_quota: int)
    requires
        0 <= k <= h.len(),
        (h.len() - k <= max_history && ref_bytes_from(h, k) <= max_quota) || k == h.len(),
    ensures
        (h.skip(k).len() <= max_history && referenced_bytes(h.skip(k)) <= max_quota) || h.skip(
            k,
        ).len() == 0,
{
    lemma_ref_bytes_skip(h, k, k);
}

/// Orphan-freedom after a clean: a snapshot file that the listing held
/// and that neither delete list names is referenced by the trimmed index.
pub proof fn lemma_orphan_free_after_clean(
    files: Seq<(String, u64)>,
    h1: Seq<HistoryEntry>,
    trim_list: Seq<String>,
    orphans: Seq<(String, u64)>,
    i: int,
)
    requires
        forall|i2: int|
            0 <= i2 < files.len() ==> ({
                let p = #[trigger] files[i2];
                (is_checksum(p.0@) && !referenced(h1).contains(p.0@)) ==> ((exists|m: int|
                    0 <= m < trim_list.len() && (#[trigger] trim_list[m])@ == p.0@) || (exists|
                    m: int|
                    0 <= m < orphans.len() && (#[trigger] orphans[m]).0@ == p.0@))
            }),
        0 <= i < files.len(),
        is_checksum(files[i].0@),
        forall|m: int| 0 <= m < trim_list.len() ==> (#[trigger] trim_list[m])@ != files[i].0@,
        forall|m: int| 0 <= m < orphans.len() ==> (#[trigger] orphans[m]).0@ != files[i].0@,
    ensures
        referenced(h1).contains(files[i].0@),
{
    if !referenced(h1).contains(files[i].0@) {
        if exists|m: int| 0 <= m < trim_list.len() && (#[trigger] trim_list[m])@ == files[i].0@ {
            let m = choose|m: int|
                0 <= m < trim_list.len() && (#[trigger] trim_list[m])@ == files[i].0@;
            assert(false);
        } else {
            let m = choose|m: int|
                0 <= m < orphans.len() && (#[trigger] orphans[m]).0@ == files[i].0@;
            assert(false);
        }
    }
}

/// A file counted at least once has an entry.
pub proof fn lemma_count_pos_has_entry(h: Seq<HistoryEntry>, f: Seq<char>)
    requires
        count_for(h, f) > 0,
    ensures
        exists|i: int| 0 <= i < h.len() && (#[trigger] h[i]).file@ == f,
    decreases h.len(),
{
    reveal(Seq::filter);
    if h.len() > 0 {
        if h.last().file@ == f {
            assert(h[h.len() - 1].file@ == f);
        } else {
            lemma_count_pos_has_entry(h.drop_last(), f);
            let i = choose|i: int| 0 <= i < h.drop_last().len() && (#[trigger] h.drop_last()[i]).file@ == f;
            assert(h[i].file@ == f);
        }
    }
}

/// Why a restore request cannot be resolved.
#[derive(Clone, Copy, PartialEq, Eq, Structural, Debug)]
pub enum RestoreError {
    /// The checksum prefix is shorter than eight hex digits, or not hex.
    PrefixTooShort,
    /// No entry of the file matches the prefix.
    NotFound,
    /// Matching entries carry different checksums.
    Ambiguous,
}

/// A usable restore prefix: at least eight lowercase hex digits.
pub open spec fn valid_checksum_prefix(s: Seq<char>) -> bool {
    8 <= s.len() && (forall|i: int| 0 <= i < s.len() ==> is_hex_char(#[trigger] s[i]))
}

/// Two entries matching the request carry different checksums: the
/// prefix does not name one version.
pub open spec fn restore_matches_differ(h: Seq<HistoryEntry>, f: Seq<char>, pfx: Seq<char>) -> bool {
    exists|i: int, j: int|
        #![trigger h[i], h[j]]
        0 <= i < j < h.len() && entry_matches_restore(h[i], f, pfx) && entry_matches_restore(
            h[j],
            f,
            pfx,
        ) && (h[i].checksum matches Some(ci) ==> (h[j].checksum matches Some(cj) ==> ci@ != cj@))
}

/// Whether an entry is the one a restore request names: same file once
/// separators are normalized, and a checksum beginning with the prefix.
pub open spec fn entry_matches_restore(e: HistoryEntry, f: Seq<char>, pfx: Seq<char>) -> bool {
    normalized(e.file@) == f && (e.checksum matches Some(cs) && pfx.len() <= cs@.len()
        && cs@.take(pfx.len() as int) == pfx)
}

/// Position of the first (oldest) entry a restore request matches, or -1.
pub open spec fn first_restore_match(h: Seq<HistoryEntry>, f: Seq<char>, pfx: Seq<char>) -> int
    decreases h.len(),
{
    if h.len() == 0 {
        -1
    } else if entry_matches_restore(h[0], f, pfx) {
        0
    } else {
        let r = first_restore_match(h.drop_first(), f, pfx);
        if r < 0 {
            -1
        } else {
            r + 1
        }
    }
}

/// The first restore match, if any, is a match, and nothing before it is.
pub proof fn lemma_first_restore_match(h: Seq<HistoryEntry>, f: Seq<char>, pfx: Seq<char>)
    ensures
        first_restore_match(h, f, pfx) == -1 ==> (forall|i: int|
            0 <= i < h.len() ==> !entry_matches_restore(#[trigger] h[i], f, pfx)),
        first_restore_match(h, f, pfx) != -1 ==> ({
            let m = first_restore_match(h, f, pfx);
            &&& 0 <= m < h.len()
            &&& entry_matches_restore(h[m], f, pfx)
            &&& (forall|i: int| 0 <= i < m ==> !entry_matches_restore(#[trigger] h[i], f, pfx))
        }),
    decreases h.len(),
{
    if h.len() > 0 && !entry_matches_restore(h[0], f, pfx) {
        lemma_first_restore_match(h.drop_first(), f, pfx);
        let d = h.drop_first();
        assert(forall|i: int| 0 <= i < d.len() ==> #[trigger] d[i] == h[i + 1]);
        let r = first_restore_match(d, f, pfx);
        if r == -1 {
            assert forall|i: int| 0 <= i < h.len() implies !entry_matches_restore(
                #[trigger] h[i],
                f,
                pfx,
            ) by {
                if i > 0 {
                    assert(!entry_matches_restore(d[i - 1], f, pfx));
                }
            }
        } else {
            assert(h[r + 1] == d[r]);
            assert forall|i: int| 0 <= i < r + 1 implies !entry_matches_restore(
                #[trigger] h[i],
                f,
                pfx,
            ) by {
                if i > 0 {
                    assert(!entry_matches_restore(d[i - 1], f, pfx));
                }
            }
        }
    }
}

/// Referenced bytes never count below zero.
pub proof fn lemma_ref_bytes_nonneg(h: Seq<HistoryEntry>, i: int)
    requires
        0 <= i <= h.len(),
    ensures
        ref_bytes_from(h, i) >= 0,
    decreases h.len() - i,
{
    if i < h.len() {
        lemma_ref_bytes_nonneg(h, i + 1);
    }
}

/// The last entry of one file in a concatenation: in `b` when `b` has one,
/// otherwise wherever `a` keeps it.
pub proof fn lemma_last_index_concat(a: Seq<HistoryEntry>, b: Seq<HistoryEntry>, f: Seq<char>)
    ensures
        last_index_for(b, f) >= 0 ==> last_index_for(a + b, f) == a.len() + last_index_for(b, f),
        last_index_for(b, f) < 0 ==> last_index_for(a + b, f) == last_index_for(a, f),
    decreases b.len(),
{
    if b.len() == 0 {
        assert(a + b =~= a);
    } else {
        let ab = a + b;
        assert(ab.last() == b.last());
        if b.last().file@ == f {
        } else {
            assert(ab.drop_last() =~= a + b.drop_last());
            lemma_last_index_concat(a, b.drop_last(), f);
        }
    }
}

/// Dropping entries from the front keeps the index well-formed.
pub proof fn lemma_wf_skip(h: Seq<HistoryEntry>, k: int)
    requires
        index_wf(h),
        0 <= k <= h.len(),
    ensures
        index_wf(h.skip(k)),
{
    let s = h.skip(k);
    assert forall|i: int| 0 <= i < s.len() implies entry_shape_ok(#[trigger] s[i]) by {
        assert(s[i] == h[i + k]);
    }
    assert forall|i: int, j: int| is_succ_for_file(s, i, j) implies pair_ok(s[i], s[j]) by {
        let f = s[j].file@;
        assert(h.take(j + k) =~= h.take(k) + s.take(j));
        lemma_last_index_concat(h.take(k), s.take(j), f);
        assert(s[i] == h[i + k]);
        assert(s[j] == h[j + k]);
        assert(is_succ_for_file(h, i + k, j + k));
    }
}

/// Handle to one metadata directory: the root of the index file and the
/// snapshot tree, plus the trim limits.
pub struct Storage {
    pub meta_dir: String,
    pub max_history: usize,
    pub max_quota: u64,
}

/// The derived last-entry-per-file lookup: an association list from file
/// key to the position of that file's last entry in the index. Rebuildable
/// from the index alone.
pub struct IndexView {
    pub last_by_file: Vec<(String, usize)>,
}

/// What makes the view faithful to a history sequence: every listed pair
/// maps a file to the position of its last entry, every recorded file is
/// listed, and no file is listed twice.
pub open spec fn view_wf(v: Seq<(String, usize)>, h: Seq<HistoryEntry>) -> bool {
    &&& (forall|j: int| 0 <= j < v.len() ==> (#[trigger] v[j]).1 == last_index_for(h, v[j].0@))
    &&& (forall|i: int|
        0 <= i < h.len() ==> exists|j: int| 0 <= j < v.len() && (#[trigger] v[j]).0@ == (#[trigger] h[i]).file@)
    &&& (forall|j1: int, j2: int|
        0 <= j1 < j2 < v.len() ==> (#[trigger] v[j1]).0@ != (#[trigger] v[j2]).0@)
}

impl IndexView {
    /// The last entry recorded for `file`, if any.
    pub fn last_entry_for_file<'a>(&self, index: &'a Index, file: &str) -> (r: Option<
        &'a HistoryEntry,
    >)
        requires
            view_wf(self.last_by_file@, index.history@),
        ensures
            match r {
                Some(e) => {
                    &&& last_index_for(index.history@, file@) >= 0
                    &&& *e == index.history@[last_index_for(index.history@, file@)]
                },
                None => last_index_for(index.history@, file@) == -1,
            },
    {
        let ghost h = index.history@;
        let n = self.last_by_file.len();
        let mut j: usize = 0;
        while j < n
            invariant
                view_wf(self.last_by_file@, h),
                h == index.history@,
                n == self.last_by_file@.len(),
                j <= n,
                forall|k: int| 0 <= k < j ==> (#[trigger] self.last_by_file@[k]).0@ != file@,
            decreases n - j,
        {
            if str_eq(self.last_by_file[j].0.as_str(), file) {
                proof {
                    lemma_last_index_for(h, file@);
                    assert(self.last_by_file@[j as int].0@ == file@);
                    assert(self.last_by_file@[j as int].1 == last_index_for(h, file@));
                }
                let i = self.last_by_file[j].1;
                return Some(&index.history[i]);
            }
            j = j + 1;
        }
        proof {
            lemma_last_index_for(h, file@);
            if last_index_for(h, file@) >= 0 {
                let li = last_index_for(h, file@);
                assert(0 <= li < h.len());
                assert(h[li].file@ == file@);
                assert(exists|k: int|
                    0 <= k < self.last_by_file@.len() && (#[trigger] self.last_by_file@[k]).0@
                        == h[li].file@);
                let k = choose|k: int|
                    0 <= k < self.last_by_file@.len() && (#[trigger] self.last_by_file@[k]).0@
                        == h[li].file@;
                assert(self.last_by_file@[k].0@ != file@);
                assert(false);
            }
        }
        None
    }

    /// Points `file` at position `idx`, the entry just appended for it.
    pub fn update_last_for_file(&mut self, Ghost(h): Ghost<Seq<HistoryEntry>>, file: String, idx: usize)
        requires
            view_wf(old(self).last_by_file@, h.drop_last()),
            h.len() > 0,
            h.last().file@ == file@,
            idx == h.len() - 1,
        ensures
            view_wf(final(self).last_by_file@, h),
    {
        let ghost h0 = h.drop_last();
        proof {
            assert(h0.push(h.last()) =~= h);
        }
        let n = self.last_by_file.len();
        let mut j: usize = 0;
        while j < n
            invariant
                view_wf(self.last_by_file@, h0),
                h0 == h.drop_last(),
                h.len() > 0,
                h.last().file@ == file@,
                h0.push(h.last()) == h,
                idx == h.len() - 1,
                n == self.last_by_file@.len(),
                j <= n,
                forall|k: int| 0 <= k < j ==> (#[trigger] self.last_by_file@[k]).0@ != file@,
            decreases n - j,
        {
            if str_eq(self.last_by_file[j].0.as_str(), file.as_str()) {
                let ghost v0 = self.last_by_file@;
                let ghost fkey = file@;
                proof {
                    assert(v0[j as int].0@ == fkey);
                }
                let _ = self.last_by_file.remove(j);
                self.last_by_file.push((file, idx));
                proof {
                    let v1 = self.last_by_file@;
                    v0.remove_ensures(j as int);
                    assert(v1.len() == v0.len());
                    assert(v1[v1.len() - 1].0@ == fkey);
                    assert(v1[v1.len() - 1].1 == idx);
                    assert(h.last().file@ == fkey);
                    assert(last_index_for(h, fkey) == h.len() - 1);
                    assert(forall|k: int|
                        0 <= k < v1.len() - 1 ==> #[trigger] v1[k] == v0[(if k < j { k } else {
                            k + 1
                        })]);
                    assert forall|k: int| 0 <= k < v1.len() implies (#[trigger] v1[k]).1
                        == last_index_for(h, v1[k].0@) by {
                        if k < v1.len() - 1 {
                            let k0: int = if k < j { k } else { k + 1 };
                            assert(v1[k] == v0[k0]);
                            assert(v0[j as int].0@ != v0[k0].0@);
                            assert(v0[k0].1 == last_index_for(h0, v0[k0].0@));
                            lemma_last_index_push(h0, h.last(), v0[k0].0@);
                            assert(last_index_for(h, v0[k0].0@) == last_index_for(h0, v0[k0].0@));
                        }
                    }
                    assert forall|i: int| 0 <= i < h.len() implies exists|k: int|
                        0 <= k < v1.len() && (#[trigger] v1[k]).0@ == (#[trigger] h[i]).file@ by {
                        if i < h.len() - 1 {
                            assert(h[i] == h0[i]);
                            assert(exists|k0: int|
                                0 <= k0 < v0.len() && (#[trigger] v0[k0]).0@ == h0[i].file@);
                            let k0 = choose|k0: int|
                                0 <= k0 < v0.len() && (#[trigger] v0[k0]).0@ == h0[i].file@;
                            if k0 == j {
                                assert(v1[v1.len() - 1].0@ == fkey);
                                assert(v1[v1.len() - 1].0@ == h[i].file@);
                            } else {
                                let k: int = if k0 < j { k0 } else { k0 - 1 };
                                assert(v1[k] == v0[k0]);
                                assert(v1[k].0@ == h[i].file@);
                            }
                        } else {
                            assert(v1[v1.len() - 1].0@ == h[i].file@);
                        }
                    }
                    assert forall|k1: int, k2: int| 0 <= k1 < k2 < v1.len() implies (
                    #[trigger] v1[k1]).0@ != (#[trigger] v1[k2]).0@ by {
                        let m1: int = if k1 < j { k1 } else { k1 + 1 };
                        assert(v1[k1] == v0[m1]);
                        if k2 < v1.len() - 1 {
                            let m2: int = if k2 < j { k2 } else { k2 + 1 };
                            assert(v1[k2] == v0[m2]);
                            assert(v0[m1].0@ != v0[m2].0@);
                        } else {
                            assert(m1 != j);
                            assert(v0[m1].0@ != v0[j as int].0@);
                            assert(v1[k2].0@ == fkey);
                        }
                    }
                }
                return ;
            }
            j = j + 1;
        }
        let ghost v0 = self.last_by_file@;
        let ghost fkey = file@;
        self.last_by_file.push((file, idx));
        proof {
            let v1 = self.last_by_file@;
            assert(v1[v1.len() - 1].0@ == fkey);
            assert(v1[v1.len() - 1].1 == idx);
            assert(h.last().file@ == fkey);
            assert(last_index_for(h, fkey) == h.len() - 1);
            assert forall|k: int| 0 <= k < v1.len() implies (#[trigger] v1[k]).1 == last_index_for(
                h,
                v1[k].0@,
            ) by {
                if k < v1.len() - 1 {
                    assert(v1[k] == v0[k]);
                    assert(v0[k].0@ != fkey);
                    assert(v0[k].1 == last_index_for(h0, v0[k].0@));
                    lemma_last_index_push(h0, h.last(), v0[k].0@);
                }
            }
            assert forall|i: int| 0 <= i < h.len() implies exists|k: int|
                0 <= k < v1.len() && (#[trigger] v1[k]).0@ == (#[trigger] h[i]).file@ by {
                if i < h.len() - 1 {
                    assert(h[i] == h0[i]);
                    assert(exists|k0: int|
                        0 <= k0 < v0.len() && (#[trigger] v0[k0]).0@ == h0[i].file@);
                    let k0 = choose|k0: int|
                        0 <= k0 < v0.len() && (#[trigger] v0[k0]).0@ == h0[i].file@;
                    assert(v1[k0] == v0[k0]);
                    assert(v1[k0].0@ == h[i].file@);
                } else {
                    assert(v1[v1.len() - 1].0@ == h[i].file@);
                }
            }
            assert forall|k1: int, k2: int| 0 <= k1 < k2 < v1.len() implies (#[trigger] v1[k1]).0@
                != (#[trigger] v1[k2]).0@ by {
                assert(v1[k1] == v0[k1]);
                if k2 < v1.len() - 1 {
                    assert(v1[k2] == v0[k2]);
                } else {
                    assert(v0[k1].0@ != fkey);
                }
            }
        }
    }

    /// Rebuilds the view from scratch; used after entries were trimmed
    /// from the front.
    pub fn rebuild(&mut self, index: &Index)
        ensures
            view_wf(final(self).last_by_file@, index.history@),
    {
        let fresh = Storage::build_index_view_of(index);
        self.last_by_file = fresh.last_by_file;
    }
}

impl Storage {
    /// A storage handle rooted at `meta_dir` with the given trim limits.
    pub fn new(meta_dir: String, max_history: usize, max_quota: u64) -> (r: Storage)
        ensures
            r.meta_dir == meta_dir,
            r.max_history == max_history,
            r.max_quota == max_quota,
    {
        Storage { meta_dir, max_history, max_quota }
    }

    /// Where the serialized index lives under the metadata directory.
    pub fn index_path(&self) -> (r: String)
        ensures
            r@ == self.meta_dir@ + "/index.json"@,
    {
        let mut p = self.meta_dir.clone();
        p.append("/index.json");
        p
    }

    /// The root of the snapshot tree.
    pub fn snapshots_dir(&self) -> (r: String)
        ensures
            r@ == self.meta_dir@ + "/snapshots"@,
    {
        let mut p = self.meta_dir.clone();
        p.append("/snapshots");
        p
    }

    /// The canonical path of one snapshot, fanned out over two directory
    /// levels named by the checksum's first two characters.
    pub fn snapshot_path(&self, checksum: &str) -> (r: String)
        requires
            checksum@.len() >= 2,
        ensures
            r@ == self.meta_dir@ + "/snapshots/"@ + seq![checksum@[0]] + "/"@ + seq![checksum@[1]]
                + "/"@ + checksum@,
    {
        let mut p = self.meta_dir.clone();
        p.append("/snapshots/");
        crate::text::push_char(&mut p, checksum.get_char(0));
        p.append("/");
        crate::text::push_char(&mut p, checksum.get_char(1));
        p.append("/");
        p.append(checksum);
        proof {
            reveal_strlit("/");
            assert(p@ =~= self.meta_dir@ + "/snapshots/"@ + seq![checksum@[0]] + "/"@ + seq![
                checksum@[1],
            ] + "/"@ + checksum@);
        }
        p
    }

    /// Builds the last-entry-per-file view of an index.
    pub fn build_index_view(&self, index: &Index) -> (r: IndexView)
        ensures
            view_wf(r.last_by_file@, index.history@),
    {
        Self::build_index_view_of(index)
    }

    /// Builds the last-entry-per-file view of an index.
    pub fn build_index_view_of(index: &Index) -> (r: IndexView)
        ensures
            view_wf(r.last_by_file@, index.history@),
    {
        let ghost h = index.history@;
        let mut view = IndexView { last_by_file: Vec::new() };
        let n = index.history.len();
        let mut i: usize = 0;
        proof {
            assert(h.take(0) =~= Seq::<HistoryEntry>::empty());
        }
        while i < n
            invariant
                n == index.history@.len(),
                h == index.history@,
                i <= n,
                view_wf(view.last_by_file@, h.take(i as int)),
            decreases n - i,
        {
            let key = index.history[i].file.clone();
            proof {
                assert(h.take(i + 1).drop_last() =~= h.take(i as int));
                assert(h.take(i + 1).last() == h[i as int]);
            }
            view.update_last_for_file(Ghost(h.take(i + 1)), key, i);
            i = i + 1;
        }
        proof {
            assert(h.take(n as int) =~= h);
        }
        view
    }

    /// Records one staged snapshot of `rel_path` whose bytes hashed to
    /// `checksum` and measured `size` bytes, while the file now measures
    /// `current_size`. A stale stage (sizes differ), an empty file, and
    /// content equal to the file's live last entry are all dropped without
    /// a record; otherwise a `Create` or `Modify` entry is appended. The
    /// caller publishes the staged bytes exactly when an entry comes back.
    pub fn save_snapshot_with_index(
        &self,
        rel_path: &str,
        checksum: String,
        size: u64,
        current_size: u64,
        mtime_nanos: Option<i64>,
        timestamp: i64,
        index: &mut Index,
        view: &mut IndexView,
    ) -> (r: Option<Operation>)
        requires
            view_wf(old(view).last_by_file@, old(index).history@),
            index_wf(old(index).history@),
            is_checksum(checksum@),
            valid_rel_key(normalized(rel_path@)),
        ensures
            view_wf(final(view).last_by_file@, final(index).history@),
            index_wf(final(index).history@),
            r == (if current_size != size || size == 0 {
                None::<Operation>
            } else {
                snapshot_decision(old(index).history@, normalized(rel_path@), checksum@)
            }),
            r is None ==> final(index).history@ == old(index).history@,
            r is None ==> *final(view) == *old(view),
            r matches Some(op) ==> ({
                let h0 = old(index).history@;
                let h1 = final(index).history@;
                &&& h1.len() == h0.len() + 1
                &&& h1.drop_last() == h0
                &&& h1.last().timestamp == timestamp
                &&& h1.last().op == op
                &&& h1.last().file@ == normalized(rel_path@)
                &&& (h1.last().checksum matches Some(c) && c@ == checksum@)
                &&& h1.last().size == Some(size)
                &&& h1.last().mtime_nanos == mtime_nanos
            }),
    {
        if current_size != size {
            return None;
        }
        if size == 0 {
            return None;
        }
        let file_key = normalize_rel_path(rel_path);
        let ghost h0 = index.history@;
        let ghost f = file_key@;
        let ghost csum = checksum@;
        proof {
            lemma_last_index_for(h0, f);
        }
        let op: Operation;
        match view.last_entry_for_file(&*index, file_key.as_str()) {
            None => {
                op = Operation::Create;
            },
            Some(last) => {
                if last.op == Operation::Delete {
                    proof {
                        assert(h0[last_index_for(h0, f)].checksum is None);
                    }
                    op = Operation::Create;
                } else {
                    let same = match &last.checksum {
                        Some(c) => str_eq(c.as_str(), checksum.as_str()),
                        None => false,
                    };
                    if same {
                        return None;
                    }
                    proof {
                        assert(h0[last_index_for(h0, f)].checksum matches Some(ca) ==> ca@
                            != csum);
                    }
                    op = Operation::Modify;
                }
            },
        }
        let file_for_view = file_key.clone();
        let entry = HistoryEntry {
            timestamp,
            op,
            file: file_key,
            checksum: Some(checksum),
            size: Some(size),
            mtime_nanos,
        };
        proof {
            assert(entry_shape_ok(entry));
            assert(entry.file@ == f);
            lemma_last_index_for(h0, f);
            let li = last_index_for(h0, f);
            if li >= 0 {
                assert(pair_ok(h0[li], entry));
            }
            lemma_wf_push(h0, entry);
        }
        index.history.push(entry);
        let idx = index.history.len() - 1;
        proof {
            assert(index.history@.drop_last() =~= h0);
        }
        view.update_last_for_file(Ghost(index.history@), file_for_view, idx);
        Some(op)
    }

    /// Records that `rel_path` is gone: appends a `Delete` entry unless the
    /// file was never tracked or its last entry is already a `Delete`.
    pub fn record_delete_with_index(
        &self,
        rel_path: &str,
        timestamp: i64,
        index: &mut Index,
        view: &mut IndexView,
    ) -> (r: Option<Operation>)
        requires
            view_wf(old(view).last_by_file@, old(index).history@),
            index_wf(old(index).history@),
        ensures
            view_wf(final(view).last_by_file@, final(index).history@),
            index_wf(final(index).history@),
            r == (if delete_decision(old(index).history@, normalized(rel_path@)) {
                Some(Operation::Delete)
            } else {
                None::<Operation>
            }),
            r is None ==> final(index).history@ == old(index).history@,
            r is Some ==> ({
                let h0 = old(index).history@;
                let h1 = final(index).history@;
                &&& h1.len() == h0.len() + 1
                &&& h1.drop_last() == h0
                &&& h1.last().timestamp == timestamp
                &&& h1.last().op == Operation::Delete
                &&& h1.last().file@ == normalized(rel_path@)
                &&& h1.last().checksum is None
                &&& h1.last().size is None
                &&& h1.last().mtime_nanos is None
            }),
    {
        let file_key = normalize_rel_path(rel_path);
        let ghost h0 = index.history@;
        let ghost f = file_key@;
        match view.last_entry_for_file(&*index, file_key.as_str()) {
            None => {
                return None;
            },
            Some(last) => {
                if last.op == Operation::Delete {
                    return None;
                }
            },
        }
        let file_for_view = file_key.clone();
        let entry = HistoryEntry {
            timestamp,
            op: Operation::Delete,
            file: file_key,
            checksum: None,
            size: None,
            mtime_nanos: None,
        };
        proof {
            lemma_last_index_for(h0, f);
            assert(entry_shape_ok(entry));
            lemma_wf_push(h0, entry);
        }
        index.history.push(entry);
        let idx = index.history.len() - 1;
        proof {
            assert(index.history@.drop_last() =~= h0);
        }
        view.update_last_for_file(Ghost(index.history@), file_for_view, idx);
        Some(Operation::Delete)
    }

    /// Whether the checksum of entry `i`, if any, occurs again later.
    #[verifier::loop_isolation(false)]
    fn checksum_occurs_after(index: &Index, i: usize) -> (r: bool)
        requires
            i < index.history@.len(),
        ensures
            r == (index.history@[i as int].checksum matches Some(c) && checksum_after(
                index.history@,
                i as int,
                c@,
            )),
    {
        let n = index.history.len();
        match &index.history[i].checksum {
            None => false,
            Some(c) => {
                let mut k = i + 1;
                while k < n
                    invariant
                        i < k <= n,
                        forall|kk: int|
                            i < kk < k ==> !((#[trigger] index.history@[kk].checksum) matches Some(
                                cc,
                            ) && cc@ == c@),
                    decreases n - k,
                {
                    let hit = match &index.history[k].checksum {
                        Some(c2) => str_eq(c2.as_str(), c.as_str()),
                        None => false,
                    };
                    if hit {
                        return true;
                    }
                    k = k + 1;
                }
                false
            },
        }
    }

    /// Whether checksum `c` is referenced by any entry at or after `from`.
    #[verifier::loop_isolation(false)]
    fn checksum_referenced_from(index: &Index, from: usize, c: &str) -> (r: bool)
        requires
            from <= index.history@.len(),
        ensures
            r == referenced(index.history@.skip(from as int)).contains(c@),
    {
        let ghost s = index.history@.skip(from as int);
        let n = index.history.len();
        let mut k = from;
        while k < n
            invariant
                from <= k <= n,
                forall|kk: int|
                    from <= kk < k ==> !((#[trigger] index.history@[kk].checksum) matches Some(cc)
                        && cc@ == c@),
            decreases n - k,
        {
            let hit = match &index.history[k].checksum {
                Some(c2) => str_eq(c2.as_str(), c),
                None => false,
            };
            if hit {
                proof {
                    assert(s[k - from] == index.history@[k as int]);
                    assert(referenced(s).contains(c@));
                }
                return true;
            }
            k = k + 1;
        }
        proof {
            if referenced(s).contains(c@) {
                let i = choose|i: int|
                    0 <= i < s.len() && ((#[trigger] s[i].checksum) matches Some(cs) && cs@ == c@);
                assert(s[i] == index.history@[i + from]);
                assert(false);
            }
        }
        false
    }

    /// Whether some element of `v` reads exactly `s`.
    #[verifier::loop_isolation(false)]
    fn vec_contains_str(v: &Vec<String>, s: &str) -> (r: bool)
        ensures
            r == (exists|m: int| 0 <= m < v@.len() && (#[trigger] v@[m])@ == s@),
    {
        let n = v.len();
        let mut m: usize = 0;
        while m < n
            invariant
                m <= n,
                forall|mm: int| 0 <= mm < m ==> (#[trigger] v@[mm])@ != s@,
            decreases n - m,
        {
            if str_eq(v[m].as_str(), s) {
                return true;
            }
            m = m + 1;
        }
        false
    }

    /// Trims the oldest entries until both the entry cap and the byte quota
    /// hold (or nothing is left), and names the snapshots that thereby lost
    /// their last referent. Returns the number of entries removed, the
    /// bytes freed, and the checksums whose snapshot files are to go.
    #[verifier::loop_isolation(false)]
    pub fn trim_history_and_quota(&self, index: &mut Index) -> (r: (usize, u64, Vec<String>))
        requires
            index_wf(old(index).history@),
        ensures
            index_wf(final(index).history@),
            ({
                let h0 = old(index).history@;
                let h1 = final(index).history@;
                let k = r.0 as int;
                &&& r.0 <= h0.len()
                &&& h1 == h0.skip(k)
                &&& ((h1.len() <= self.max_history && ref_bytes_from(h0, k) <= self.max_quota)
                    || h1.len() == 0)
                &&& (forall|k2: int|
                    0 <= k2 < k ==> (h0.len() - k2 > self.max_history || ref_bytes_from(h0, k2)
                        > self.max_quota))
                &&& r.1 as int == ({
                    let diff = referenced_bytes(h0) - ref_bytes_from(h0, k);
                    if diff <= u64::MAX as int {
                        diff
                    } else {
                        u64::MAX as int
                    }
                })
                &&& (forall|m: int|
                    0 <= m < r.2@.len() ==> referenced(h0.take(k)).contains(
                        (#[trigger] r.2@[m])@,
                    ) && !referenced(h0.skip(k)).contains(r.2@[m]@) && is_checksum(r.2@[m]@))
                &&& (forall|m1: int, m2: int|
                    0 <= m1 < m2 < r.2@.len() ==> (#[trigger] r.2@[m1])@ != (#[trigger] r.2@[m2])@)
                &&& (forall|c: Seq<char>|
                    referenced(h0.take(k)).contains(c) && !referenced(h0.skip(k)).contains(c)
                        ==> exists|m: int| 0 <= m < r.2@.len() && (#[trigger] r.2@[m])@ == c)
            }),
    {
        let n = index.history.len();
        let ghost h = index.history@;
        if n == 0 {
            proof {
                assert(h.skip(0) =~= h);
                assert(h.take(0) =~= Seq::<HistoryEntry>::empty());
            }
            return (0, 0, Vec::new());
        }
        // Total bytes of distinct referenced snapshots, summed from the back.
        let mut total: u128 = 0;
        let mut i: usize = n;
        while i > 0
            invariant
                i <= n,
                total == ref_bytes_from(h, i as int),
                total <= ((n - i) as int) * (u64::MAX as int),
            decreases i,
        {
            i = i - 1;
            let has_later = Self::checksum_occurs_after(index, i);
            let mut add: u64 = 0;
            if !has_later {
                match (&index.history[i].checksum, &index.history[i].size) {
                    (Some(_), Some(s)) => {
                        add = *s;
                    },
                    _ => {},
                }
            }
            proof {
                assert(((n - i) as int) * (u64::MAX as int) <= (u64::MAX as int) * (
                u64::MAX as int)) by (nonlinear_arith)
                    requires
                        0 <= (n - i) as int <= u64::MAX as int,
                ;
            }
            total = total + add as u128;
        }
        let total_start = total;
        // Drop from the front until the caps hold or nothing is left.
        let mut to_remove: usize = 0;
        while (n - to_remove > self.max_history || total > self.max_quota as u128) && to_remove < n
            invariant
                to_remove <= n,
                total == ref_bytes_from(h, to_remove as int),
                total <= total_start,
                forall|k2: int|
                    0 <= k2 < to_remove ==> (h.len() - k2 > self.max_history || ref_bytes_from(
                        h,
                        k2,
                    ) > self.max_quota),
            decreases n - to_remove,
        {
            let has_later = Self::checksum_occurs_after(index, to_remove);
            proof {
                lemma_ref_bytes_nonneg(h, to_remove + 1);
            }
            if !has_later {
                match (&index.history[to_remove].checksum, &index.history[to_remove].size) {
                    (Some(_), Some(s)) => {
                        total = total - *s as u128;
                    },
                    _ => {},
                }
            }
            to_remove = to_remove + 1;
        }
        if to_remove == 0 {
            proof {
                assert(h.skip(0) =~= h);
                assert(h.take(0) =~= Seq::<HistoryEntry>::empty());
            }
            return (0, 0, Vec::new());
        }
        // Snapshots whose last referent sits in the removed prefix.
        let mut to_delete: Vec<String> = Vec::new();
        let mut idx: usize = 0;
        while idx < to_remove
            invariant
                idx <= to_remove,
                forall|m: int|
                    0 <= m < to_delete@.len() ==> referenced(h.take(to_remove as int)).contains(
                        (#[trigger] to_delete@[m])@,
                    ) && !referenced(h.skip(to_remove as int)).contains(to_delete@[m]@)
                        && is_checksum(to_delete@[m]@),
                forall|m1: int, m2: int|
                    0 <= m1 < m2 < to_delete@.len() ==> (#[trigger] to_delete@[m1])@ != (
                    #[trigger] to_delete@[m2])@,
                forall|c: Seq<char>|
                    referenced(h.take(idx as int)).contains(c) && !referenced(
                        h.skip(to_remove as int),
                    ).contains(c) ==> exists|m: int|
                        0 <= m < to_delete@.len() && (#[trigger] to_delete@[m])@ == c,
            decreases to_remove - idx,
        {
            let ghost td0 = to_delete@;
            let mut pushed: bool = false;
            match &index.history[idx].checksum {
                None => {},
                Some(c) => {
                    if !Self::checksum_referenced_from(index, to_remove, c.as_str()) {
                        if !Self::vec_contains_str(&to_delete, c.as_str()) {
                            to_delete.push(c.clone());
                            pushed = true;
                            proof {
                                assert(h.take(to_remove as int)[idx as int] == h[idx as int]);
                                assert(referenced(h.take(to_remove as int)).contains(c@));
                                assert(entry_shape_ok(h[idx as int]));
                            }
                        }
                    }
                },
            }
            proof {
                assert(forall|mm: int|
                    0 <= mm < td0.len() ==> #[trigger] to_delete@[mm] == td0[mm]);
                assert forall|c2: Seq<char>|
                    referenced(h.take(idx + 1)).contains(c2) && !referenced(
                        h.skip(to_remove as int),
                    ).contains(c2) implies exists|m: int|
                    0 <= m < to_delete@.len() && (#[trigger] to_delete@[m])@ == c2 by {
                    let i2 = choose|i2: int|
                        0 <= i2 < h.take(idx + 1).len() && ((#[trigger] h.take(
                            idx + 1,
                        )[i2].checksum) matches Some(cs) && cs@ == c2);
                    if i2 < idx {
                        assert(h.take(idx as int)[i2] == h.take(idx + 1)[i2]);
                        assert(referenced(h.take(idx as int)).contains(c2));
                        let m = choose|m: int| 0 <= m < td0.len() && (#[trigger] td0[m])@ == c2;
                        assert(to_delete@[m]@ == c2);
                    } else {
                        assert(h.take(idx + 1)[i2] == h[idx as int]);
                        let mx = to_delete@.len() - 1;
                        if pushed {
                            assert(to_delete@[mx]@ == c2);
                        } else {
                            assert(exists|m: int|
                                0 <= m < to_delete@.len() && (#[trigger] to_delete@[m])@ == c2);
                        }
                    }
                }
            }
            idx = idx + 1;
        }
        // Remove the prefix; what remains is the new history.
        let kept = index.history.split_off(to_remove);
        index.history = kept;
        proof {
            lemma_wf_skip(h, to_remove as int);
            lemma_ref_bytes_nonneg(h, to_remove as int);
            assert(h.take(to_remove as int) =~= h.subrange(0, to_remove as int));
            assert(index.history@ == h.skip(to_remove as int));
        }
        let diff = total_start - total;
        let freed: u64 = if diff > u64::MAX as u128 {
            u64::MAX
        } else {
            diff as u64
        };
        let result = (to_remove, freed, to_delete);
        proof {
            assert forall|c: Seq<char>|
                referenced(h.take(to_remove as int)).contains(c) && !referenced(
                    h.skip(to_remove as int),
                ).contains(c) implies exists|m: int|
                0 <= m < result.2@.len() && (#[trigger] result.2@[m])@ == c by {
                let m0 = choose|m0: int|
                    0 <= m0 < result.2@.len() && (#[trigger] result.2@[m0])@ == c;
                assert(0 <= m0 < result.2@.len() && result.2@[m0]@ == c);
            }
        }
        result
    }

    /// A copy of one history entry, field by field.
    fn clone_entry(e: &HistoryEntry) -> (r: HistoryEntry)
        ensures
            r == *e,
    {
        HistoryEntry {
            timestamp: e.timestamp,
            op: e.op,
            file: e.file.clone(),
            checksum: match &e.checksum {
                Some(c) => Some(c.clone()),
                None => None,
            },
            size: e.size,
            mtime_nanos: e.mtime_nanos,
        }
    }

    /// Position of the last entry for `file`, found by a backward scan.
    #[verifier::loop_isolation(false)]
    fn last_pos_for(index: &Index, file: &str) -> (r: Option<usize>)
        ensures
            match r {
                Some(i) => i == last_index_for(index.history@, file@),
                None => last_index_for(index.history@, file@) == -1,
            },
    {
        let ghost h = index.history@;
        let n = index.history.len();
        let mut i = n;
        while i > 0
            invariant
                i <= n,
                forall|k: int| i <= k < n ==> (#[trigger] h[k]).file@ != file@,
            decreases i,
        {
            i = i - 1;
            if str_eq(index.history[i].file.as_str(), file) {
                proof {
                    lemma_last_index_for(h, file@);
                    let li = last_index_for(h, file@);
                    if li > i {
                        assert(h[li].file@ != file@);
                    }
                    if li < i {
                        assert(h[i as int].file@ != file@);
                    }
                }
                return Some(i);
            }
        }
        proof {
            lemma_last_index_for(h, file@);
            let li = last_index_for(h, file@);
            if li >= 0 {
                assert(h[li].file@ != file@);
            }
        }
        None
    }

    /// All entries for one file, oldest first.
    #[verifier::loop_isolation(false)]
    pub fn list_history(&self, index: &Index, file_path: &str) -> (r: Vec<HistoryEntry>)
        ensures
            r@ == index.history@.filter(file_pred(file_path@)),
    {
        let ghost h = index.history@;
        let ghost pred = file_pred(file_path@);
        let mut r: Vec<HistoryEntry> = Vec::new();
        let n = index.history.len();
        let mut i: usize = 0;
        proof {
            assert(h.take(0).filter(pred) =~= Seq::<HistoryEntry>::empty());
        }
        while i < n
            invariant
                i <= n,
                r@ == h.take(i as int).filter(pred),
            decreases n - i,
        {
            proof {
                broadcast use vstd::prelude::Seq::lemma_filter_push;

                assert(h.take(i + 1) =~= h.take(i as int).push(h[i as int]));
            }
            if str_eq(index.history[i].file.as_str(), file_path) {
                r.push(Self::clone_entry(&index.history[i]));
            }
            i = i + 1;
        }
        proof {
            assert(h.take(n as int) =~= h);
        }
        r
    }

    /// All entries whose timestamp lies in `[since, until]`, oldest first.
    /// Unless `include_deleted` is set, entries of files whose last entry
    /// is a `Delete` are left out.
    #[verifier::loop_isolation(false)]
    pub fn list_activity(&self, index: &Index, since: i64, until: i64, include_deleted: bool) -> (r:
        Vec<HistoryEntry>)
        ensures
            r@ == index.history@.filter(
                activity_pred(index.history@, since, until, include_deleted),
            ),
    {
        let ghost h = index.history@;
        let ghost pred = activity_pred(h, since, until, include_deleted);
        let mut r: Vec<HistoryEntry> = Vec::new();
        let n = index.history.len();
        let mut i: usize = 0;
        proof {
            assert(h.take(0).filter(pred) =~= Seq::<HistoryEntry>::empty());
        }
        while i < n
            invariant
                i <= n,
                r@ == h.take(i as int).filter(pred),
            decreases n - i,
        {
            proof {
                broadcast use vstd::prelude::Seq::lemma_filter_push;

                assert(h.take(i + 1) =~= h.take(i as int).push(h[i as int]));
            }
            let e = &index.history[i];
            proof {
                lemma_last_index_for(h, h[i as int].file@);
            }
            let in_range = since <= e.timestamp && e.timestamp <= until;
            if in_range {
                let keep: bool;
                if include_deleted {
                    keep = true;
                } else {
                    keep = match Self::last_pos_for(index, e.file.as_str()) {
                        Some(li) => !(index.history[li].op == Operation::Delete),
                        None => true,
                    };
                }
                if keep {
                    r.push(Self::clone_entry(&index.history[i]));
                }
            }
            i = i + 1;
        }
        proof {
            assert(h.take(n as int) =~= h);
        }
        r
    }


    /// Every recorded file with its entry count. Unless `include_deleted`
    /// is set, files whose last entry is a `Delete` are left out. Files
    /// appear in the order their first entry appears in the history.
    #[verifier::loop_isolation(false)]
    pub fn list_files(&self, index: &Index, include_deleted: bool) -> (r: Vec<(String, usize)>)
        ensures
            ({
                let h = index.history@;
                &&& (forall|m: int|
                    0 <= m < r@.len() ==> ({
                        let p = #[trigger] r@[m];
                        &&& p.1 == count_for(h, p.0@)
                        &&& last_index_for(h, p.0@) >= 0
                        &&& (include_deleted || !(h[last_index_for(h, p.0@)].op is Delete))
                    }))
                &&& (forall|m1: int, m2: int|
                    0 <= m1 < m2 < r@.len() ==> (#[trigger] r@[m1]).0@ != (#[trigger] r@[m2]).0@)
                &&& (forall|i: int|
                    0 <= i < h.len() && (include_deleted || !(h[last_index_for(
                        h,
                        (#[trigger] h[i]).file@,
                    )].op is Delete)) ==> exists|m: int|
                        0 <= m < r@.len() && (#[trigger] r@[m]).0@ == h[i].file@)
            }),
    {
        let ghost h = index.history@;
        // Pass 1: count the entries of every file.
        let mut counts: Vec<(String, usize)> = Vec::new();
        let n = index.history.len();
        let mut i: usize = 0;
        proof {
            assert(h.take(0) =~= Seq::<HistoryEntry>::empty());
        }
        while i < n
            invariant
                i <= n,
                forall|m: int|
                    0 <= m < counts@.len() ==> (#[trigger] counts@[m]).1 == count_for(
                        h.take(i as int),
                        counts@[m].0@,
                    ) && counts@[m].1 >= 1,
                forall|m1: int, m2: int|
                    0 <= m1 < m2 < counts@.len() ==> (#[trigger] counts@[m1]).0@ != (
                    #[trigger] counts@[m2]).0@,
                forall|i2: int|
                    0 <= i2 < i ==> exists|m: int|
                        0 <= m < counts@.len() && (#[trigger] counts@[m]).0@ == (
                        #[trigger] h[i2]).file@,
                forall|m: int| 0 <= m < counts@.len() ==> (#[trigger] counts@[m]).1 <= i,
            decreases n - i,
        {
            let ghost c0 = counts@;
            let ghost fi = h[i as int].file@;
            proof {
                broadcast use vstd::prelude::Seq::lemma_filter_push;

                assert(h.take(i + 1) =~= h.take(i as int).push(h[i as int]));
            }
            let file = &index.history[i].file;
            let m_found = {
                let mut m: usize = 0;
                let cn = counts.len();
                let mut found: Option<usize> = None;
                while m < cn
                    invariant
                        m <= cn,
                        cn == counts@.len(),
                        counts@ == c0,
                        match found {
                            Some(fm) => fm < cn && counts@[fm as int].0@ == fi,
                            None => forall|mm: int|
                                0 <= mm < m ==> (#[trigger] counts@[mm]).0@ != fi,
                        },
                    decreases cn - m,
                {
                    if str_eq(counts[m].0.as_str(), file.as_str()) {
                        found = Some(m);
                        break ;
                    }
                    m = m + 1;
                }
                found
            };
            match m_found {
                Some(m) => {
                    let pair = counts.remove(m);
                    counts.push((pair.0, pair.1 + 1));
                    proof {
                        c0.remove_ensures(m as int);
                        let c1 = counts@;
                        assert(c1[c1.len() - 1].0@ == fi);
                        assert forall|mm: int| 0 <= mm < c1.len() implies (#[trigger] c1[mm]).1
                            == count_for(h.take(i + 1), c1[mm].0@) && c1[mm].1 >= 1 && c1[mm].1 <= i
                            + 1 by {
                            if mm < c1.len() - 1 {
                                let m0: int = if mm < m { mm } else { mm + 1 };
                                assert(c1[mm] == c0[m0]);
                                assert(c0[m as int].0@ != c0[m0].0@);
                            }
                        }
                        assert forall|i2: int| 0 <= i2 < i + 1 implies exists|mm: int|
                            0 <= mm < c1.len() && (#[trigger] c1[mm]).0@ == (#[trigger] h[i2]).file@
                             by {
                            if i2 < i {
                                let mm0 = choose|mm0: int|
                                    0 <= mm0 < c0.len() && (#[trigger] c0[mm0]).0@ == h[i2].file@;
                                if mm0 == m {
                                    assert(c1[c1.len() - 1].0@ == h[i2].file@);
                                } else {
                                    let mm: int = if mm0 < m {
                                        mm0
                                    } else {
                                        mm0 - 1
                                    };
                                    assert(c1[mm] == c0[mm0]);
                                }
                            } else {
                                assert(c1[c1.len() - 1].0@ == fi);
                            }
                        }
                        assert forall|m1: int, m2: int| 0 <= m1 < m2 < c1.len() implies (
                        #[trigger] c1[m1]).0@ != (#[trigger] c1[m2]).0@ by {
                            let k1: int = if m1 < m {
                                m1
                            } else {
                                m1 + 1
                            };
                            assert(c1[m1] == c0[k1]);
                            if m2 < c1.len() - 1 {
                                let k2: int = if m2 < m {
                                    m2
                                } else {
                                    m2 + 1
                                };
                                assert(c1[m2] == c0[k2]);
                            } else {
                                assert(k1 != m);
                                assert(c0[k1].0@ != c0[m as int].0@);
                            }
                        }
                    }
                },
                None => {
                    counts.push((file.clone(), 1));
                    proof {
                        let c1 = counts@;
                        assert(c1[c1.len() - 1].0@ == fi);
                        assert forall|mm: int| 0 <= mm < c1.len() implies (#[trigger] c1[mm]).1
                            == count_for(h.take(i + 1), c1[mm].0@) && c1[mm].1 >= 1 && c1[mm].1 <= i
                            + 1 by {
                            if mm < c1.len() - 1 {
                                assert(c1[mm] == c0[mm]);
                                assert(c0[mm].0@ != fi);
                            } else {
                                // A fresh file: no earlier entry carries it.
                                if count_for(h.take(i as int), fi) != 0 {
                                    lemma_count_pos_has_entry(h.take(i as int), fi);
                                    let i2 = choose|i2: int|
                                        0 <= i2 < h.take(i as int).len() && (#[trigger] h.take(
                                            i as int,
                                        )[i2]).file@ == fi;
                                    assert(h[i2].file@ == fi);
                                    assert(exists|mm2: int|
                                        0 <= mm2 < c0.len() && (#[trigger] c0[mm2]).0@
                                            == h[i2].file@);
                                    assert(false);
                                }
                            }
                        }
                        assert forall|i2: int| 0 <= i2 < i + 1 implies exists|mm: int|
                            0 <= mm < c1.len() && (#[trigger] c1[mm]).0@ == (#[trigger] h[i2]).file@
                             by {
                            if i2 < i {
                                let mm0 = choose|mm0: int|
                                    0 <= mm0 < c0.len() && (#[trigger] c0[mm0]).0@ == h[i2].file@;
                                assert(c1[mm0] == c0[mm0]);
                            } else {
                                assert(c1[c1.len() - 1].0@ == fi);
                            }
                        }
                    }
                },
            }
            i = i + 1;
        }
        proof {
            assert(h.take(n as int) =~= h);
        }
        // Pass 2: keep what the deletion filter admits.
        let mut r: Vec<(String, usize)> = Vec::new();
        let cn = counts.len();
        let mut m: usize = 0;
        while m < cn
            invariant
                m <= cn,
                cn == counts@.len(),
                forall|m2: int|
                    0 <= m2 < r@.len() ==> ({
                        let p = #[trigger] r@[m2];
                        &&& p.1 == count_for(h, p.0@)
                        &&& last_index_for(h, p.0@) >= 0
                        &&& (include_deleted || !(h[last_index_for(h, p.0@)].op is Delete))
                    }),
                forall|m1: int, m2: int|
                    0 <= m1 < m2 < r@.len() ==> (#[trigger] r@[m1]).0@ != (#[trigger] r@[m2]).0@,
                forall|m3: int|
                    0 <= m3 < r@.len() ==> exists|m2: int|
                        0 <= m2 < m && (#[trigger] r@[m3]).0@ == (#[trigger] counts@[m2]).0@,
                forall|m2: int|
                    0 <= m2 < m && (include_deleted || !(h[last_index_for(
                        h,
                        (#[trigger] counts@[m2]).0@,
                    )].op is Delete)) ==> exists|m3: int|
                        0 <= m3 < r@.len() && (#[trigger] r@[m3]).0@ == counts@[m2].0@,
            decreases cn - m,
        {
            let ghost r0 = r@;
            proof {
                lemma_last_index_for(h, counts@[m as int].0@);
            }
            let keep: bool;
            if include_deleted {
                keep = true;
            } else {
                keep = match Self::last_pos_for(index, counts[m].0.as_str()) {
                    Some(li) => !(index.history[li].op == Operation::Delete),
                    None => true,
                };
            }
            proof {
                // Every counted file has at least one entry.
                if last_index_for(h, counts@[m as int].0@) < 0 {
                    assert(count_for(h, counts@[m as int].0@) >= 1);
                    lemma_count_pos_has_entry(h, counts@[m as int].0@);
                    let i2 = choose|i2: int|
                        0 <= i2 < h.len() && (#[trigger] h[i2]).file@ == counts@[m as int].0@;
                    assert(h[i2].file@ != counts@[m as int].0@);
                    assert(false);
                }
            }
            if keep {
                let pair = (counts[m].0.clone(), counts[m].1);
                r.push(pair);
            }
            proof {
                assert(forall|mm: int| 0 <= mm < r0.len() ==> #[trigger] r@[mm] == r0[mm]);
                if r@.len() > r0.len() {
                    assert(r@[r@.len() - 1].0@ == counts@[m as int].0@);
                }
                assert forall|m3: int| 0 <= m3 < r@.len() implies exists|m2: int|
                    0 <= m2 < m + 1 && (#[trigger] r@[m3]).0@ == (#[trigger] counts@[m2]).0@ by {
                    if m3 < r0.len() {
                        let o = choose|o: int|
                            0 <= o < m && (#[trigger] r0[m3]).0@ == (#[trigger] counts@[o]).0@;
                        assert(r@[m3].0@ == counts@[o].0@);
                    } else {
                        assert(r@[m3].0@ == counts@[m as int].0@);
                    }
                }
                assert forall|m1: int, m2: int| 0 <= m1 < m2 < r@.len() implies (
                #[trigger] r@[m1]).0@ != (#[trigger] r@[m2]).0@ by {
                    if m2 < r0.len() {
                        assert(r@[m1] == r0[m1]);
                        assert(r@[m2] == r0[m2]);
                    } else {
                        let o = choose|o: int|
                            0 <= o < m && (#[trigger] r0[m1]).0@ == (#[trigger] counts@[o]).0@;
                        assert(counts@[o].0@ != counts@[m as int].0@);
                    }
                }
                assert forall|m2: int|
                    0 <= m2 < m + 1 && (include_deleted || !(h[last_index_for(
                        h,
                        (#[trigger] counts@[m2]).0@,
                    )].op is Delete)) implies exists|m3: int|
                    0 <= m3 < r@.len() && (#[trigger] r@[m3]).0@ == counts@[m2].0@ by {
                    if m2 < m {
                        let m3 = choose|m3: int|
                            0 <= m3 < r0.len() && (#[trigger] r0[m3]).0@ == counts@[m2].0@;
                        assert(r@[m3].0@ == counts@[m2].0@);
                    } else {
                        assert(r@[r@.len() - 1].0@ == counts@[m as int].0@);
                    }
                }
            }
            m = m + 1;
        }
        proof {
            assert forall|i2: int|
                0 <= i2 < h.len() && (include_deleted || !(h[last_index_for(
                    h,
                    (#[trigger] h[i2]).file@,
                )].op is Delete)) implies exists|m3: int|
                0 <= m3 < r@.len() && (#[trigger] r@[m3]).0@ == h[i2].file@ by {
                let mm = choose|mm: int|
                    0 <= mm < counts@.len() && (#[trigger] counts@[mm]).0@ == h[i2].file@;
                assert(exists|m3: int|
                    0 <= m3 < r@.len() && (#[trigger] r@[m3]).0@ == counts@[mm].0@);
            }
        }
        r
    }

    /// Checks a restore prefix: at least eight hex digits.
    #[verifier::loop_isolation(false)]
    fn valid_prefix(s: &str) -> (r: bool)
        ensures
            r == valid_checksum_prefix(s@),
    {
        let n = s.unicode_len();
        if n < 8 {
            return false;
        }
        let mut i: usize = 0;
        while i < n
            invariant
                n == s@.len(),
                i <= n,
                forall|k: int| 0 <= k < i ==> is_hex_char(#[trigger] s@[k]),
            decreases n - i,
        {
            let c = s.get_char(i);
            if !(('0' <= c && c <= '9') || ('a' <= c && c <= 'f')) {
                return false;
            }
            i = i + 1;
        }
        true
    }

    /// Whether one entry is what a restore request names.
    fn entry_matches(e: &HistoryEntry, norm: &str, prefix: &str) -> (r: bool)
        ensures
            r == entry_matches_restore(*e, norm@, prefix@),
    {
        let enorm = normalize_rel_path(e.file.as_str());
        if !str_eq(enorm.as_str(), norm) {
            return false;
        }
        match &e.checksum {
            Some(cs) => crate::text::str_starts_with(cs.as_str(), prefix),
            None => false,
        }
    }

    /// Resolves a restore request to one full checksum: the prefix must
    /// hold at least eight hex digits, some entry of the file must match
    /// it, and all matching entries must agree on the checksum; otherwise
    /// the request is refused with the reason.
    #[verifier::loop_isolation(false)]
    pub fn restore_find_checksum(index: &Index, file_path: &str, checksum_prefix: &str) -> (r:
        Result<String, RestoreError>)
        ensures
            ({
                let h = index.history@;
                let f = normalized(file_path@);
                let pfx = checksum_prefix@;
                let fm = first_restore_match(h, f, pfx);
                if !valid_checksum_prefix(pfx) {
                    r == Err::<String, RestoreError>(RestoreError::PrefixTooShort)
                } else if fm == -1 {
                    r == Err::<String, RestoreError>(RestoreError::NotFound)
                } else if restore_matches_differ(h, f, pfx) {
                    r == Err::<String, RestoreError>(RestoreError::Ambiguous)
                } else {
                    r matches Ok(c) && (h[fm].checksum matches Some(cs) && cs@ == c@)
                }
            }),
    {
        let ghost h = index.history@;
        let ghost pfx = checksum_prefix@;
        if !Self::valid_prefix(checksum_prefix) {
            return Err(RestoreError::PrefixTooShort);
        }
        let norm = normalize_rel_path(file_path);
        let ghost f = norm@;
        proof {
            lemma_first_restore_match(h, f, pfx);
        }
        let n = index.history.len();
        let mut i: usize = 0;
        while i < n
            invariant
                i <= n,
                forall|k: int| 0 <= k < i ==> !entry_matches_restore(#[trigger] h[k], f, pfx),
            decreases n - i,
        {
            if Self::entry_matches(&index.history[i], norm.as_str(), checksum_prefix) {
                proof {
                    let fm = first_restore_match(h, f, pfx);
                    if fm == -1 {
                        assert(false);
                    }
                    if fm < i as int {
                        assert(false);
                    }
                    if fm > i as int {
                        assert(false);
                    }
                    assert(fm == i as int);
                }
                let cs = match &index.history[i].checksum {
                    Some(c) => c.clone(),
                    None => {
                        proof {
                            assert(false);
                        }
                        return Err(RestoreError::NotFound);
                    },
                };
                // Every later match must carry this same checksum.
                let mut j = i + 1;
                while j < n
                    invariant
                        i < j <= n,
                        forall|k: int|
                            i < k < j ==> (entry_matches_restore(#[trigger] h[k], f, pfx) ==> (
                            h[k].checksum matches Some(ck) && ck@ == cs@)),
                    decreases n - j,
                {
                    if Self::entry_matches(&index.history[j], norm.as_str(), checksum_prefix) {
                        let same = match &index.history[j].checksum {
                            Some(cj) => str_eq(cj.as_str(), cs.as_str()),
                            None => false,
                        };
                        if !same {
                            proof {
                                assert(restore_matches_differ(h, f, pfx));
                            }
                            return Err(RestoreError::Ambiguous);
                        }
                    }
                    j = j + 1;
                }
                proof {
                    if restore_matches_differ(h, f, pfx) {
                        let (i0, j0) = choose|i0: int, j0: int|
                            #![trigger h[i0], h[j0]]
                            0 <= i0 < j0 < h.len() && entry_matches_restore(h[i0], f, pfx)
                                && entry_matches_restore(h[j0], f, pfx) && (
                            h[i0].checksum matches Some(ci) ==> (h[j0].checksum matches Some(cj)
                                ==> ci@ != cj@));
                        assert(i as int <= i0);
                        assert(false);
                    }
                }
                return Ok(cs);
            }
            i = i + 1;
        }
        proof {
            let fm = first_restore_match(h, f, pfx);
            if fm != -1 {
                assert(!entry_matches_restore(h[fm], f, pfx));
            }
        }
        Err(RestoreError::NotFound)
    }

    /// Whether some listed snapshot file carries exactly this name.
    #[verifier::loop_isolation(false)]
    fn pairs_contain_name(v: &Vec<(String, u64)>, s: &str) -> (r: bool)
        ensures
            r == (exists|m: int| 0 <= m < v@.len() && (#[trigger] v@[m]).0@ == s@),
    {
        let n = v.len();
        let mut m: usize = 0;
        while m < n
            invariant
                m <= n,
                forall|mm: int| 0 <= mm < m ==> (#[trigger] v@[mm]).0@ != s@,
            decreases n - m,
        {
            if str_eq(v[m].0.as_str(), s) {
                return true;
            }
            m = m + 1;
        }
        false
    }

    /// Full clean: trims the history to its caps, then collects orphans
    /// from `snapshot_files`, a listing of the snapshot tree as name and
    /// size pairs. Returns the combined report, the checksums the trim
    /// unreferenced, and the orphan files; the caller removes both sets
    /// from disk and saves the trimmed index.
    #[verifier::loop_isolation(false)]
    pub fn clean(&self, index: &mut Index, snapshot_files: &Vec<(String, u64)>) -> (r: (
        CleanResult,
        Vec<String>,
        Vec<(String, u64)>,
    ))
        requires
            index_wf(old(index).history@),
        ensures
            index_wf(final(index).history@),
            ({
                let h0 = old(index).history@;
                let h1 = final(index).history@;
                let k = r.0.entries_trimmed as int;
                &&& r.0.entries_trimmed <= h0.len()
                &&& h1 == h0.skip(k)
                &&& ((h1.len() <= self.max_history && ref_bytes_from(h0, k) <= self.max_quota)
                    || h1.len() == 0)
                &&& r.0.bytes_freed_trim as int == ({
                    let diff = referenced_bytes(h0) - ref_bytes_from(h0, k);
                    if diff <= u64::MAX as int {
                        diff
                    } else {
                        u64::MAX as int
                    }
                })
                // What the trim unreferenced: exactly the checksums of the
                // removed prefix that no surviving entry references.
                &&& (forall|m: int|
                    0 <= m < r.1@.len() ==> referenced(h0.take(k)).contains((#[trigger] r.1@[m])@)
                        && !referenced(h1).contains(r.1@[m]@) && is_checksum(r.1@[m]@))
                &&& (forall|c: Seq<char>|
                    referenced(h0.take(k)).contains(c) && !referenced(h1).contains(c)
                        ==> exists|m: int| 0 <= m < r.1@.len() && (#[trigger] r.1@[m])@ == c)
                &&& (forall|m1: int, m2: int|
                    0 <= m1 < m2 < r.1@.len() ==> (#[trigger] r.1@[m1])@ != (#[trigger] r.1@[m2])@)
                // The orphans: listed files with a checksum-shaped name that
                // nothing references, the trim casualties left aside.
                &&& (forall|m: int|
                    0 <= m < r.2@.len() ==> ({
                        let p = #[trigger] r.2@[m];
                        &&& is_checksum(p.0@)
                        &&& !referenced(h1).contains(p.0@)
                        &&& !referenced(h0.take(k)).contains(p.0@)
                        &&& snapshot_files@.contains(p)
                    }))
                &&& (forall|m1: int, m2: int|
                    0 <= m1 < m2 < r.2@.len() ==> (#[trigger] r.2@[m1]).0@ != (
                    #[trigger] r.2@[m2]).0@)
                // Orphan-freedom: every listed checksum-shaped file that
                // neither delete list names is referenced by the new index.
                &&& (forall|i: int|
                    0 <= i < snapshot_files@.len() ==> ({
                        let p = #[trigger] snapshot_files@[i];
                        (is_checksum(p.0@) && !referenced(h1).contains(p.0@)) ==> ((exists|m: int|
                            0 <= m < r.1@.len() && (#[trigger] r.1@[m])@ == p.0@) || (exists|m: int|
                            0 <= m < r.2@.len() && (#[trigger] r.2@[m]).0@ == p.0@))
                    }))
                &&& r.0.files_removed == r.2@.len()
                &&& r.0.bytes_removed as int == ({
                    let total = sum_sizes(r.2@);
                    if total <= u64::MAX as int {
                        total
                    } else {
                        u64::MAX as int
                    }
                })
            }),
    {
        let ghost h0 = index.history@;
        let (entries_trimmed, bytes_freed_trim, trim_list) = self.trim_history_and_quota(index);
        let ghost k = entries_trimmed as int;
        let ghost h1 = index.history@;
        let mut orphans: Vec<(String, u64)> = Vec::new();
        let mut obytes: u128 = 0;
        let n = snapshot_files.len();
        let mut i: usize = 0;
        while i < n
            invariant
                i <= n,
                obytes == sum_sizes(orphans@),
                obytes <= (orphans@.len() as int) * (u64::MAX as int),
                orphans@.len() <= i,
                forall|m: int|
                    0 <= m < orphans@.len() ==> ({
                        let p = #[trigger] orphans@[m];
                        &&& is_checksum(p.0@)
                        &&& !referenced(h1).contains(p.0@)
                        &&& !referenced(h0.take(k)).contains(p.0@)
                        &&& snapshot_files@.contains(p)
                    }),
                forall|m1: int, m2: int|
                    0 <= m1 < m2 < orphans@.len() ==> (#[trigger] orphans@[m1]).0@ != (
                    #[trigger] orphans@[m2]).0@,
                forall|i2: int|
                    0 <= i2 < i ==> ({
                        let p = #[trigger] snapshot_files@[i2];
                        (is_checksum(p.0@) && !referenced(h1).contains(p.0@)) ==> ((exists|m: int|
                            0 <= m < trim_list@.len() && (#[trigger] trim_list@[m])@ == p.0@) || (
                        exists|m: int|
                            0 <= m < orphans@.len() && (#[trigger] orphans@[m]).0@ == p.0@))
                    }),
            decreases n - i,
        {
            let ghost orph0 = orphans@;
            let name = &snapshot_files[i].0;
            proof {
                assert(index.history@.skip(0) =~= h1);
            }
            if crate::hashing::is_sha256_hex(name.as_str()) {
                if !Self::checksum_referenced_from(index, 0, name.as_str()) {
                    if !Self::vec_contains_str(&trim_list, name.as_str()) {
                        if !Self::pairs_contain_name(&orphans, name.as_str()) {
                            let p = (name.clone(), snapshot_files[i].1);
                            proof {
                                assert(p == snapshot_files@[i as int]);
                                assert(snapshot_files@.contains(p));
                                // The name is not a trim casualty, so it was
                                // never referenced by the removed prefix.
                                if referenced(h0.take(k)).contains(p.0@) {
                                    assert(exists|m: int|
                                        0 <= m < trim_list@.len() && (#[trigger] trim_list@[m])@
                                            == p.0@);
                                    assert(false);
                                }
                            }
                            proof {
                                assert(((orph0.len() + 1) as int) * (u64::MAX as int) <= (
                                u64::MAX as int) * (u64::MAX as int)) by (nonlinear_arith)
                                    requires
                                        0 <= (orph0.len() + 1) as int <= u64::MAX as int,
                                ;
                            }
                            orphans.push(p);
                            obytes = obytes + snapshot_files[i].1 as u128;
                            proof {
                                assert(orphans@.drop_last() =~= orph0);
                                assert(((orph0.len() + 1) as int) * (u64::MAX as int) == (
                                orph0.len() as int) * (u64::MAX as int) + (u64::MAX as int));
                            }
                        }
                    }
                }
            }
            proof {
                assert(forall|mm: int|
                    0 <= mm < orph0.len() ==> #[trigger] orphans@[mm] == orph0[mm]);
                assert forall|i2: int| 0 <= i2 < i + 1 implies ({
                    let p = #[trigger] snapshot_files@[i2];
                    (is_checksum(p.0@) && !referenced(h1).contains(p.0@)) ==> ((exists|m: int|
                        0 <= m < trim_list@.len() && (#[trigger] trim_list@[m])@ == p.0@) || (
                    exists|m: int|
                        0 <= m < orphans@.len() && (#[trigger] orphans@[m]).0@ == p.0@))
                }) by {
                    let p = snapshot_files@[i2];
                    if is_checksum(p.0@) && !referenced(h1).contains(p.0@) {
                        if i2 < i {
                            if exists|m: int|
                                0 <= m < trim_list@.len() && (#[trigger] trim_list@[m])@
                                    == p.0@ {
                            } else {
                                let m0 = choose|m0: int|
                                    0 <= m0 < orph0.len() && (#[trigger] orph0[m0]).0@ == p.0@;
                                assert(orphans@[m0].0@ == p.0@);
                            }
                        } else {
                            assert(p.0@ == snapshot_files@[i as int].0@);
                            if orphans@.len() > orph0.len() {
                                assert(orphans@[orphans@.len() - 1].0@ == p.0@);
                            }
                        }
                    }
                }
            }
            i = i + 1;
        }
        let files_removed = orphans.len();
        let bytes_removed: u64 = if obytes > u64::MAX as u128 {
            u64::MAX
        } else {
            obytes as u64
        };
        let report = CleanResult { entries_trimmed, bytes_freed_trim, files_removed, bytes_removed };
        let result = (report, trim_list, orphans);
        proof {
            assert forall|i2: int| 0 <= i2 < snapshot_files@.len() implies ({
                let p = #[trigger] snapshot_files@[i2];
                (is_checksum(p.0@) && !referenced(h1).contains(p.0@)) ==> ((exists|m: int|
                    0 <= m < result.1@.len() && (#[trigger] result.1@[m])@ == p.0@) || (exists|
                    m: int|
                    0 <= m < result.2@.len() && (#[trigger] result.2@[m]).0@ == p.0@))
            }) by {
                let p = snapshot_files@[i2];
                if is_checksum(p.0@) && !referenced(h1).contains(p.0@) {
                    if exists|m: int|
                        0 <= m < trim_list@.len() && (#[trigger] trim_list@[m])@ == p.0@ {
                        let m0 = choose|m0: int|
                            0 <= m0 < trim_list@.len() && (#[trigger] trim_list@[m0])@ == p.0@;
                        assert(result.1@[m0]@ == p.0@);
                    } else {
                        let m0 = choose|m0: int|
                            0 <= m0 < orphans@.len() && (#[trigger] orphans@[m0]).0@ == p.0@;
                        assert(result.2@[m0].0@ == p.0@);
                    }
                }
            }
            assert forall|c: Seq<char>|
                referenced(h0.take(k)).contains(c) && !referenced(h1).contains(c) implies exists|
                m: int|
                0 <= m < result.1@.len() && (#[trigger] result.1@[m])@ == c by {
                let m0 = choose|m0: int|
                    0 <= m0 < result.1@.len() && (#[trigger] result.1@[m0])@ == c;
                assert(0 <= m0 < result.1@.len() && result.1@[m0]@ == c);
            }
        }
        result
    }

    /// Records a `Delete` for every tracked file at or below `path_prefix`
    /// whose last entry is not already a `Delete`: used when a directory is
    /// removed or renamed away. Returns how many entries were appended.
    pub fn record_deletes_under_prefix(
        &self,
        path_prefix: &str,
        timestamp: i64,
        index: &mut Index,
        view: &mut IndexView,
    ) -> (r: usize)
        requires
            view_wf(old(view).last_by_file@, old(index).history@),
            index_wf(old(index).history@),
        ensures
            view_wf(final(view).last_by_file@, final(index).history@),
            index_wf(final(index).history@),
            ({
                let h0 = old(index).history@;
                let h1 = final(index).history@;
                let p = trimmed_slashes(normalized(path_prefix@));
                &&& h1.len() == h0.len() + r
                &&& h1.take(h0.len() as int) == h0
                &&& (p.len() == 0 ==> r == 0)
                &&& (forall|k: int|
                    h0.len() <= k < h1.len() ==> ({
                        let e = #[trigger] h1[k];
                        &&& e.op is Delete
                        &&& e.checksum is None
                        &&& e.size is None
                        &&& e.mtime_nanos is None
                        &&& e.timestamp == timestamp
                        &&& under_prefix(e.file@, p)
                        &&& delete_decision(h0, e.file@)
                    }))
                &&& (forall|k1: int, k2: int|
                    h0.len() <= k1 < k2 < h1.len() ==> (#[trigger] h1[k1]).file@ != (
                    #[trigger] h1[k2]).file@)
                &&& (p.len() > 0 ==> (forall|fp: Seq<char>|
                    #![trigger under_prefix(fp, p), delete_decision(h0, fp)]
                    under_prefix(fp, p) && delete_decision(h0, fp) ==> exists|k: int|
                        h0.len() <= k < h1.len() && (#[trigger] h1[k]).file@ == fp))
            }),
    {
        let norm = normalize_rel_path(path_prefix);
        let p = trim_trailing_slashes(norm.as_str());
        let ghost pv = p@;
        let ghost h0 = index.history@;
        if p.as_str().unicode_len() == 0 {
            return 0;
        }
        // Phase 1: collect, from the view, the files to mark deleted.
        let mut to_delete: Vec<String> = Vec::new();
        let n = view.last_by_file.len();
        let mut j: usize = 0;
        while j < n
            invariant
                view_wf(view.last_by_file@, h0),
                h0 == index.history@,
                index_wf(h0),
                n == view.last_by_file@.len(),
                j <= n,
                pv == p@,
                pv.len() > 0,
                forall|m: int|
                    0 <= m < to_delete@.len() ==> under_prefix((#[trigger] to_delete@[m])@, pv)
                        && delete_decision(h0, to_delete@[m]@),
                forall|m: int|
                    0 <= m < to_delete@.len() ==> exists|j0: int|
                        0 <= j0 < j && (#[trigger] to_delete@[m])@ == view.last_by_file@[j0].0@,
                forall|m1: int, m2: int|
                    0 <= m1 < m2 < to_delete@.len() ==> (#[trigger] to_delete@[m1])@ != (
                    #[trigger] to_delete@[m2])@,
                forall|j0: int|
                    0 <= j0 < j && under_prefix((#[trigger] view.last_by_file@[j0]).0@, pv) && !(
                    h0[view.last_by_file@[j0].1 as int].op is Delete) ==> exists|m: int|
                        0 <= m < to_delete@.len() && (#[trigger] to_delete@[m])@
                            == view.last_by_file@[j0].0@,
            decreases n - j,
        {
            let ghost v = view.last_by_file@;
            let ghost td0 = to_delete@;
            let key_matches = path_under_prefix(view.last_by_file[j].0.as_str(), p.as_str());
            if key_matches {
                let i = view.last_by_file[j].1;
                proof {
                    lemma_last_index_for(h0, v[j as int].0@);
                    assert(v[j as int].1 == last_index_for(h0, v[j as int].0@));
                }
                if index.history[i].op != Operation::Delete {
                    to_delete.push(view.last_by_file[j].0.clone());
                    proof {
                        assert(to_delete@[td0.len() as int]@ == v[j as int].0@);
                        assert(delete_decision(h0, v[j as int].0@));
                        assert forall|m1: int, m2: int|
                            0 <= m1 < m2 < to_delete@.len() implies (#[trigger] to_delete@[m1])@
                            != (#[trigger] to_delete@[m2])@ by {
                            if m2 == to_delete@.len() - 1 {
                                let j0 = choose|j0: int|
                                    0 <= j0 < j && (#[trigger] td0[m1])@ == v[j0].0@;
                                assert(v[j0].0@ != v[j as int].0@);
                            } else {
                                assert(td0[m1] == to_delete@[m1]);
                                assert(td0[m2] == to_delete@[m2]);
                            }
                        }
                    }
                }
            }
            proof {
                assert(forall|mm: int|
                    0 <= mm < td0.len() ==> #[trigger] to_delete@[mm] == td0[mm]);
                assert forall|mm: int|
                    0 <= mm < to_delete@.len() implies under_prefix(
                    (#[trigger] to_delete@[mm])@,
                    pv,
                ) && delete_decision(h0, to_delete@[mm]@) by {
                    if mm < td0.len() {
                        assert(to_delete@[mm] == td0[mm]);
                    } else {
                        assert(to_delete@[mm]@ == v[j as int].0@);
                    }
                }
                assert forall|mm: int| 0 <= mm < to_delete@.len() implies exists|j0: int|
                    0 <= j0 < j + 1 && (#[trigger] to_delete@[mm])@ == v[j0].0@ by {
                    if mm < td0.len() {
                        assert(to_delete@[mm] == td0[mm]);
                        let j0 = choose|j0: int| 0 <= j0 < j && (#[trigger] td0[mm])@ == v[j0].0@;
                        assert(to_delete@[mm]@ == v[j0].0@);
                    } else {
                        assert(to_delete@[mm]@ == v[j as int].0@);
                    }
                }
                assert forall|j0: int|
                    0 <= j0 < j + 1 && under_prefix((#[trigger] v[j0]).0@, pv) && !(
                    h0[v[j0].1 as int].op is Delete) implies exists|mm: int|
                    0 <= mm < to_delete@.len() && (#[trigger] to_delete@[mm])@ == v[j0].0@ by {
                    if j0 < j {
                        let mm = choose|mm: int|
                            0 <= mm < td0.len() && (#[trigger] td0[mm])@ == v[j0].0@;
                        assert(to_delete@[mm] == td0[mm]);
                    } else {
                        assert(to_delete@[to_delete@.len() - 1]@ == v[j as int].0@);
                    }
                }
            }
            j = j + 1;
        }
        // The collected list holds every file the contract asks for.
        proof {
            assert forall|fp: Seq<char>|
                under_prefix(fp, pv) && delete_decision(h0, fp) implies exists|m: int|
                    0 <= m < to_delete@.len() && (#[trigger] to_delete@[m])@ == fp by {
                lemma_last_index_for(h0, fp);
                let li = last_index_for(h0, fp);
                assert(h0[li].file@ == fp);
                assert(exists|j0: int|
                    0 <= j0 < view.last_by_file@.len() && (#[trigger] view.last_by_file@[j0]).0@
                        == h0[li].file@);
                let j0 = choose|j0: int|
                    0 <= j0 < view.last_by_file@.len() && (#[trigger] view.last_by_file@[j0]).0@
                        == h0[li].file@;
                assert(view.last_by_file@[j0].1 == last_index_for(h0, fp));
                assert(under_prefix(view.last_by_file@[j0].0@, pv));
            }
        }
        // Phase 2: append one Delete entry per collected file.
        let count = to_delete.len();
        let ghost tdl = to_delete@;
        let mut m: usize = 0;
        while m < count
            invariant
                view_wf(view.last_by_file@, index.history@),
                index_wf(index.history@),
                count == tdl.len(),
                to_delete@ == tdl,
                m <= count,
                index.history@.len() == h0.len() + m,
                index.history@.take(h0.len() as int) == h0,
                forall|mm: int|
                    0 <= mm < tdl.len() ==> under_prefix((#[trigger] tdl[mm])@, pv)
                        && delete_decision(h0, tdl[mm]@),
                forall|m1: int, m2: int|
                    0 <= m1 < m2 < tdl.len() ==> (#[trigger] tdl[m1])@ != (#[trigger] tdl[m2])@,
                forall|fp: Seq<char>|
                    #![trigger under_prefix(fp, pv), delete_decision(h0, fp)]
                    under_prefix(fp, pv) && delete_decision(h0, fp) ==> exists|mm: int|
                        0 <= mm < tdl.len() && (#[trigger] tdl[mm])@ == fp,
                forall|k: int|
                    h0.len() <= k < index.history@.len() ==> ({
                        let e = #[trigger] index.history@[k];
                        &&& e.op is Delete
                        &&& e.checksum is None
                        &&& e.size is None
                        &&& e.mtime_nanos is None
                        &&& e.timestamp == timestamp
                        &&& e.file@ == tdl[k - h0.len()]@
                    }),
                forall|mm: int|
                    m <= mm < tdl.len() ==> last_index_for(index.history@, (#[trigger] tdl[mm])@)
                        == last_index_for(h0, tdl[mm]@),
            decreases count - m,
        {
            let ghost hc = index.history@;
            let ghost fm = tdl[m as int]@;
            proof {
                lemma_last_index_for(h0, fm);
                let li = last_index_for(h0, fm);
                assert(h0[li].file@ == fm);
                assert(entry_shape_ok(h0[li]));
                lemma_normalized_id(fm);
                assert(last_index_for(hc, fm) == li);
                assert(hc[li] == hc.take(h0.len() as int)[li]);
                assert(delete_decision(hc, fm));
            }
            let item = to_delete[m].clone();
            let res = self.record_delete_with_index(item.as_str(), timestamp, index, view);
            proof {
                let h1 = index.history@;
                assert(res is Some);
                assert(h1.drop_last() == hc);
                assert(h1.take(h0.len() as int) =~= hc.take(h0.len() as int));
                assert(h1.last().file@ == normalized(fm));
                assert(h1.last().file@ == fm);
                assert forall|k: int| h0.len() <= k < h1.len() implies ({
                    let e = #[trigger] h1[k];
                    &&& e.op is Delete
                    &&& e.checksum is None
                    &&& e.size is None
                    &&& e.mtime_nanos is None
                    &&& e.timestamp == timestamp
                    &&& e.file@ == tdl[k - h0.len()]@
                }) by {
                    if k < h1.len() - 1 {
                        assert(h1[k] == hc[k]);
                    }
                }
                assert forall|mm: int| m + 1 <= mm < tdl.len() implies last_index_for(
                    h1,
                    (#[trigger] tdl[mm])@,
                ) == last_index_for(h0, tdl[mm]@) by {
                    assert(tdl[mm]@ != fm);
                    assert(h1 == hc.push(h1.last()));
                    lemma_last_index_push(hc, h1.last(), tdl[mm]@);
                }
            }
            m = m + 1;
        }
        proof {
            let h1 = index.history@;
            assert forall|k1: int, k2: int| h0.len() <= k1 < k2 < h1.len() implies (
            #[trigger] h1[k1]).file@ != (#[trigger] h1[k2]).file@ by {
                assert(h1[k1].file@ == tdl[k1 - h0.len()]@);
                assert(h1[k2].file@ == tdl[k2 - h0.len()]@);
            }
            assert forall|fp: Seq<char>|
                #![trigger under_prefix(fp, pv), delete_decision(h0, fp)]
                under_prefix(fp, pv) && delete_decision(h0, fp) implies exists|k: int|
                    h0.len() <= k < h1.len() && (#[trigger] h1[k]).file@ == fp by {
                let mm = choose|mm: int| 0 <= mm < tdl.len() && (#[trigger] tdl[mm])@ == fp;
                assert(h1[h0.len() + mm].file@ == fp);
            }
        }
        count
    }
}

} // verus!
