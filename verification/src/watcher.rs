//! The watcher's decision core: mapping filesystem events to intents, the
//! platform-dependent snapshot trigger, and the batched coalescing of
//! queued work. Consuming OS events and walking directories is the
//! caller's; what each event means is decided here.

use vstd::prelude::*;

verus! {

use crate::path_util::under_prefix;
use crate::text::str_eq;

/// A filesystem event, reduced to the variants the engine distinguishes.
#[derive(Clone, Copy, PartialEq, Eq, Structural, Debug)]
pub enum EventKind {
    CloseWrite,
    Create,
    Modify,
    Remove,
    RenameFrom,
    RenameTo,
    RenameBoth,
    RenameOther,
    Other,
}

/// One path an event names, with what the caller observed of it: whether
/// it lies under the watched root, what kind of node it is now, and
/// whether the path filter tracks it.
pub struct PathInfo {
    pub path: String,
    pub under_root: bool,
    pub is_dir: bool,
    pub is_file: bool,
    pub matched: bool,
}

/// A unit of work for the index worker.
pub enum WorkerTask {
    Snapshot(String),
    DeletePrefix(String),
}

/// What one event path asks of the caller: queue a task, or walk a
/// subtree and queue a snapshot for each matching file in it.
pub enum EventAction {
    Enqueue(WorkerTask),
    WalkAndSnapshot(String),
}

/// Whether an event kind means a file's content is stable enough to
/// snapshot. With close-write events available (Linux), only those
/// qualify; elsewhere creations and modifications do, and downstream
/// deduplication collapses the repeats.
pub open spec fn snapshot_trigger(kind: EventKind, close_write_available: bool) -> bool {
    match kind {
        EventKind::CloseWrite => true,
        EventKind::Create => !close_write_available,
        EventKind::Modify => !close_write_available,
        _ => false,
    }
}

/// The actions for the leaving half of a rename, and for a removal.
pub open spec fn from_actions(p: PathInfo) -> Seq<EventAction> {
    if p.under_root {
        seq![EventAction::Enqueue(WorkerTask::DeletePrefix(p.path))]
    } else {
        Seq::empty()
    }
}

/// The actions for the arriving half of a rename.
pub open spec fn to_actions(p: PathInfo) -> Seq<EventAction> {
    if !p.under_root {
        Seq::empty()
    } else if p.is_dir {
        seq![EventAction::WalkAndSnapshot(p.path)]
    } else if p.is_file && p.matched {
        seq![EventAction::Enqueue(WorkerTask::Snapshot(p.path))]
    } else {
        Seq::empty()
    }
}

/// The actions for a snapshot-trigger event on one path.
pub open spec fn snap_actions(p: PathInfo) -> Seq<EventAction> {
    if p.is_file && p.matched {
        seq![EventAction::Enqueue(WorkerTask::Snapshot(p.path))]
    } else {
        Seq::empty()
    }
}

/// The actions for a creation: newly created directories are walked in
/// case file events under them were missed; where no close-write event
/// exists, a created matching file is snapshotted directly.
pub open spec fn create_actions(p: PathInfo, close_write_available: bool) -> Seq<EventAction> {
    if p.is_dir && p.under_root {
        seq![EventAction::WalkAndSnapshot(p.path)]
    } else if !close_write_available && p.is_file && p.matched {
        seq![EventAction::Enqueue(WorkerTask::Snapshot(p.path))]
    } else {
        Seq::empty()
    }
}

/// All the actions of a per-path mapping over a path list.
pub open spec fn flat_actions(ps: Seq<PathInfo>, f: spec_fn(PathInfo) -> Seq<EventAction>) -> Seq<
    EventAction,
>
    decreases ps.len(),
{
    if ps.len() == 0 {
        Seq::empty()
    } else {
        flat_actions(ps.drop_last(), f) + f(ps.last())
    }
}

/// What one event asks of the caller, per the event-to-intent table:
/// removals and the leaving half of renames become prefixed deletions;
/// arriving renames snapshot a file or walk a directory; creations walk
/// new directories; snapshot triggers snapshot matching files.
pub open spec fn event_actions(
    kind: EventKind,
    ps: Seq<PathInfo>,
    close_write_available: bool,
) -> Seq<EventAction> {
    match kind {
        EventKind::Remove => flat_actions(ps, |p: PathInfo| from_actions(p)),
        EventKind::RenameFrom => flat_actions(ps, |p: PathInfo| from_actions(p)),
        EventKind::RenameTo => flat_actions(ps, |p: PathInfo| to_actions(p)),
        EventKind::RenameBoth => {
            if ps.len() >= 2 {
                from_actions(ps[0]) + to_actions(ps[1])
            } else {
                flat_actions(ps, |p: PathInfo| from_actions(p) + to_actions(p))
            }
        },
        EventKind::RenameOther => flat_actions(ps, |p: PathInfo| from_actions(p) + to_actions(p)),
        EventKind::Create => flat_actions(
            ps,
            |p: PathInfo| create_actions(p, close_write_available),
        ),
        EventKind::CloseWrite => flat_actions(ps, |p: PathInfo| snap_actions(p)),
        EventKind::Modify => {
            if !close_write_available {
                flat_actions(ps, |p: PathInfo| snap_actions(p))
            } else {
                Seq::empty()
            }
        },
        EventKind::Other => Seq::empty(),
    }
}

/// Whether an event kind should trigger a file snapshot on this platform.
pub fn is_snapshot_trigger(kind: EventKind, close_write_available: bool) -> (r: bool)
    ensures
        r == snapshot_trigger(kind, close_write_available),
{
    match kind {
        EventKind::CloseWrite => true,
        EventKind::Create => !close_write_available,
        EventKind::Modify => !close_write_available,
        _ => false,
    }
}

/// A copy of one path record.
fn clone_info(p: &PathInfo) -> (r: PathInfo)
    ensures
        r == *p,
{
    PathInfo {
        path: p.path.clone(),
        under_root: p.under_root,
        is_dir: p.is_dir,
        is_file: p.is_file,
        matched: p.matched,
    }
}

/// Emits the leaving-half actions of `p` onto `out`.
fn emit_from(out: &mut Vec<EventAction>, p: &PathInfo)
    ensures
        final(out)@ == old(out)@ + from_actions(*p),
{
    let ghost o0 = out@;
    if p.under_root {
        let c = clone_info(p);
        out.push(EventAction::Enqueue(WorkerTask::DeletePrefix(c.path)));
        proof {
            assert(out@ =~= o0 + from_actions(*p));
        }
    } else {
        proof {
            assert(out@ =~= o0 + from_actions(*p));
        }
    }
}

/// Emits the arriving-half actions of `p` onto `out`.
fn emit_to(out: &mut Vec<EventAction>, p: &PathInfo)
    ensures
        final(out)@ == old(out)@ + to_actions(*p),
{
    let ghost o0 = out@;
    if p.under_root {
        if p.is_dir {
            let c = clone_info(p);
            out.push(EventAction::WalkAndSnapshot(c.path));
        } else if p.is_file && p.matched {
            let c = clone_info(p);
            out.push(EventAction::Enqueue(WorkerTask::Snapshot(c.path)));
        }
    }
    proof {
        assert(out@ =~= o0 + to_actions(*p));
    }
}

/// Emits the snapshot-trigger actions of `p` onto `out`.
fn emit_snap(out: &mut Vec<EventAction>, p: &PathInfo)
    ensures
        final(out)@ == old(out)@ + snap_actions(*p),
{
    let ghost o0 = out@;
    if p.is_file && p.matched {
        let c = clone_info(p);
        out.push(EventAction::Enqueue(WorkerTask::Snapshot(c.path)));
    }
    proof {
        assert(out@ =~= o0 + snap_actions(*p));
    }
}

/// Emits the creation actions of `p` onto `out`.
fn emit_create(out: &mut Vec<EventAction>, p: &PathInfo, close_write_available: bool)
    ensures
        final(out)@ == old(out)@ + create_actions(*p, close_write_available),
{
    let ghost o0 = out@;
    if p.is_dir && p.under_root {
        let c = clone_info(p);
        out.push(EventAction::WalkAndSnapshot(c.path));
    } else if !close_write_available && p.is_file && p.matched {
        let c = clone_info(p);
        out.push(EventAction::Enqueue(WorkerTask::Snapshot(c.path)));
    }
    proof {
        assert(out@ =~= o0 + create_actions(*p, close_write_available));
    }
}

/// Translates one filesystem event into the actions the caller performs.
#[verifier::loop_isolation(false)]
pub fn translate_event(kind: EventKind, paths: &Vec<PathInfo>, close_write_available: bool) -> (r:
    Vec<EventAction>)
    ensures
        r@ == event_actions(kind, paths@, close_write_available),
{
    let mut out: Vec<EventAction> = Vec::new();
    match kind {
        EventKind::Remove | EventKind::RenameFrom => {
            let ghost f = |p: PathInfo| from_actions(p);
            let n = paths.len();
            let mut i: usize = 0;
            while i < n
                invariant
                    i <= n,
                    out@ == flat_actions(paths@.take(i as int), f),
                decreases n - i,
            {
                emit_from(&mut out, &paths[i]);
                proof {
                    assert(paths@.take(i + 1).drop_last() =~= paths@.take(i as int));
                }
                i = i + 1;
            }
            proof {
                assert(paths@.take(n as int) =~= paths@);
            }
        },
        EventKind::RenameTo => {
            let ghost f = |p: PathInfo| to_actions(p);
            let n = paths.len();
            let mut i: usize = 0;
            while i < n
                invariant
                    i <= n,
                    out@ == flat_actions(paths@.take(i as int), f),
                decreases n - i,
            {
                emit_to(&mut out, &paths[i]);
                proof {
                    assert(paths@.take(i + 1).drop_last() =~= paths@.take(i as int));
                }
                i = i + 1;
            }
            proof {
                assert(paths@.take(n as int) =~= paths@);
            }
        },
        EventKind::RenameBoth => {
            if paths.len() >= 2 {
                emit_from(&mut out, &paths[0]);
                emit_to(&mut out, &paths[1]);
            } else {
                let ghost f = |p: PathInfo| from_actions(p) + to_actions(p);
                let n = paths.len();
                let mut i: usize = 0;
                while i < n
                    invariant
                        i <= n,
                        out@ == flat_actions(paths@.take(i as int), f),
                    decreases n - i,
                {
                    emit_from(&mut out, &paths[i]);
                    emit_to(&mut out, &paths[i]);
                    proof {
                        assert(paths@.take(i + 1).drop_last() =~= paths@.take(i as int));
                    }
                    i = i + 1;
                }
                proof {
                    assert(paths@.take(n as int) =~= paths@);
                }
            }
        },
        EventKind::RenameOther => {
            let ghost f = |p: PathInfo| from_actions(p) + to_actions(p);
            let n = paths.len();
            let mut i: usize = 0;
            while i < n
                invariant
                    i <= n,
                    out@ == flat_actions(paths@.take(i as int), f),
                decreases n - i,
            {
                emit_from(&mut out, &paths[i]);
                emit_to(&mut out, &paths[i]);
                proof {
                    assert(paths@.take(i + 1).drop_last() =~= paths@.take(i as int));
                }
                i = i + 1;
            }
            proof {
                assert(paths@.take(n as int) =~= paths@);
            }
        },
        EventKind::Create => {
            let ghost f = |p: PathInfo| create_actions(p, close_write_available);
            let n = paths.len();
            let mut i: usize = 0;
            while i < n
                invariant
                    i <= n,
                    out@ == flat_actions(paths@.take(i as int), f),
                decreases n - i,
            {
                emit_create(&mut out, &paths[i], close_write_available);
                proof {
                    assert(paths@.take(i + 1).drop_last() =~= paths@.take(i as int));
                }
                i = i + 1;
            }
            proof {
                assert(paths@.take(n as int) =~= paths@);
            }
        },
        EventKind::CloseWrite => {
            let ghost f = |p: PathInfo| snap_actions(p);
            let n = paths.len();
            let mut i: usize = 0;
            while i < n
                invariant
                    i <= n,
                    out@ == flat_actions(paths@.take(i as int), f),
                decreases n - i,
            {
                emit_snap(&mut out, &paths[i]);
                proof {
                    assert(paths@.take(i + 1).drop_last() =~= paths@.take(i as int));
                }
                i = i + 1;
            }
            proof {
                assert(paths@.take(n as int) =~= paths@);
            }
        },
        EventKind::Modify => {
            if !close_write_available {
                let ghost f = |p: PathInfo| snap_actions(p);
                let n = paths.len();
                let mut i: usize = 0;
                while i < n
                    invariant
                        i <= n,
                        out@ == flat_actions(paths@.take(i as int), f),
                    decreases n - i,
                {
                    emit_snap(&mut out, &paths[i]);
                    proof {
                        assert(paths@.take(i + 1).drop_last() =~= paths@.take(i as int));
                    }
                    i = i + 1;
                }
                proof {
                    assert(paths@.take(n as int) =~= paths@);
                }
            }
        },
        EventKind::Other => {},
    }
    out
}

/// Whether the task at `i` survives coalescing: a snapshot only as the
/// last occurrence for its path, a prefixed deletion only when no other
/// queued deletion covers it from above and none equal precedes it.
pub open spec fn keep_at(batch: Seq<WorkerTask>, i: int) -> bool {
    match batch[i] {
        WorkerTask::Snapshot(p) => forall|j: int|
            i < j < batch.len() ==> !((#[trigger] batch[j]) matches WorkerTask::Snapshot(q) && q@
                == p@),
        WorkerTask::DeletePrefix(p) => {
            &&& (forall|j: int|
                0 <= j < batch.len() ==> !((#[trigger] batch[j]) matches WorkerTask::DeletePrefix(q)
                    && q@ != p@ && under_prefix(p@, q@)))
            &&& (forall|j: int|
                0 <= j < i ==> !((#[trigger] batch[j]) matches WorkerTask::DeletePrefix(q) && q@
                    == p@))
        },
    }
}

/// The surviving tasks of the first `i` queue entries, in order.
pub open spec fn dedup_upto(batch: Seq<WorkerTask>, i: int) -> Seq<WorkerTask>
    decreases i,
{
    if i <= 0 {
        Seq::empty()
    } else {
        dedup_upto(batch, i - 1) + (if keep_at(batch, i - 1) {
            seq![batch[i - 1]]
        } else {
            Seq::empty()
        })
    }
}

/// A copy of one task.
fn clone_task(t: &WorkerTask) -> (r: WorkerTask)
    ensures
        r == *t,
{
    match t {
        WorkerTask::Snapshot(p) => WorkerTask::Snapshot(p.clone()),
        WorkerTask::DeletePrefix(p) => WorkerTask::DeletePrefix(p.clone()),
    }
}

/// Coalesces a drained burst of queued tasks: of repeated snapshots for
/// one path only the last stays; a prefixed deletion covered by a broader
/// one in the same batch goes, as does a repeat of an equal one. Order is
/// otherwise kept.
#[verifier::loop_isolation(false)]
pub fn deduplicate_batch(batch: Vec<WorkerTask>) -> (r: Vec<WorkerTask>)
    ensures
        r@ == dedup_upto(batch@, batch@.len() as int),
{
    let n = batch.len();
    let mut r: Vec<WorkerTask> = Vec::new();
    let mut i: usize = 0;
    while i < n
        invariant
            i <= n,
            r@ == dedup_upto(batch@, i as int),
        decreases n - i,
    {
        let keep: bool;
        match &batch[i] {
            WorkerTask::Snapshot(p) => {
                let mut later = false;
                let mut j = i + 1;
                while j < n
                    invariant
                        i < j <= n,
                        later == !(forall|k: int|
                            i < k < j ==> !((#[trigger] batch@[k]) matches WorkerTask::Snapshot(q)
                                && q@ == p@)),
                    decreases n - j,
                {
                    match &batch[j] {
                        WorkerTask::Snapshot(q) => {
                            if str_eq(q.as_str(), p.as_str()) {
                                later = true;
                            }
                        },
                        _ => {},
                    }
                    j = j + 1;
                }
                keep = !later;
            },
            WorkerTask::DeletePrefix(p) => {
                let mut dominated = false;
                let mut j: usize = 0;
                while j < n
                    invariant
                        j <= n,
                        dominated == !(forall|k: int|
                            0 <= k < j ==> !((#[trigger] batch@[k])
                                matches WorkerTask::DeletePrefix(q) && q@ != p@ && under_prefix(
                                p@,
                                q@,
                            ))),
                    decreases n - j,
                {
                    match &batch[j] {
                        WorkerTask::DeletePrefix(q) => {
                            if !str_eq(q.as_str(), p.as_str()) {
                                if crate::path_util::path_under_prefix(p.as_str(), q.as_str()) {
                                    dominated = true;
                                }
                            }
                        },
                        _ => {},
                    }
                    j = j + 1;
                }
                let mut repeated = false;
                let mut j2: usize = 0;
                while j2 < i
                    invariant
                        j2 <= i,
                        i < n,
                        repeated == !(forall|k: int|
                            0 <= k < j2 ==> !((#[trigger] batch@[k])
                                matches WorkerTask::DeletePrefix(q) && q@ == p@)),
                    decreases i - j2,
                {
                    match &batch[j2] {
                        WorkerTask::DeletePrefix(q) => {
                            if str_eq(q.as_str(), p.as_str()) {
                                repeated = true;
                            }
                        },
                        _ => {},
                    }
                    j2 = j2 + 1;
                }
                keep = !dominated && !repeated;
            },
        }
        proof {
            assert(keep == keep_at(batch@, i as int));
        }
        if keep {
            let t = clone_task(&batch[i]);
            r.push(t);
        }
        proof {
            assert(r@ =~= dedup_upto(batch@, i + 1));
        }
        i = i + 1;
    }
    r
}

} // verus!
