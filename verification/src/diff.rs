//! Assembling a line diff for display: each changed range, as an outside
//! diff algorithm reports it, becomes a hunk of tagged lines with up to
//! three lines of context around it. Computing the ranges is the
//! caller's; what a hunk holds is decided here.

use vstd::prelude::*;

verus! {

/// How one line of a hunk relates the two versions.
#[derive(Clone, Copy, PartialEq, Eq, Structural, Debug)]
pub enum DiffTag {
    Equal,
    Insert,
    Delete,
}

/// One display line of a hunk.
pub struct DiffLine {
    pub tag: DiffTag,
    pub content: String,
}

/// One hunk: where it starts in either version (1-based) and its lines.
pub struct DiffHunk {
    pub old_start: usize,
    pub new_start: usize,
    pub lines: Vec<DiffLine>,
}

/// Builds one hunk from a changed range: `[before_start, before_end)` of
/// the old lines was replaced by `[after_start, after_end)` of the new
/// ones. The hunk holds up to three old lines of leading context, the
/// deleted old lines, the inserted new lines, and up to three new lines
/// of trailing context, with 1-based start positions.
#[verifier::loop_isolation(false)]
pub fn assemble_hunk(
    old_lines: &Vec<String>,
    new_lines: &Vec<String>,
    before_start: usize,
    before_end: usize,
    after_start: usize,
    after_end: usize,
) -> (r: DiffHunk)
    requires
        before_start <= before_end <= old_lines@.len(),
        after_start <= after_end <= new_lines@.len(),
        old_lines@.len() < usize::MAX,
        new_lines@.len() < usize::MAX,
    ensures
        ({
            let ctx_old = if before_start >= 3 {
                before_start - 3
            } else {
                0
            };
            let ctx_new_end = if after_end + 3 <= new_lines@.len() {
                after_end + 3
            } else {
                new_lines@.len() as int
            };
            let lead = before_start - ctx_old;
            let dels = before_end - before_start;
            let ins = after_end - after_start;
            let trail = ctx_new_end - after_end;
            &&& r.old_start == ctx_old + 1
            &&& r.new_start == (if after_start >= 3 {
                after_start - 3
            } else {
                0
            }) + 1
            &&& r.lines@.len() == lead + dels + ins + trail
            &&& (forall|k: int|
                0 <= k < lead ==> (#[trigger] r.lines@[k]).tag == DiffTag::Equal && r.lines@[k].content@
                    == old_lines@[ctx_old + k]@)
            &&& (forall|k: int|
                0 <= k < dels ==> (#[trigger] r.lines@[lead + k]).tag == DiffTag::Delete
                    && r.lines@[lead + k].content@ == old_lines@[before_start + k]@)
            &&& (forall|k: int|
                0 <= k < ins ==> (#[trigger] r.lines@[lead + dels + k]).tag == DiffTag::Insert
                    && r.lines@[lead + dels + k].content@ == new_lines@[after_start + k]@)
            &&& (forall|k: int|
                0 <= k < trail ==> (#[trigger] r.lines@[lead + dels + ins + k]).tag
                    == DiffTag::Equal && r.lines@[lead + dels + ins + k].content@ == new_lines@[
                after_end + k]@)
        }),
{
    let ctx_old_start: usize = if before_start >= 3 {
        before_start - 3
    } else {
        0
    };
    let ctx_new_end: usize = if new_lines.len() - after_end > 3 {
        after_end + 3
    } else {
        new_lines.len()
    };
    let mut lines: Vec<DiffLine> = Vec::new();
    let ghost lead = before_start - ctx_old_start;
    let mut i = ctx_old_start;
    while i < before_start
        invariant
            ctx_old_start <= i <= before_start,
            lines@.len() == i - ctx_old_start,
            forall|k: int|
                0 <= k < lines@.len() ==> (#[trigger] lines@[k]).tag == DiffTag::Equal
                    && lines@[k].content@ == old_lines@[ctx_old_start + k]@,
        decreases before_start - i,
    {
        lines.push(DiffLine { tag: DiffTag::Equal, content: old_lines[i].clone() });
        i = i + 1;
    }
    let mut i2 = before_start;
    while i2 < before_end
        invariant
            before_start <= i2 <= before_end,
            lines@.len() == lead + i2 - before_start,
            forall|k: int|
                0 <= k < lead ==> (#[trigger] lines@[k]).tag == DiffTag::Equal
                    && lines@[k].content@ == old_lines@[ctx_old_start + k]@,
            forall|k: int|
                0 <= k < i2 - before_start ==> (#[trigger] lines@[lead + k]).tag == DiffTag::Delete
                    && lines@[lead + k].content@ == old_lines@[before_start + k]@,
        decreases before_end - i2,
    {
        lines.push(DiffLine { tag: DiffTag::Delete, content: old_lines[i2].clone() });
        i2 = i2 + 1;
    }
    let ghost dels = before_end - before_start;
    let mut i3 = after_start;
    while i3 < after_end
        invariant
            after_start <= i3 <= after_end,
            lines@.len() == lead + dels + i3 - after_start,
            forall|k: int|
                0 <= k < lead ==> (#[trigger] lines@[k]).tag == DiffTag::Equal
                    && lines@[k].content@ == old_lines@[ctx_old_start + k]@,
            forall|k: int|
                0 <= k < dels ==> (#[trigger] lines@[lead + k]).tag == DiffTag::Delete
                    && lines@[lead + k].content@ == old_lines@[before_start + k]@,
            forall|k: int|
                0 <= k < i3 - after_start ==> (#[trigger] lines@[lead + dels + k]).tag
                    == DiffTag::Insert && lines@[lead + dels + k].content@ == new_lines@[after_start
                    + k]@,
        decreases after_end - i3,
    {
        lines.push(DiffLine { tag: DiffTag::Insert, content: new_lines[i3].clone() });
        i3 = i3 + 1;
    }
    let ghost ins = after_end - after_start;
    let mut i4 = after_end;
    while i4 < ctx_new_end
        invariant
            after_end <= i4 <= ctx_new_end,
            ctx_new_end <= new_lines@.len(),
            lines@.len() == lead + dels + ins + i4 - after_end,
            forall|k: int|
                0 <= k < lead ==> (#[trigger] lines@[k]).tag == DiffTag::Equal
                    && lines@[k].content@ == old_lines@[ctx_old_start + k]@,
            forall|k: int|
                0 <= k < dels ==> (#[trigger] lines@[lead + k]).tag == DiffTag::Delete
                    && lines@[lead + k].content@ == old_lines@[before_start + k]@,
            forall|k: int|
                0 <= k < ins ==> (#[trigger] lines@[lead + dels + k]).tag == DiffTag::Insert
                    && lines@[lead + dels + k].content@ == new_lines@[after_start + k]@,
            forall|k: int|
                0 <= k < i4 - after_end ==> (#[trigger] lines@[lead + dels + ins + k]).tag
                    == DiffTag::Equal && lines@[lead + dels + ins + k].content@ == new_lines@[
                after_end + k]@,
        decreases ctx_new_end - i4,
    {
        lines.push(DiffLine { tag: DiffTag::Equal, content: new_lines[i4].clone() });
        i4 = i4 + 1;
    }
    let old_start = ctx_old_start + 1;
    let new_start = (if after_start >= 3 {
        after_start - 3
    } else {
        0
    }) + 1;
    DiffHunk { old_start, new_start, lines }
}

} // verus!
