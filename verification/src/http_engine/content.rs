//! What is in the part file: laws that lead from the blocks that workers write to the
//! finished file.
use crate::control_file::ControlFile;
use crate::error::SparklingError;
use crate::http_engine::batch::{by_left, by_left_keeps_table, by_left_same};
use crate::http_engine::download::{fresh_table, is_renewed, part_created};
use crate::http_engine::retry::RetryPolicy;
use crate::http_engine::run::{is_plan, publish_fault, PlanView};
use crate::http_engine::shared::{
    after_progress, after_steal, can_steal, place, place_is_first, progress_keeps_partition,
    richest_is_max, stealing_keeps_partition, SharedView,
};
use crate::http_engine::worker::{
    begun, fetched, streamed, synced, FetchView, OutcomeView, SegmentWorker,
};
use crate::probe::ProbeResult;
use crate::segment::{
    all_counted_means_all_written, all_wf, held, split_tiles, sum_downloaded, sum_size, tiles,
    Segment,
};
use crate::task::TaskSpec;
use vstd::prelude::*;

verus! {

/// Every byte that a segment counts as downloaded is in the part file as it is in the
/// remote file.
pub open spec fn faithful(file: Seq<u8>, remote: Seq<u8>, segs: Seq<Segment>) -> bool {
    &&& file.len() == remote.len()
    &&& forall|i: int, b: int|
        #![trigger segs[i].has_written(b)]
        0 <= i < segs.len() && segs[i].has_written(b) && 0 <= b < remote.len() ==> file[b]
            == remote[b]
}

/// The file after a block has been written at an offset.
pub open spec fn written(file: Seq<u8>, at: int, block: Seq<u8>) -> Seq<u8> {
    Seq::new(
        file.len(),
        |b: int|
            if at <= b < at + block.len() {
                block[b - at]
            } else {
                file[b]
            },
    )
}

/// The block is what the remote file has at the offset.
pub open spec fn block_of(remote: Seq<u8>, at: int, block: Seq<u8>) -> bool {
    &&& 0 <= at
    &&& at + block.len() <= remote.len()
    &&& forall|k: int| 0 <= k < block.len() ==> #[trigger] block[k] == remote[at + k]
}

/// Where nothing counts as downloaded, nothing can be wrong.
pub proof fn nothing_downloaded_is_faithful(file: Seq<u8>, remote: Seq<u8>, segs: Seq<Segment>)
    requires
        file.len() == remote.len(),
        forall|i: int| 0 <= i < segs.len() ==> (#[trigger] segs[i]).downloaded == 0,
    ensures
        faithful(file, remote, segs),
{
}

/// Writing the next block of a worker's segment behind what it has, and counting it, keeps
/// the file right, also where the segment has been cut meanwhile.
pub proof fn next_block_keeps_faithful(
    file: Seq<u8>,
    remote: Seq<u8>,
    segs: Seq<Segment>,
    seg: Segment,
    block: Seq<u8>,
)
    requires
        faithful(file, remote, segs),
        tiles(segs, remote.len() as int),
        synced(seg, segs),
        block_of(remote, seg.start + seg.downloaded, block),
        seg.downloaded + block.len() <= u64::MAX,
    ensures
        faithful(
            written(file, seg.start + seg.downloaded, block),
            remote,
            after_progress(segs, seg.index, (seg.downloaded + block.len()) as u64),
        ),
{
    let at = seg.start + seg.downloaded;
    let out = after_progress(segs, seg.index, (seg.downloaded + block.len()) as u64);
    let f = written(file, at, block);
    place_is_first(segs, seg.index);
    let k = place(segs, seg.index)->0;
    assert(segs[k].wf());
    assert forall|i: int, b: int|
        #![trigger out[i].has_written(b)]
        0 <= i < out.len() && out[i].has_written(b) && 0 <= b < remote.len() implies f[b]
        == remote[b] by {
        if at <= b < at + block.len() {
            assert(block[b - at] == remote[at + (b - at)]);
        } else {
            if i == k {
                assert(segs[k].has_written(b));
            } else {
                assert(out[i] == segs[i]);
                assert(segs[i].has_written(b));
            }
        }
    }
}

/// Handing over part of a segment keeps the file right.
pub proof fn theft_keeps_faithful(file: Seq<u8>, remote: Seq<u8>, segs: Seq<Segment>)
    requires
        faithful(file, remote, segs),
        tiles(segs, remote.len() as int),
        can_steal(segs),
    ensures
        faithful(file, remote, after_steal(segs)),
{
    richest_is_max(segs);
    let out = after_steal(segs);
    assert forall|i: int, b: int|
        #![trigger out[i].has_written(b)]
        0 <= i < out.len() && out[i].has_written(b) && 0 <= b < remote.len() implies file[b]
        == remote[b] by {
        if i < segs.len() {
            assert(segs[i].has_written(b));
        }
    }
}

/// Setting a segment back to its start keeps the file right.
pub proof fn reset_keeps_faithful(
    file: Seq<u8>,
    remote: Seq<u8>,
    segs: Seq<Segment>,
    index: usize,
)
    requires
        faithful(file, remote, segs),
        all_wf(segs),
    ensures
        faithful(file, remote, after_progress(segs, index, 0)),
{
    place_is_first(segs, index);
    if let Some(k) = place(segs, index) {
        assert(segs[k].wf());
    }
    let out = after_progress(segs, index, 0);
    assert forall|i: int, b: int|
        #![trigger out[i].has_written(b)]
        0 <= i < out.len() && out[i].has_written(b) && 0 <= b < remote.len() implies file[b]
        == remote[b] by {
        if out[i].downloaded > 0 {
            assert(segs[i].has_written(b));
        }
    }
}

/// Putting the table in another order keeps the file right.
pub proof fn sorting_keeps_faithful(file: Seq<u8>, remote: Seq<u8>, segs: Seq<Segment>)
    requires
        faithful(file, remote, segs),
    ensures
        faithful(file, remote, by_left(segs)),
{
    by_left_same(segs);
    let out = by_left(segs);
    assert forall|i: int, b: int|
        #![trigger out[i].has_written(b)]
        0 <= i < out.len() && out[i].has_written(b) && 0 <= b < remote.len() implies file[b]
        == remote[b] by {
        assert(out.contains(out[i]));
        assert(segs.contains(out[i]));
        let k = choose|k: int| 0 <= k < segs.len() && segs[k] == out[i];
        assert(segs[k].has_written(b));
    }
}

/// Whatever happens to a worker, its steps keep the partition of the file and the
/// rightness of what is in it.
pub proof fn worker_steps_keep_file(
    file: Seq<u8>,
    remote: Seq<u8>,
    w: SegmentWorker,
    sh: SharedView,
    policy: RetryPolicy,
    reply: FetchView,
    outcome: OutcomeView,
)
    requires
        tiles(sh.segments, remote.len() as int),
        faithful(file, remote, sh.segments),
    ensures
        tiles(begun(w, sh).shared.segments, remote.len() as int),
        faithful(file, remote, begun(w, sh).shared.segments),
        tiles(fetched(w, sh, policy, reply).shared.segments, remote.len() as int),
        faithful(file, remote, fetched(w, sh, policy, reply).shared.segments),
        tiles(streamed(w, sh, policy, outcome).shared.segments, remote.len() as int),
        faithful(file, remote, streamed(w, sh, policy, outcome).shared.segments),
{
    let total = remote.len() as int;
    if can_steal(sh.segments) {
        stealing_keeps_partition(sh.segments, total);
        theft_keeps_faithful(file, remote, sh.segments);
    }
    progress_keeps_partition(sh.segments, total, w.seg.index, 0);
    reset_keeps_faithful(file, remote, sh.segments, w.seg.index);
}

/// The file that is published is the remote file, byte for byte, where the part file is
/// right in what counts as downloaded.
pub proof fn published_file_is_the_remote_file(
    file: Seq<u8>,
    remote: Seq<u8>,
    sh: SharedView,
    actual: Result<Seq<char>, Seq<char>>,
)
    requires
        publish_fault(sh, actual) is None,
        sh.probe.total == remote.len(),
        tiles(sh.segments, remote.len() as int),
        sh.downloaded == sum_downloaded(sh.segments),
        faithful(file, remote, sh.segments),
    ensures
        file == remote,
{
    assert forall|b: int| 0 <= b < remote.len() implies file[b] == remote[b] by {
        all_counted_means_all_written(sh.segments, remote.len() as int, b);
        let i = choose|i: int| 0 <= i < sh.segments.len() && (#[trigger] sh.segments[i]).has_written(
            b,
        );
        assert(sh.segments[i].has_written(b));
    }
    assert(file =~= remote);
}

// ---------------------------------------------------------------------------
// The whole course
// ---------------------------------------------------------------------------
/// A part file and the table of its segments.
pub struct Content {
    pub file: Seq<u8>,
    pub table: Seq<Segment>,
}

/// A worker has written the next block of its segment, as the remote file has it.
pub open spec fn block_written(
    remote: Seq<u8>,
    a: Content,
    b: Content,
    seg: Segment,
    block: Seq<u8>,
) -> bool {
    &&& synced(seg, a.table)
    &&& block_of(remote, seg.start + seg.downloaded, block)
    &&& seg.downloaded + block.len() <= u64::MAX
    &&& b.file == written(a.file, seg.start + seg.downloaded, block)
    &&& b.table == after_progress(a.table, seg.index, (seg.downloaded + block.len()) as u64)
}

/// A segment has been set back to its start.
pub open spec fn segment_reset(a: Content, b: Content, index: usize) -> bool {
    b.file == a.file && b.table == after_progress(a.table, index, 0)
}

/// What can happen to a part file and its table while the workers are at it: a block is
/// written, part of a segment is handed over, a segment is set back, or the table is sorted
/// for a new batch.
pub open spec fn work_step(remote: Seq<u8>, a: Content, b: Content) -> bool {
    ||| exists|seg: Segment, block: Seq<u8>| #[trigger] block_written(remote, a, b, seg, block)
    ||| can_steal(a.table) && b.file == a.file && b.table == after_steal(a.table)
    ||| exists|index: usize| #[trigger] segment_reset(a, b, index)
    ||| b.file == a.file && b.table == by_left(a.table)
}

/// Every two neighbours are a step apart.
pub open spec fn is_course(remote: Seq<u8>, course: Seq<Content>) -> bool {
    forall|i: int|
        #![trigger course[i]]
        0 <= i < course.len() - 1 ==> work_step(remote, course[i], course[i + 1])
}

proof fn step_keeps_content(remote: Seq<u8>, a: Content, b: Content)
    requires
        work_step(remote, a, b),
        tiles(a.table, remote.len() as int),
        faithful(a.file, remote, a.table),
    ensures
        tiles(b.table, remote.len() as int),
        faithful(b.file, remote, b.table),
{
    let total = remote.len() as int;
    if exists|seg: Segment, block: Seq<u8>| #[trigger] block_written(remote, a, b, seg, block) {
        let (seg, block) = choose|seg: Segment, block: Seq<u8>| #[trigger]
            block_written(remote, a, b, seg, block);
        next_block_keeps_faithful(a.file, remote, a.table, seg, block);
        progress_keeps_partition(
            a.table,
            total,
            seg.index,
            (seg.downloaded + block.len()) as u64,
        );
    } else if exists|index: usize| #[trigger] segment_reset(a, b, index) {
        let index = choose|index: usize| #[trigger] segment_reset(a, b, index);
        reset_keeps_faithful(a.file, remote, a.table, index);
        progress_keeps_partition(a.table, total, index, 0);
    } else if b.file == a.file && b.table == by_left(a.table) {
        sorting_keeps_faithful(a.file, remote, a.table);
        by_left_keeps_table(a.table, total);
    } else {
        theft_keeps_faithful(a.file, remote, a.table);
        stealing_keeps_partition(a.table, total);
    }
}

proof fn course_keeps_content(remote: Seq<u8>, course: Seq<Content>, n: int)
    requires
        is_course(remote, course),
        0 <= n < course.len(),
        tiles(course[0].table, remote.len() as int),
        faithful(course[0].file, remote, course[0].table),
    ensures
        tiles(course[n].table, remote.len() as int),
        faithful(course[n].file, remote, course[n].table),
    decreases n,
{
    if n > 0 {
        course_keeps_content(remote, course, n - 1);
        assert(work_step(remote, course[n - 1], course[n]));
        step_keeps_content(remote, course[n - 1], course[n]);
    }
}

/// The leftovers of an earlier download are deleted only for one that starts from nothing.
pub open spec fn discards_for_fresh(plan: PlanView, spec: TaskSpec) -> bool {
    plan is Segmented && plan->Segmented_discard ==> fresh_table(
        plan->Segmented_shared.segments,
        plan->Segmented_shared.probe.total,
        spec.segments,
    )
}

/// Every plan that is made of a probed file is like that.
pub proof fn plans_discard_for_fresh(
    plan: PlanView,
    spec: TaskSpec,
    probe: ProbeResult,
    filename: Seq<char>,
    ctl: Option<Result<ControlFile, SparklingError>>,
)
    requires
        is_plan(plan, spec, probe, filename, ctl),
    ensures
        discards_for_fresh(plan, spec),
{
}

/// The length of the part file when the leftovers have been dealt with.
pub open spec fn length_left(plan: PlanView, len: Option<u64>) -> Option<u64> {
    if plan is Segmented && plan->Segmented_discard {
        None
    } else {
        len
    }
}

/// A part file that is created anew goes with a table that partitions the file and of which
/// nothing counts as downloaded, so it is right whatever it holds.
pub proof fn new_part_file_counts_nothing(
    plan: PlanView,
    out: PlanView,
    spec: TaskSpec,
    len: Option<u64>,
    file: Seq<u8>,
    remote: Seq<u8>,
)
    requires
        discards_for_fresh(plan, spec),
        is_renewed(out, plan, spec, len),
        out is Segmented,
        part_created(out, length_left(out, len)),
        out->Segmented_shared.probe.total == remote.len(),
        file.len() == remote.len(),
    ensures
        tiles(out->Segmented_shared.segments, remote.len() as int),
        sum_downloaded(out->Segmented_shared.segments) == 0,
        faithful(file, remote, out->Segmented_shared.segments),
{
    let segs = out->Segmented_shared.segments;
    let total = out->Segmented_shared.probe.total;
    assert(fresh_table(segs, total, spec.segments));
    if total > 0 {
        split_tiles(segs, total, spec.segments);
    } else {
        assert(sum_size(segs) == 0);
        assert(forall|b: int| !(#[trigger] held(segs, b)));
    }
    nothing_downloaded_is_faithful(file, remote, segs);
}

/// From the plan to the published file: whether a download starts from nothing, goes on from
/// a part file that is right, or has lost its part file, what its workers leave behind is
/// the remote file when it is published, whatever happened on the way.
pub proof fn whole_course_gives_the_remote_file(
    plan: PlanView,
    out: PlanView,
    spec: TaskSpec,
    len: Option<u64>,
    remote: Seq<u8>,
    course: Seq<Content>,
    sh: SharedView,
    actual: Result<Seq<char>, Seq<char>>,
)
    requires
        discards_for_fresh(plan, spec),
        is_renewed(out, plan, spec, len),
        out is Segmented,
        out->Segmented_shared.probe.total == remote.len(),
        course.len() > 0,
        course[0].table == out->Segmented_shared.segments,
        course[0].file.len() == remote.len(),
        !part_created(out, length_left(out, len)) ==> tiles(
            course[0].table,
            remote.len() as int,
        ) && faithful(course[0].file, remote, course[0].table),
        is_course(remote, course),
        sh.segments == course.last().table,
        sh.downloaded == sum_downloaded(sh.segments),
        sh.probe.total == remote.len(),
        publish_fault(sh, actual) is None,
    ensures
        course.last().file == remote,
{
    if part_created(out, length_left(out, len)) {
        new_part_file_counts_nothing(plan, out, spec, len, course[0].file, remote);
    }
    course_keeps_content(remote, course, course.len() - 1);
    published_file_is_the_remote_file(course.last().file, remote, sh, actual);
}

} // verus!
