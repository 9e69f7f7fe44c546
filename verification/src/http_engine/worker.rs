//! Workers as state machines: a worker is told what happened and answers what to do next.
use crate::control_file::{ControlFile, ControlFileView};
use crate::error::{cat, ErrorView, SparklingError};
use crate::http_engine::retry::{delay, Delay, RetryPolicy};
use crate::http_engine::shared::{
    after_progress, after_progress_ok, after_steal, after_steal_ok, can_steal, place,
    place_is_first, place_of, richest, richest_is_max, stolen, table_ok, Shared, SharedView,
    STEAL_THRESHOLD,
};
use crate::segment::{sum_downloaded, Segment};
use crate::text::{decimal, decimal_of};
use crate::throttle::min_of;
use vstd::prelude::*;
use vstd::string::StringExecFns;

verus! {

// ---------------------------------------------------------------------------
// Range requests
// ---------------------------------------------------------------------------
/// The `Range` header of a request for the bytes from `start` to `end`, none where the
/// whole file is asked for.
pub open spec fn range_text(start: int, end: Option<u64>) -> Option<Seq<char>> {
    match end {
        Some(e) => Some("bytes="@ + decimal(start as nat) + "-"@ + decimal(e as nat)),
        None => if start > 0 {
            Some("bytes="@ + decimal(start as nat) + "-"@)
        } else {
            None
        },
    }
}

/// The `Range` header of a request for the bytes from `start` to `end`.
pub fn range_header(start: u64, end: Option<u64>) -> (r: Option<String>)
    ensures
        crate::text::opt_view(r) == range_text(start as int, end),
{
    match end {
        Some(e) => Some(
            cat("bytes=", decimal_of(start).as_str()).concat("-").concat(decimal_of(e).as_str()),
        ),
        None => {
            if start > 0 {
                Some(cat("bytes=", decimal_of(start).as_str()).concat("-"))
            } else {
                None
            }
        },
    }
}

/// What is wrong with a response of the given status, if anything.
pub open spec fn fetch_fault(status: u16, url: Seq<char>) -> Option<ErrorView> {
    if status == 416 {
        Some(ErrorView::HttpStatus { status, detail: "Range 不可满足，将重置分片"@ })
    } else if 200 <= status < 300 {
        None
    } else {
        Some(ErrorView::HttpStatus { status, detail: "GET 失败: "@ + url })
    }
}

/// Whether a response of the given status can be read from.
pub fn check_fetch(status: u16, url: &str) -> (r: Result<(), SparklingError>)
    ensures
        match r {
            Ok(()) => fetch_fault(status, url@) is None,
            Err(e) => fetch_fault(status, url@) == Some(e@),
        },
{
    if status == 416 {
        return Err(
            SparklingError::HttpStatus { status, detail: "Range 不可满足，将重置分片".to_owned() },
        );
    }
    if 200 <= status && status < 300 {
        Ok(())
    } else {
        Err(SparklingError::HttpStatus { status, detail: cat("GET 失败: ", url) })
    }
}

/// What came of a request.
#[derive(Debug)]
pub enum FetchReply {
    /// A response with this successful status is open for reading.
    Opened(u16),
    /// There is nothing to read.
    Refused(SparklingError),
}

pub enum FetchView {
    Opened(u16),
    Refused(ErrorView),
}

impl View for FetchReply {
    type V = FetchView;

    open spec fn view(&self) -> FetchView {
        match *self {
            FetchReply::Opened(s) => FetchView::Opened(s),
            FetchReply::Refused(e) => FetchView::Refused(e@),
        }
    }
}

// ---------------------------------------------------------------------------
// Reading a response
// ---------------------------------------------------------------------------
/// Why a worker stops.
#[derive(Debug, Clone, Copy, PartialEq, Eq, Structural)]
pub enum WorkerExit {
    /// Its segments are complete.
    Done,
    /// The download is paused.
    Paused,
    /// The download is cancelled.
    Cancelled,
    /// Another worker has failed.
    Failed,
}

/// How reading a response ended.
#[derive(Debug)]
pub enum StreamOutcome {
    Eof,
    Flag(WorkerExit),
    Retry(SparklingError),
    Fatal(SparklingError),
}

pub enum OutcomeView {
    Eof,
    Flag(WorkerExit),
    Retry(ErrorView),
    Fatal(ErrorView),
}

impl View for StreamOutcome {
    type V = OutcomeView;

    open spec fn view(&self) -> OutcomeView {
        match *self {
            StreamOutcome::Eof => OutcomeView::Eof,
            StreamOutcome::Flag(x) => OutcomeView::Flag(x),
            StreamOutcome::Retry(e) => OutcomeView::Retry(e@),
            StreamOutcome::Fatal(e) => OutcomeView::Fatal(e@),
        }
    }
}

/// An optional outcome seen through its view.
pub open spec fn opt_outcome_view(o: Option<StreamOutcome>) -> Option<OutcomeView> {
    match o {
        Some(x) => Some(x@),
        None => None,
    }
}

/// Whether reading stops before the next block: cancelling comes first, then a failure
/// elsewhere, then pausing; and a segment that has been cut meanwhile ends where it now
/// ends.
pub open spec fn gate(shared: SharedView, seg: Segment) -> Option<OutcomeView> {
    let size = match place(shared.segments, seg.index) {
        Some(k) => shared.segments[k].size(),
        None => 0,
    };
    if shared.cancelled {
        Some(OutcomeView::Flag(WorkerExit::Cancelled))
    } else if shared.failed is Some {
        Some(OutcomeView::Flag(WorkerExit::Failed))
    } else if shared.paused {
        Some(OutcomeView::Flag(WorkerExit::Paused))
    } else if seg.downloaded >= size {
        Some(OutcomeView::Eof)
    } else {
        None
    }
}

/// Whether reading the response for `seg` stops before the next block.
pub fn stream_gate(shared: &Shared, seg: &Segment) -> (r: Option<StreamOutcome>)
    requires
        shared.wf(),
    ensures
        opt_outcome_view(r) == gate(shared@, *seg),
{
    if shared.cancelled {
        return Some(StreamOutcome::Flag(WorkerExit::Cancelled));
    }
    if shared.failed.is_some() {
        return Some(StreamOutcome::Flag(WorkerExit::Failed));
    }
    if shared.paused {
        return Some(StreamOutcome::Flag(WorkerExit::Paused));
    }
    if seg.downloaded >= shared.segment_len(seg.index) {
        return Some(StreamOutcome::Eof);
    }
    None
}

/// A block that does not come within this many seconds counts as timed out.
pub const READ_TIMEOUT_SECS: u64 = 30;

/// What came of the next block of a response.
#[derive(Debug)]
pub enum ReadEvent {
    /// Nothing came in time.
    TimedOut,
    /// The response has ended.
    Ended,
    /// The connection broke.
    Broken(String),
    /// The part file could not be opened, positioned or written.
    DiskFailed(String),
    /// A block of this many bytes has been written behind the segment's earlier bytes.
    Written(u64),
}

/// How reading ends with an event, if it does.
pub open spec fn read_outcome(ev: ReadEvent) -> Option<OutcomeView> {
    match ev {
        ReadEvent::TimedOut => Some(OutcomeView::Retry(ErrorView::Network("读取超时"@))),
        ReadEvent::Ended => Some(OutcomeView::Eof),
        ReadEvent::Broken(why) => Some(
            OutcomeView::Retry(ErrorView::Network("连接中断: "@ + why@)),
        ),
        ReadEvent::DiskFailed(why) => Some(OutcomeView::Fatal(ErrorView::DiskWrite(why@))),
        ReadEvent::Written(_) => None,
    }
}

/// The bytes that an event adds.
pub open spec fn read_bytes(ev: ReadEvent) -> int {
    match ev {
        ReadEvent::Written(n) => n as int,
        _ => 0,
    }
}

/// The copy that a worker holds of its segment agrees with the table: the table's end
/// may have moved down meanwhile, and its progress is the copy's, as far as it counts.
pub open spec fn synced(seg: Segment, segs: Seq<Segment>) -> bool {
    match place(segs, seg.index) {
        Some(k) => {
            &&& seg.ranged()
            &&& segs[k].start == seg.start
            &&& segs[k].end <= seg.end
            &&& segs[k].downloaded == min_of(seg.downloaded as int, segs[k].size())
        },
        None => false,
    }
}

/// Takes note of an event: written bytes are added to the segment and to the shared
/// progress; anything else ends the reading.
pub fn stream_read(shared: &mut Shared, seg: &mut Segment, ev: ReadEvent) -> (r: Option<
    StreamOutcome,
>)
    requires
        old(shared).wf(),
        old(seg).downloaded + read_bytes(ev) <= u64::MAX,
    ensures
        final(shared).wf(),
        opt_outcome_view(r) == read_outcome(ev),
        match ev {
            ReadEvent::Written(n) => {
                let d = (old(seg).downloaded + n) as u64;
                &&& *final(seg) == (Segment { downloaded: d, ..*old(seg) })
                &&& final(shared)@ == old(shared)@.progressed(old(seg).index, d)
                &&& final(shared).counted()
            },
            _ => *final(seg) == *old(seg) && *final(shared) == *old(shared),
        },
        synced(*old(seg), old(shared).segments@) ==> synced(*final(seg), final(shared).segments@),
{
    match ev {
        ReadEvent::TimedOut => Some(
            StreamOutcome::Retry(SparklingError::Network("读取超时".to_owned())),
        ),
        ReadEvent::Ended => Some(StreamOutcome::Eof),
        ReadEvent::Broken(why) => Some(
            StreamOutcome::Retry(SparklingError::Network(cat("连接中断: ", why.as_str()))),
        ),
        ReadEvent::DiskFailed(why) => Some(StreamOutcome::Fatal(SparklingError::DiskWrite(why))),
        ReadEvent::Written(n) => {
            seg.downloaded = seg.downloaded + n;
            shared.add_progress(seg.index, seg.downloaded);
            proof {
                progress_syncs(*old(seg), old(shared).segments@, seg.downloaded);
            }
            None
        },
    }
}

/// Reporting progress brings the table in line with the reporter's copy.
pub proof fn progress_syncs(seg: Segment, segs: Seq<Segment>, downloaded: u64)
    requires
        table_ok(segs),
    ensures
        synced(seg, segs) ==> synced(
            Segment { downloaded, ..seg },
            after_progress(segs, seg.index, downloaded),
        ),
{
    if synced(seg, segs) {
        let out = after_progress(segs, seg.index, downloaded);
        place_is_first(segs, seg.index);
        let k = place(segs, seg.index)->0;
        assert(segs[k].wf());
        after_progress_ok(segs, seg.index, downloaded);
        assert(out[k].index == seg.index);
        place_of(out, k);
    }
}

/// The progress of another segment leaves a worker's copy in line with the table.
pub proof fn others_progress_keeps_sync(
    seg: Segment,
    segs: Seq<Segment>,
    other: usize,
    downloaded: u64,
)
    requires
        table_ok(segs),
        synced(seg, segs),
        other != seg.index,
    ensures
        synced(seg, after_progress(segs, other, downloaded)),
{
    let out = after_progress(segs, other, downloaded);
    place_is_first(segs, seg.index);
    place_is_first(segs, other);
    let k = place(segs, seg.index)->0;
    after_progress_ok(segs, other, downloaded);
    assert(out[k] == segs[k]);
    place_of(out, k);
}

/// Another worker taking over part of a segment, of this one or of another, leaves a
/// worker's copy in line with the table.
pub proof fn theft_keeps_sync(seg: Segment, segs: Seq<Segment>)
    requires
        table_ok(segs),
        can_steal(segs),
        segs.len() < usize::MAX,
        synced(seg, segs),
    ensures
        synced(seg, after_steal(segs)),
        synced(stolen(segs), after_steal(segs)),
{
    let out = after_steal(segs);
    place_is_first(segs, seg.index);
    let k = place(segs, seg.index)->0;
    richest_is_max(segs);
    let v = richest(segs);
    assert(segs[v].wf());
    assert(segs[k].wf());
    after_steal_ok(segs);
    place_of(out, k);
    place_of(out, segs.len() as int);
    assert(out[k].index == seg.index);
    assert(out[segs.len() as int] == stolen(segs));
}

// ---------------------------------------------------------------------------
// Segment workers
// ---------------------------------------------------------------------------
/// What a worker is to do next.
#[derive(Debug)]
pub enum WorkerStep {
    /// Request the bytes from `start` to `end`; without an end, the rest of the file.
    Fetch { start: u64, end: Option<u64> },
    /// Read the open response.
    Stream,
    /// Wait, then begin again.
    Wait(Delay),
    /// Stop.
    Exit(Result<WorkerExit, SparklingError>),
}

pub enum StepView {
    Fetch { start: int, end: Option<u64> },
    Stream,
    Wait(int),
    Exit(Result<WorkerExit, ErrorView>),
}

impl View for WorkerStep {
    type V = StepView;

    open spec fn view(&self) -> StepView {
        match *self {
            WorkerStep::Fetch { start, end } => StepView::Fetch { start: start as int, end },
            WorkerStep::Stream => StepView::Stream,
            WorkerStep::Wait(d) => StepView::Wait(d.nanos as int),
            WorkerStep::Exit(Ok(x)) => StepView::Exit(Ok(x)),
            WorkerStep::Exit(Err(e)) => StepView::Exit(Err(e@)),
        }
    }
}

/// An optional control file seen through its view.
pub open spec fn opt_control_view(c: Option<ControlFile>) -> Option<ControlFileView> {
    match c {
        Some(x) => Some(x@),
        None => None,
    }
}

/// A worker that downloads one segment after another.
#[derive(Debug, Clone, Copy, PartialEq, Eq, Structural)]
pub struct SegmentWorker {
    /// The worker's copy of its segment.
    pub seg: Segment,
    /// Failures in a row.
    pub attempt: u32,
}

/// A worker, the shared state and the answer after a step.
pub struct Turn {
    pub worker: SegmentWorker,
    pub shared: SharedView,
    pub step: StepView,
    /// A control file that is to be saved.
    pub save: Option<ControlFileView>,
}

/// The next request of a worker. A worker whose segment is complete has the control file
/// saved and takes over half of the richest segment; it is done when no segment is worth
/// that.
pub open spec fn begun(w: SegmentWorker, sh: SharedView) -> Turn {
    let own = sh.segments[place(sh.segments, w.seg.index)->0];
    if own.left() != 0 {
        Turn {
            worker: w,
            shared: sh,
            step: StepView::Fetch { start: w.seg.start + w.seg.downloaded, end: Some(w.seg.end) },
            save: None,
        }
    } else if can_steal(sh.segments) {
        let s = stolen(sh.segments);
        Turn {
            worker: SegmentWorker { seg: s, attempt: 0 },
            shared: sh.after_theft(),
            step: StepView::Fetch { start: s.start as int, end: Some(s.end) },
            save: Some(sh.recorded()),
        }
    } else {
        Turn {
            worker: w,
            shared: sh,
            step: StepView::Exit(Ok(WorkerExit::Done)),
            save: Some(sh.recorded()),
        }
    }
}

/// After a failure the worker waits and tries again, until the retries are used up: then
/// the whole download has failed.
pub open spec fn retried(w: SegmentWorker, sh: SharedView, policy: RetryPolicy, e: ErrorView) -> Turn {
    let worker = SegmentWorker { attempt: (w.attempt + 1) as u32, ..w };
    if w.attempt + 1 > policy.max_retries {
        Turn {
            worker,
            shared: sh.after_failure(e),
            step: StepView::Exit(Err(e)),
            save: None,
        }
    } else {
        Turn {
            worker,
            shared: sh,
            step: StepView::Wait(delay(policy, w.attempt + 1)),
            save: None,
        }
    }
}

/// A partial reply is read. A full one would be written at the wrong offset, so it counts
/// as a failure. A range that cannot be satisfied sets the segment back to its start.
pub open spec fn fetched(
    w: SegmentWorker,
    sh: SharedView,
    policy: RetryPolicy,
    reply: FetchView,
) -> Turn {
    match reply {
        FetchView::Opened(status) => if status == 206 {
            Turn {
                worker: SegmentWorker { attempt: 0, ..w },
                shared: sh,
                step: StepView::Stream,
                save: None,
            }
        } else {
            retried(w, sh, policy, ErrorView::Network("服务器忽略 Range 请求"@))
        },
        FetchView::Refused(e) => if e is HttpStatus && e->status == 416 {
            retried(
                SegmentWorker { seg: Segment { downloaded: 0, ..w.seg }, ..w },
                sh.progressed(w.seg.index, 0),
                policy,
                e,
            )
        } else {
            retried(w, sh, policy, e)
        },
    }
}

/// What is said of a response that ended too soon.
pub open spec fn early_end_text(seg: Segment) -> Seq<char> {
    "分片 "@ + decimal(seg.index as nat) + " 提前结束，剩余 "@ + decimal(seg.left() as nat)
        + " 字节"@
}

/// Reading to the end of a complete segment leads on to the next one; an early end and a
/// broken connection are tried again; a full disk is final.
pub open spec fn streamed(
    w: SegmentWorker,
    sh: SharedView,
    policy: RetryPolicy,
    outcome: OutcomeView,
) -> Turn {
    let own = sh.segments[place(sh.segments, w.seg.index)->0];
    match outcome {
        OutcomeView::Eof => if own.left() == 0 {
            begun(w, sh)
        } else {
            retried(w, sh, policy, ErrorView::Network(early_end_text(w.seg)))
        },
        OutcomeView::Flag(x) => Turn {
            worker: w,
            shared: sh,
            step: StepView::Exit(Ok(x)),
            save: None,
        },
        OutcomeView::Retry(e) => retried(w, sh, policy, e),
        OutcomeView::Fatal(e) => Turn {
            worker: w,
            shared: sh.after_failure(e),
            step: StepView::Exit(Err(e)),
            save: None,
        },
    }
}

impl SegmentWorker {
    /// A worker for the given segment.
    pub fn new(seg: Segment) -> (r: Self)
        ensures
            r == (SegmentWorker { seg, attempt: 0 }),
    {
        SegmentWorker { seg, attempt: 0 }
    }

    /// The next request, or the end of the worker; with it, a control file to save.
    pub fn begin(&mut self, shared: &mut Shared) -> (r: (WorkerStep, Option<ControlFile>))
        requires
            old(shared).wf(),
            synced(old(self).seg, old(shared).segments@),
        ensures
            final(shared).wf(),
            old(shared).counted() ==> final(shared).counted(),
            synced(final(self).seg, final(shared).segments@),
            (Turn {
                worker: *final(self),
                shared: final(shared)@,
                step: r.0@,
                save: opt_control_view(r.1),
            }) == begun(*old(self), old(shared)@),
    {
        proof {
            place_is_first(shared.segments@, self.seg.index);
            assert(shared.segments@[place(shared.segments@, self.seg.index)->0].wf());
        }
        if shared.segment(self.seg.index).remaining() == 0 {
            let save: ControlFile = shared.build_control_file();
            let ghost segs = shared.segments@;
            match shared.steal_largest() {
                Some(s) => {
                    proof {
                        theft_keeps_sync(self.seg, segs);
                        after_steal_ok(segs);
                    }
                    self.seg = s;
                    self.attempt = 0;
                    (
                        WorkerStep::Fetch { start: s.next_offset(), end: Some(s.end) },
                        Some(save),
                    )
                },
                None => (WorkerStep::Exit(Ok(WorkerExit::Done)), Some(save)),
            }
        } else {
            (
                WorkerStep::Fetch { start: self.seg.next_offset(), end: Some(self.seg.end) },
                None,
            )
        }
    }

    fn retry(&mut self, shared: &mut Shared, policy: &RetryPolicy, e: SparklingError) -> (r: (
        WorkerStep,
        Option<ControlFile>,
    ))
        requires
            old(shared).wf(),
            old(self).attempt < u32::MAX,
        ensures
            final(shared).wf(),
            final(shared).segments@ == old(shared).segments@,
            final(shared).downloaded == old(shared).downloaded,
            final(self).seg == old(self).seg,
            (Turn {
                worker: *final(self),
                shared: final(shared)@,
                step: r.0@,
                save: opt_control_view(r.1),
            }) == retried(*old(self), old(shared)@, *policy, e@),
    {
        self.attempt = self.attempt + 1;
        if self.attempt > policy.max_retries {
            shared.fail(e.clone());
            (WorkerStep::Exit(Err(e)), None)
        } else {
            (WorkerStep::Wait(policy.backoff(self.attempt)), None)
        }
    }

    /// What follows on the reply to a request.
    pub fn on_fetch(&mut self, shared: &mut Shared, policy: &RetryPolicy, reply: FetchReply) -> (r:
        (WorkerStep, Option<ControlFile>))
        requires
            old(shared).wf(),
            synced(old(self).seg, old(shared).segments@),
            old(self).attempt < u32::MAX,
        ensures
            final(shared).wf(),
            old(shared).counted() ==> final(shared).counted(),
            synced(final(self).seg, final(shared).segments@),
            (Turn {
                worker: *final(self),
                shared: final(shared)@,
                step: r.0@,
                save: opt_control_view(r.1),
            }) == fetched(*old(self), old(shared)@, *policy, reply@),
            reply is Refused ==> final(self).attempt == old(self).attempt + 1,
            reply is Refused && old(self).attempt + 1 <= policy.max_retries ==> {
                &&& r.0 is Wait
                &&& r.0->Wait_0.nanos == delay(*policy, old(self).attempt + 1)
                &&& final(shared).failed is None <==> old(shared).failed is None
            },
            reply is Refused && old(self).attempt + 1 > policy.max_retries ==> {
                &&& r.0 is Exit
                &&& r.0->Exit_0 is Err
                &&& final(shared).failed is Some
            },
    {
        match reply {
            FetchReply::Opened(status) => {
                if status == 206 {
                    self.attempt = 0;
                    (WorkerStep::Stream, None)
                } else {
                    self.retry(
                        shared,
                        policy,
                        SparklingError::Network("服务器忽略 Range 请求".to_owned()),
                    )
                }
            },
            FetchReply::Refused(e) => {
                let reset: bool = match &e {
                    SparklingError::HttpStatus { status, detail: _ } => *status == 416,
                    _ => false,
                };
                if reset {
                    let ghost before = self.seg;
                    self.seg.downloaded = 0;
                    let ghost segs = shared.segments@;
                    shared.add_progress(self.seg.index, 0);
                    proof {
                        progress_syncs(before, segs, 0);
                    }
                }
                self.retry(shared, policy, e)
            },
        }
    }

    /// What follows when a response has been read.
    pub fn on_stream(
        &mut self,
        shared: &mut Shared,
        policy: &RetryPolicy,
        outcome: StreamOutcome,
    ) -> (r: (WorkerStep, Option<ControlFile>))
        requires
            old(shared).wf(),
            synced(old(self).seg, old(shared).segments@),
            old(self).attempt < u32::MAX,
        ensures
            final(shared).wf(),
            old(shared).counted() ==> final(shared).counted(),
            synced(final(self).seg, final(shared).segments@),
            (Turn {
                worker: *final(self),
                shared: final(shared)@,
                step: r.0@,
                save: opt_control_view(r.1),
            }) == streamed(*old(self), old(shared)@, *policy, outcome@),
    {
        match outcome {
            StreamOutcome::Eof => {
                proof {
                    place_is_first(shared.segments@, self.seg.index);
                    assert(shared.segments@[place(shared.segments@, self.seg.index)->0].wf());
                }
                if shared.segment(self.seg.index).remaining() == 0 {
                    return self.begin(shared);
                }
                let text: String = cat("分片 ", decimal_of(self.seg.index as u64).as_str()).concat(
                    " 提前结束，剩余 ",
                ).concat(decimal_of(self.seg.remaining()).as_str()).concat(" 字节");
                self.retry(shared, policy, SparklingError::Network(text))
            },
            StreamOutcome::Flag(x) => (WorkerStep::Exit(Ok(x)), None),
            StreamOutcome::Retry(e) => self.retry(shared, policy, e),
            StreamOutcome::Fatal(e) => {
                shared.fail(e.clone());
                (WorkerStep::Exit(Err(e)), None)
            },
        }
    }
}

/// A worker only asks for bytes that are missing: its request starts at the first byte
/// of its segment that has not been downloaded, and that byte is in the table's segment.
pub proof fn requests_start_at_first_missing_byte(w: SegmentWorker, sh: SharedView)
    requires
        table_ok(sh.segments),
        sh.segments.len() < usize::MAX,
        synced(w.seg, sh.segments),
    ensures
        match begun(w, sh).step {
            StepView::Fetch { start, end } => {
                let t = begun(w, sh).shared.segments;
                let own = t[place(t, begun(w, sh).worker.seg.index)->0];
                &&& start == own.start + own.downloaded
                &&& own.holds(start)
                &&& end is Some && own.end <= end->0
            },
            _ => true,
        },
{
    place_is_first(sh.segments, w.seg.index);
    let k = place(sh.segments, w.seg.index)->0;
    assert(sh.segments[k].wf());
    if sh.segments[k].left() == 0 && can_steal(sh.segments) {
        after_steal_ok(sh.segments);
        richest_is_max(sh.segments);
        let t = after_steal(sh.segments);
        assert(t.len() == sh.segments.len() + 1);
        assert(t.last() == stolen(sh.segments));
        place_of(t, sh.segments.len() as int);
    }
}

/// A worker is done only when its segment is complete and no segment has
/// `STEAL_THRESHOLD` bytes left.
pub proof fn done_means_nothing_to_take(w: SegmentWorker, sh: SharedView, j: int)
    requires
        begun(w, sh).step == StepView::Exit(Ok::<WorkerExit, ErrorView>(WorkerExit::Done)),
        0 <= j < sh.segments.len(),
    ensures
        sh.segments[place(sh.segments, w.seg.index)->0].left() == 0,
        sh.segments[j].left() < STEAL_THRESHOLD,
{
    richest_is_max(sh.segments);
}

// ---------------------------------------------------------------------------
// The sequential worker
// ---------------------------------------------------------------------------
/// The only worker of a download whose server does not support ranges: after every
/// interruption it starts from the first byte.
#[derive(Debug, Clone, Copy, PartialEq, Eq, Structural)]
pub struct SequentialWorker {
    /// Failures in a row.
    pub attempt: u32,
}

/// A sequential worker, the shared state and the answer after a step.
pub struct SequentialTurn {
    pub attempt: int,
    pub shared: SharedView,
    pub step: StepView,
}

/// The next request of a sequential worker.
pub open spec fn sequential_begun(attempt: int, sh: SharedView) -> SequentialTurn {
    let own = sh.segments[place(sh.segments, 0)->0];
    SequentialTurn {
        attempt,
        shared: sh,
        step: if own.left() == 0 {
            StepView::Exit(Ok(WorkerExit::Done))
        } else if sh.probe.supports_range {
            StepView::Fetch { start: own.start + own.downloaded, end: Some(own.end) }
        } else {
            StepView::Fetch { start: 0, end: None }
        },
    }
}

/// After a failure a sequential worker waits and begins again, until the retries are used
/// up; `restart` says whether what has been downloaded is given up.
pub open spec fn sequential_retried(
    attempt: int,
    sh: SharedView,
    policy: RetryPolicy,
    e: ErrorView,
    restart: bool,
) -> SequentialTurn {
    if attempt + 1 > policy.max_retries {
        SequentialTurn { attempt: attempt + 1, shared: sh, step: StepView::Exit(Err(e)) }
    } else {
        SequentialTurn {
            attempt: attempt + 1,
            shared: if restart {
                sh.progressed(0, 0)
            } else {
                sh
            },
            step: StepView::Wait(delay(policy, attempt + 1)),
        }
    }
}

/// What follows on the reply to a request of a sequential worker.
pub open spec fn sequential_fetched(
    attempt: int,
    sh: SharedView,
    policy: RetryPolicy,
    reply: FetchView,
) -> SequentialTurn {
    match reply {
        FetchView::Opened(_) => SequentialTurn { attempt: 0, shared: sh, step: StepView::Stream },
        FetchView::Refused(e) => sequential_retried(attempt, sh, policy, e, false),
    }
}

/// What follows when a sequential worker has read a response.
pub open spec fn sequential_streamed(
    attempt: int,
    sh: SharedView,
    policy: RetryPolicy,
    outcome: OutcomeView,
) -> SequentialTurn {
    match outcome {
        OutcomeView::Eof => SequentialTurn {
            attempt,
            shared: sh,
            step: StepView::Exit(Ok(WorkerExit::Done)),
        },
        OutcomeView::Flag(x) => SequentialTurn {
            attempt,
            shared: sh,
            step: StepView::Exit(Ok(x)),
        },
        OutcomeView::Retry(e) => sequential_retried(
            attempt,
            sh,
            policy,
            e,
            !sh.probe.supports_range,
        ),
        OutcomeView::Fatal(e) => SequentialTurn {
            attempt,
            shared: sh,
            step: StepView::Exit(Err(e)),
        },
    }
}

impl SequentialWorker {
    pub fn new() -> (r: Self)
        ensures
            r.attempt == 0,
    {
        SequentialWorker { attempt: 0 }
    }

    /// The next request, or the end of the worker.
    pub fn begin(&mut self, shared: &Shared) -> (r: WorkerStep)
        requires
            shared.wf(),
            place(shared.segments@, 0) is Some,
        ensures
            (SequentialTurn { attempt: final(self).attempt as int, shared: shared@, step: r@ })
                == sequential_begun(old(self).attempt as int, shared@),
    {
        let seg: Segment = shared.segment(0);
        proof {
            place_is_first(shared.segments@, 0);
            assert(shared.segments@[place(shared.segments@, 0)->0].wf());
        }
        if seg.remaining() == 0 {
            WorkerStep::Exit(Ok(WorkerExit::Done))
        } else if shared.probe.supports_range {
            WorkerStep::Fetch { start: seg.next_offset(), end: Some(seg.end) }
        } else {
            WorkerStep::Fetch { start: 0, end: None }
        }
    }

    fn retry(
        &mut self,
        shared: &mut Shared,
        policy: &RetryPolicy,
        e: SparklingError,
        restart: bool,
    ) -> (r: WorkerStep)
        requires
            old(shared).wf(),
            old(self).attempt < u32::MAX,
        ensures
            final(shared).wf(),
            (SequentialTurn {
                attempt: final(self).attempt as int,
                shared: final(shared)@,
                step: r@,
            }) == sequential_retried(
                old(self).attempt as int,
                old(shared)@,
                *policy,
                e@,
                restart,
            ),
    {
        self.attempt = self.attempt + 1;
        if self.attempt > policy.max_retries {
            return WorkerStep::Exit(Err(e));
        }
        if restart {
            shared.add_progress(0, 0);
        }
        WorkerStep::Wait(policy.backoff(self.attempt))
    }

    /// What follows on the reply to a request.
    pub fn on_fetch(&mut self, shared: &mut Shared, policy: &RetryPolicy, reply: FetchReply) -> (r:
        WorkerStep)
        requires
            old(shared).wf(),
            old(self).attempt < u32::MAX,
        ensures
            final(shared).wf(),
            (SequentialTurn {
                attempt: final(self).attempt as int,
                shared: final(shared)@,
                step: r@,
            }) == sequential_fetched(old(self).attempt as int, old(shared)@, *policy, reply@),
    {
        match reply {
            FetchReply::Opened(_) => {
                self.attempt = 0;
                WorkerStep::Stream
            },
            FetchReply::Refused(e) => self.retry(shared, policy, e, false),
        }
    }

    /// What follows when a response has been read.
    pub fn on_stream(
        &mut self,
        shared: &mut Shared,
        policy: &RetryPolicy,
        outcome: StreamOutcome,
    ) -> (r: WorkerStep)
        requires
            old(shared).wf(),
            old(self).attempt < u32::MAX,
        ensures
            final(shared).wf(),
            (SequentialTurn {
                attempt: final(self).attempt as int,
                shared: final(shared)@,
                step: r@,
            }) == sequential_streamed(old(self).attempt as int, old(shared)@, *policy, outcome@),
    {
        match outcome {
            StreamOutcome::Eof => WorkerStep::Exit(Ok(WorkerExit::Done)),
            StreamOutcome::Flag(x) => WorkerStep::Exit(Ok(x)),
            StreamOutcome::Retry(e) => {
                let restart: bool = !shared.probe.supports_range;
                self.retry(shared, policy, e, restart)
            },
            StreamOutcome::Fatal(e) => WorkerStep::Exit(Err(e)),
        }
    }
}

/// A broken download without range support starts over: whatever had come is given up,
/// and the next request is for the whole file.
pub proof fn no_range_starts_over(sh: SharedView, attempt: int, policy: RetryPolicy, e: ErrorView)
    requires
        table_ok(sh.segments),
        place(sh.segments, 0) is Some,
        !sh.probe.supports_range,
        attempt + 1 <= policy.max_retries,
    ensures
        ({
            let t = sequential_streamed(attempt, sh, policy, OutcomeView::Retry(e));
            let own = t.shared.segments[place(t.shared.segments, 0)->0];
            &&& own.downloaded == 0
            &&& sequential_begun(t.attempt, t.shared).step == (StepView::Fetch {
                start: 0,
                end: None,
            })
        }),
{
    let t = sequential_streamed(attempt, sh, policy, OutcomeView::Retry(e));
    place_is_first(sh.segments, 0);
    let k = place(sh.segments, 0)->0;
    assert(sh.segments[k].wf());
    after_progress_ok(sh.segments, 0, 0);
    assert(t.shared.segments[k].index == 0);
    place_of(t.shared.segments, k);
}

// ---------------------------------------------------------------------------
// Laws of the workers
// ---------------------------------------------------------------------------
/// The requests for a range of bytes and for the rest of a file read back as what was asked
/// for: behind `bytes=` stand the first and the last offset, with a hyphen between them.
/// Only a request for the whole file has no range.
pub proof fn range_names_its_bytes(start: nat, end: Option<u64>)
    ensures
        range_text(start as int, end) is None <==> start == 0 && end is None,
        range_text(start as int, end) is Some ==> {
            let text = range_text(start as int, end)->0;
            let at: int = 6 + decimal(start).len() as int;
            &&& text.len() > at
            &&& text.take(6) == seq!['b', 'y', 't', 'e', 's', '=']
            &&& text.subrange(6, at) == decimal(start)
            &&& text[at] == '-'
            &&& text.skip(at + 1) == match end {
                Some(e) => decimal(e as nat),
                None => Seq::empty(),
            }
        },
{
    reveal_strlit("bytes=");
    reveal_strlit("-");
    if range_text(start as int, end) is Some {
        let text = range_text(start as int, end)->0;
        let at: int = 6 + decimal(start).len() as int;
        assert(text.take(6) =~= seq!['b', 'y', 't', 'e', 's', '=']);
        assert(text.subrange(6, at) =~= decimal(start));
        match end {
            Some(e) => assert(text.skip(at + 1) =~= decimal(e as nat)),
            None => assert(text.skip(at + 1) =~= Seq::<char>::empty()),
        }
    }
}

/// A response is read from exactly if its status is from 200 to 299; of any other the error
/// gives the status.
pub proof fn only_success_is_read(status: u16, url: Seq<char>)
    ensures
        fetch_fault(status, url) is None <==> 200 <= status <= 299,
        fetch_fault(status, url) is Some ==> {
            &&& fetch_fault(status, url)->0 is HttpStatus
            &&& fetch_fault(status, url)->0->status == status
            &&& status != 416 ==> url.is_suffix_of(fetch_fault(status, url)->0->HttpStatus_detail)
        },
{
    if !(200 <= status <= 299) && status != 416 {
        let d = fetch_fault(status, url)->0->HttpStatus_detail;
        assert(d.skip(d.len() - url.len()) =~= url);
    }
}

/// A worker reads on exactly while nobody has cancelled, failed or paused the download and
/// its segment, as the table now has it, is not complete. Cancelling is heeded first, then a
/// failure, then pausing.
pub proof fn reading_heeds_the_flags(sh: SharedView, seg: Segment, k: int)
    requires
        0 <= k < sh.segments.len(),
        sh.segments[k].index == seg.index,
        forall|j: int| 0 <= j < k ==> (#[trigger] sh.segments[j]).index != seg.index,
    ensures
        gate(sh, seg) is None <==> !sh.cancelled && sh.failed is None && !sh.paused
            && seg.downloaded < sh.segments[k].end - sh.segments[k].start + 1,
        sh.cancelled ==> gate(sh, seg) == Some(OutcomeView::Flag(WorkerExit::Cancelled)),
        !sh.cancelled && sh.failed is Some ==> gate(sh, seg) == Some(
            OutcomeView::Flag(WorkerExit::Failed),
        ),
        !sh.cancelled && sh.failed is None && sh.paused ==> gate(sh, seg) == Some(
            OutcomeView::Flag(WorkerExit::Paused),
        ),
        !sh.cancelled && sh.failed is None && !sh.paused && seg.downloaded
            >= sh.segments[k].end - sh.segments[k].start + 1 ==> gate(sh, seg) == Some(
            OutcomeView::Eof,
        ),
{
    place_is_first(sh.segments, seg.index);
}

/// What has been written leads on; the end of the response ends the reading; trouble with the
/// connection is a network error that is tried again; trouble with the disk is final. The
/// error says why.
pub proof fn reading_tells_trouble_apart(n: u64, why: String)
    ensures
        read_outcome(ReadEvent::Written(n)) is None,
        read_bytes(ReadEvent::Written(n)) == n,
        read_outcome(ReadEvent::Ended) == Some(OutcomeView::Eof),
        read_outcome(ReadEvent::TimedOut) is Some,
        read_outcome(ReadEvent::TimedOut)->0 is Retry,
        read_outcome(ReadEvent::TimedOut)->0->Retry_0 is Network,
        read_outcome(ReadEvent::Broken(why)) is Some,
        read_outcome(ReadEvent::Broken(why))->0 is Retry,
        read_outcome(ReadEvent::Broken(why))->0->Retry_0 is Network,
        why@.is_suffix_of(read_outcome(ReadEvent::Broken(why))->0->Retry_0->Network_0),
        read_outcome(ReadEvent::DiskFailed(why)) == Some(
            OutcomeView::Fatal(ErrorView::DiskWrite(why@)),
        ),
        read_bytes(ReadEvent::Ended) == 0,
        read_bytes(ReadEvent::TimedOut) == 0,
        read_bytes(ReadEvent::Broken(why)) == 0,
        read_bytes(ReadEvent::DiskFailed(why)) == 0,
{
    let d = read_outcome(ReadEvent::Broken(why))->0->Retry_0->Network_0;
    assert(d.skip(d.len() - why@.len()) =~= why@);
}

/// A worker whose segment is not complete asks for exactly the bytes from the first missing
/// one to the segment's end, and nothing else changes.
pub proof fn unfinished_segments_are_asked_for(w: SegmentWorker, sh: SharedView, k: int)
    requires
        0 <= k < sh.segments.len(),
        sh.segments[k].index == w.seg.index,
        forall|j: int| 0 <= j < k ==> (#[trigger] sh.segments[j]).index != w.seg.index,
        sh.segments[k].downloaded < sh.segments[k].end - sh.segments[k].start + 1,
    ensures
        begun(w, sh).step == (StepView::Fetch {
            start: w.seg.start + w.seg.downloaded,
            end: Some(w.seg.end),
        }),
        begun(w, sh).worker == w,
        begun(w, sh).shared == sh,
        begun(w, sh).save is None,
{
    place_is_first(sh.segments, w.seg.index);
}

/// A worker whose segment is complete has the control file saved. Where some segment has at
/// least 256 KiB left it takes over the second half of what is left of the largest one, with
/// no failure counted, and asks for all of it; the table then has one segment more. Where no
/// segment has that much it is done, and nothing changes.
pub proof fn idle_workers_take_over(w: SegmentWorker, sh: SharedView, k: int, j: int)
    requires
        table_ok(sh.segments),
        sh.segments.len() < usize::MAX,
        0 <= k < sh.segments.len(),
        sh.segments[k].index == w.seg.index,
        sh.segments[k].downloaded == sh.segments[k].end - sh.segments[k].start + 1,
        0 <= j < sh.segments.len(),
        forall|i: int|
            0 <= i < sh.segments.len() ==> (#[trigger] sh.segments[i]).end - sh.segments[i].start
                - sh.segments[i].downloaded <= sh.segments[j].end - sh.segments[j].start
                - sh.segments[j].downloaded,
    ensures
        begun(w, sh).save == Some(sh.recorded()),
        ({
            let left = sh.segments[j].end - sh.segments[j].start + 1 - sh.segments[j].downloaded;
            let t = begun(w, sh);
            if left >= 262144 {
                &&& t.worker.attempt == 0
                &&& t.worker.seg.downloaded == 0
                &&& t.worker.seg.end - t.worker.seg.start + 1 == left - left / 2
                &&& t.step == (StepView::Fetch {
                    start: t.worker.seg.start as int,
                    end: Some(t.worker.seg.end),
                })
                &&& t.shared.segments.len() == sh.segments.len() + 1
                &&& t.shared.segments.last() == t.worker.seg
                &&& t.worker.seg == stolen(sh.segments)
                &&& t.shared == sh.after_theft()
                &&& t.shared.failed == sh.failed
                &&& t.shared.downloaded == sh.downloaded
            } else {
                &&& t.step == StepView::Exit(Ok::<WorkerExit, ErrorView>(WorkerExit::Done))
                &&& t.worker == w
                &&& t.shared == sh
            }
        }),
{
    let segs = sh.segments;
    place_of(segs, k);
    richest_is_max(segs);
    let v = richest(segs);
    assert(segs[v].wf());
    assert(segs[j].wf());
    assert(segs[v].left() == segs[j].left());
}

/// A failed request for a segment, whatever was wrong with it, is counted, and repeated after
/// the policy's delay as long as the policy allows; meanwhile nothing is recorded as failed.
/// Only when the retries are used up does the worker exit with the error, which is then the
/// failure of the whole download. The progress stays, except where the server cannot satisfy
/// the range: then the segment is downloaded from its start.
pub proof fn refused_requests_are_repeated(
    w: SegmentWorker,
    sh: SharedView,
    policy: RetryPolicy,
    e: ErrorView,
)
    requires
        w.attempt < u32::MAX,
    ensures
        ({
            let t = fetched(w, sh, policy, FetchView::Refused(e));
            &&& t.worker.attempt == w.attempt + 1
            &&& t.save is None
            &&& w.attempt + 1 <= policy.max_retries ==> {
                &&& t.step == StepView::Wait(delay(policy, w.attempt + 1))
                &&& t.shared.failed == sh.failed
            }
            &&& w.attempt + 1 > policy.max_retries ==> {
                &&& t.step == StepView::Exit(Err::<WorkerExit, ErrorView>(e))
                &&& t.shared.failed == Some(e)
            }
            &&& t.shared.cancelled == sh.cancelled
            &&& t.shared.paused == sh.paused
            &&& t.shared.probe == sh.probe
            &&& t.worker.seg.index == w.seg.index
            &&& t.worker.seg.start == w.seg.start
            &&& t.worker.seg.end == w.seg.end
            &&& !(e is HttpStatus && e->status == 416) ==> {
                &&& t.worker.seg == w.seg
                &&& t.shared.segments == sh.segments
                &&& t.shared.downloaded == sh.downloaded
            }
            &&& e is HttpStatus && e->status == 416 ==> {
                &&& t.worker.seg.downloaded == 0
                &&& t.shared.segments == after_progress(sh.segments, w.seg.index, 0)
                &&& t.shared.downloaded == sum_downloaded(t.shared.segments)
            }
        }),
{
}

/// A partial reply is read, and no failure counts any more. A full one is not: its bytes
/// would go to the wrong place. It is a network error, repeated like any other failure.
pub proof fn only_partial_replies_are_read(
    w: SegmentWorker,
    sh: SharedView,
    policy: RetryPolicy,
    status: u16,
)
    requires
        w.attempt < u32::MAX,
    ensures
        ({
            let t = fetched(w, sh, policy, FetchView::Opened(status));
            &&& t.worker.seg == w.seg
            &&& t.save is None
            &&& t.shared.segments == sh.segments
            &&& t.shared.downloaded == sh.downloaded
            &&& t.step is Stream <==> status == 206
            &&& status == 206 ==> t.worker.attempt == 0 && t.shared == sh
            &&& status != 206 ==> t.worker.attempt == w.attempt + 1
            &&& status != 206 && w.attempt + 1 <= policy.max_retries ==> {
                &&& t.step == StepView::Wait(delay(policy, w.attempt + 1))
                &&& t.shared == sh
            }
            &&& status != 206 && w.attempt + 1 > policy.max_retries ==> {
                &&& t.step is Exit
                &&& t.step->Exit_0 is Err
                &&& t.step->Exit_0->Err_0 is Network
                &&& t.shared.failed == Some(t.step->Exit_0->Err_0)
            }
        }),
{
}

/// A connection that breaks while a segment is read is repeated like a failed request, from
/// where it broke: the progress stays. So is a response that ends before the segment does.
pub proof fn broken_connections_are_repeated(
    w: SegmentWorker,
    sh: SharedView,
    policy: RetryPolicy,
    outcome: OutcomeView,
    k: int,
)
    requires
        w.attempt < u32::MAX,
        0 <= k < sh.segments.len(),
        sh.segments[k].index == w.seg.index,
        forall|j: int| 0 <= j < k ==> (#[trigger] sh.segments[j]).index != w.seg.index,
        outcome is Retry || (outcome is Eof && sh.segments[k].downloaded < sh.segments[k].end
            - sh.segments[k].start + 1),
    ensures
        ({
            let t = streamed(w, sh, policy, outcome);
            &&& t.worker.seg == w.seg
            &&& t.worker.attempt == w.attempt + 1
            &&& t.save is None
            &&& t.shared.segments == sh.segments
            &&& t.shared.downloaded == sh.downloaded
            &&& w.attempt + 1 <= policy.max_retries ==> {
                &&& t.step == StepView::Wait(delay(policy, w.attempt + 1))
                &&& t.shared == sh
            }
            &&& w.attempt + 1 > policy.max_retries ==> {
                &&& t.step is Exit
                &&& t.step->Exit_0 is Err
                &&& t.shared.failed == Some(t.step->Exit_0->Err_0)
                &&& outcome is Retry ==> t.step->Exit_0->Err_0 == outcome->Retry_0
                &&& outcome is Eof ==> t.step->Exit_0->Err_0 is Network
            }
        }),
{
    place_is_first(sh.segments, w.seg.index);
}

/// A worker that read its segment to the end goes on as an idle one; one that was told to
/// stop stops with that reason and leaves everything as it is; a full disk ends the worker
/// and the download at once, with no retry.
pub proof fn reading_ends_as_told(
    w: SegmentWorker,
    sh: SharedView,
    policy: RetryPolicy,
    why: WorkerExit,
    e: ErrorView,
    k: int,
)
    requires
        0 <= k < sh.segments.len(),
        sh.segments[k].index == w.seg.index,
        forall|j: int| 0 <= j < k ==> (#[trigger] sh.segments[j]).index != w.seg.index,
    ensures
        sh.segments[k].downloaded == sh.segments[k].end - sh.segments[k].start + 1 ==> streamed(
            w,
            sh,
            policy,
            OutcomeView::Eof,
        ) == begun(w, sh),
        ({
            let t = streamed(w, sh, policy, OutcomeView::Flag(why));
            &&& t.step == StepView::Exit(Ok::<WorkerExit, ErrorView>(why))
            &&& t.worker == w
            &&& t.shared == sh
            &&& t.save is None
        }),
        ({
            let t = streamed(w, sh, policy, OutcomeView::Fatal(e));
            &&& t.step == StepView::Exit(Err::<WorkerExit, ErrorView>(e))
            &&& t.shared.failed == Some(e)
            &&& t.shared.segments == sh.segments
            &&& t.shared.downloaded == sh.downloaded
            &&& t.worker == w
            &&& t.save is None
        }),
{
    place_is_first(sh.segments, w.seg.index);
}

/// A sequential worker is done exactly when the whole file is there. Else it asks for the
/// bytes that are missing where the server supports ranges, and for the whole file where it
/// does not.
pub proof fn sequential_worker_asks_for_the_rest(attempt: int, sh: SharedView, k: int)
    requires
        0 <= k < sh.segments.len(),
        sh.segments[k].index == 0,
        forall|j: int| 0 <= j < k ==> (#[trigger] sh.segments[j]).index != 0,
    ensures
        ({
            let own = sh.segments[k];
            let left = own.end - own.start + 1 - own.downloaded;
            let t = sequential_begun(attempt, sh);
            &&& t.attempt == attempt
            &&& t.shared == sh
            &&& left == 0 <==> t.step == StepView::Exit(
                Ok::<WorkerExit, ErrorView>(WorkerExit::Done),
            )
            &&& left != 0 && sh.probe.supports_range ==> t.step == (StepView::Fetch {
                start: own.start + own.downloaded,
                end: Some(own.end),
            })
            &&& left != 0 && !sh.probe.supports_range ==> t.step == (StepView::Fetch {
                start: 0,
                end: None,
            })
        }),
{
    place_is_first(sh.segments, 0);
}

/// A sequential worker too repeats what failed, request or connection, as often as the policy
/// allows and after its delays, and only then exits with the error. It reads every response
/// that is open.
pub proof fn sequential_failures_are_repeated(
    attempt: int,
    sh: SharedView,
    policy: RetryPolicy,
    e: ErrorView,
    status: u16,
)
    ensures
        ({
            let f = sequential_fetched(attempt, sh, policy, FetchView::Refused(e));
            let s = sequential_streamed(attempt, sh, policy, OutcomeView::Retry(e));
            &&& f.attempt == attempt + 1
            &&& s.attempt == attempt + 1
            &&& f.shared == sh
            &&& attempt + 1 <= policy.max_retries ==> {
                &&& f.step == StepView::Wait(delay(policy, attempt + 1))
                &&& s.step == StepView::Wait(delay(policy, attempt + 1))
                &&& sh.probe.supports_range ==> s.shared == sh
                &&& !sh.probe.supports_range ==> s.shared == sh.progressed(0, 0)
                &&& s.shared.failed == sh.failed
            }
            &&& attempt + 1 > policy.max_retries ==> {
                &&& f.step == StepView::Exit(Err::<WorkerExit, ErrorView>(e))
                &&& s.step == StepView::Exit(Err::<WorkerExit, ErrorView>(e))
                &&& s.shared == sh
            }
        }),
        ({
            let o = sequential_fetched(attempt, sh, policy, FetchView::Opened(status));
            o.step is Stream && o.attempt == 0 && o.shared == sh
        }),
{
}

/// A sequential worker is done at the end of the response, stops with the reason it was told,
/// and ends with the error of a full disk; nothing else changes.
pub proof fn sequential_reading_ends_as_told(
    attempt: int,
    sh: SharedView,
    policy: RetryPolicy,
    why: WorkerExit,
    e: ErrorView,
)
    ensures
        ({
            let done = sequential_streamed(attempt, sh, policy, OutcomeView::Eof);
            let told = sequential_streamed(attempt, sh, policy, OutcomeView::Flag(why));
            let full = sequential_streamed(attempt, sh, policy, OutcomeView::Fatal(e));
            &&& done.step == StepView::Exit(Ok::<WorkerExit, ErrorView>(WorkerExit::Done))
            &&& told.step == StepView::Exit(Ok::<WorkerExit, ErrorView>(why))
            &&& full.step == StepView::Exit(Err::<WorkerExit, ErrorView>(e))
            &&& done.shared == sh && told.shared == sh && full.shared == sh
        }),
{
}

/// A step, a reply and an outcome are seen as they are: a request with its bytes, a wait with its
/// time, an exit with its reason or its error. A block is waited for half a minute.
pub proof fn steps_are_seen_as_they_are(
    step: WorkerStep,
    reply: FetchReply,
    outcome: StreamOutcome,
    cf: ControlFile,
)
    ensures
        step is Fetch <==> step@ is Fetch,
        step is Fetch ==> step@->Fetch_start == step->Fetch_start && step@->Fetch_end
            == step->Fetch_end,
        step is Stream <==> step@ is Stream,
        step is Wait <==> step@ is Wait,
        step is Wait ==> step@->Wait_0 == step->Wait_0.nanos,
        step is Exit <==> step@ is Exit,
        step is Exit && step->Exit_0 is Ok ==> step@->Exit_0 == Ok::<WorkerExit, ErrorView>(
            step->Exit_0->Ok_0,
        ),
        step is Exit && step->Exit_0 is Err ==> step@->Exit_0 == Err::<WorkerExit, ErrorView>(
            step->Exit_0->Err_0@,
        ),
        reply is Opened ==> reply@ == FetchView::Opened(reply->Opened_0),
        reply is Refused ==> reply@ == FetchView::Refused(reply->Refused_0@),
        outcome is Eof ==> outcome@ is Eof,
        outcome is Flag ==> outcome@ == OutcomeView::Flag(outcome->Flag_0),
        outcome is Retry ==> outcome@ == OutcomeView::Retry(outcome->Retry_0@),
        outcome is Fatal ==> outcome@ == OutcomeView::Fatal(outcome->Fatal_0@),
        opt_outcome_view(Some(outcome)) == Some(outcome@),
        opt_outcome_view(None) is None,
        opt_control_view(Some(cf)) == Some(cf@),
        opt_control_view(None) is None,
        READ_TIMEOUT_SECS == 30,
{
}

/// What is said of a response that ended too soon ends with how many bytes are missing.
pub proof fn early_ends_say_what_is_missing(seg: Segment)
    requires
        seg.wf(),
    ensures
        ({
            let left = decimal((seg.end + 1 - seg.start - seg.downloaded) as nat);
            let number = decimal(seg.index as nat);
            let text = early_end_text(seg);
            &&& text.len() == number.len() + left.len() + 15
            &&& text.subrange(3, 3 + number.len() as int) == number
            &&& text.subrange(text.len() - left.len() - 3, text.len() - 3) == left
        }),
{
    reveal_strlit("分片 ");
    reveal_strlit(" 提前结束，剩余 ");
    reveal_strlit(" 字节");
    let left = decimal(seg.left() as nat);
    let number = decimal(seg.index as nat);
    let text = early_end_text(seg);
    assert(text.subrange(text.len() - left.len() - 3, text.len() - 3) =~= left);
    assert(text.subrange(3, 3 + number.len() as int) =~= number);
}

} // verus!
