//! One download from probe to file: its name, its plan, its report and its end.
use crate::control_file::{
    broken_text, first_broken, load, measurable, ControlFile, ControlFileView, LoadFault,
};
use crate::engine::{ControlMsg, ProgressSnapshot, SnapshotView};
use crate::disk::{required_space, space_needed};
use crate::error::{cat, ErrorView, SparklingError};
use crate::http_engine::driver::{
    same_file, validator_matches, validators_agree, DownloadEnd, EndView,
};
use crate::http_engine::retry::{delay, Delay, RetryCount, RetryPolicy, RetryStep};
use crate::http_engine::shared::{
    place, progress_of, reports_show_every_segment, table_ok, workable_tables, Shared, SharedView,
};
use crate::http_engine::worker::{opt_control_view, WorkerExit};
use crate::paths::{extends, is_joined, plain_name, verbatim};
use crate::probe::{ProbeResult, ProbeView};
use crate::segment::{
    all_counted_means_all_written, all_wf, held, is_split, split, split_gives_what_was_asked,
    split_tiles, sum_downloaded, sum_size, tiles, Segment,
};
use crate::task::{TaskSpec, TaskState};
use crate::text::{
    chars_eq, chars_of, decimal, decimal_of, pieces, pieces_nonempty,
    separator_parts_the_pieces, split as split_chars, string_of,
};
use crate::throttle::max_of;
use base64::engine::general_purpose::STANDARD;
use base64::Engine;
use md5::{Digest, Md5};
use vstd::prelude::*;
use vstd::string::StringExecFns;

verus! {

// ---------------------------------------------------------------------------
// Names and paths
// ---------------------------------------------------------------------------
/// The last component of a path, whichever of the two separators it is written with.
pub open spec fn last_component(name: Seq<char>) -> Seq<char> {
    pieces(pieces(name, '/').last(), '\\').last()
}

/// A name under which a file stays in its directory: the last component, with an underscore
/// for the colon that would make its first letter a drive, and "download" where the
/// component is empty or refers to a directory.
pub open spec fn sanitized(name: Seq<char>) -> Seq<char> {
    let last = last_component(name);
    if last.len() == 0 || last == "."@ || last == ".."@ {
        "download"@
    } else if last.len() >= 2 && last[1] == ':' {
        last.update(1, '_')
    } else {
        last
    }
}

/// A name under which a file stays in its directory.
pub fn sanitize_filename(name: &str) -> (r: String)
    ensures
        r@ == sanitized(name@),
{
    let by_slash: Vec<Vec<char>> = split_chars(chars_of(name).as_slice(), '/');
    let parts: Vec<Vec<char>> = split_chars(by_slash[by_slash.len() - 1].as_slice(), '\\');
    let last: &[char] = parts[parts.len() - 1].as_slice();
    if last.len() == 0 || chars_eq(last, ".") || chars_eq(last, "..") {
        return "download".to_owned();
    }
    if last.len() >= 2 && last[1] == ':' {
        let mut safe: Vec<char> = chars_of(string_of(last).as_str());
        safe.set(1, '_');
        return string_of(safe.as_slice());
    }
    string_of(last)
}

/// Where a file is written before it is complete.
pub fn part_path_for(final_path: &str) -> (r: String)
    ensures
        r@ == final_path@ + ".sparkling.part"@,
{
    cat(final_path, ".sparkling.part")
}

/// The name that the user chose, or else the one that the probe found.
pub open spec fn wanted_name(spec: TaskSpec, probe: ProbeResult) -> Seq<char> {
    match spec.filename {
        Some(f) => f@,
        None => probe.filename@,
    }
}

/// The name of the finished file.
pub fn target_name(spec: &TaskSpec, probe: &ProbeResult) -> (r: String)
    ensures
        r@ == sanitized(wanted_name(*spec, *probe)),
{
    match &spec.filename {
        Some(f) => sanitize_filename(f.as_str()),
        None => sanitize_filename(probe.filename.as_str()),
    }
}

// ---------------------------------------------------------------------------
// The probe
// ---------------------------------------------------------------------------
/// A file that has been found: what the probe says of it, the name it will have, and the
/// space it needs.
#[derive(Debug)]
pub struct Target {
    pub probe: ProbeResult,
    pub filename: String,
    pub required: u64,
}

/// What follows on a probe.
#[derive(Debug)]
pub enum ProbeNext {
    /// Wait, then probe again.
    Retry(Delay),
    /// The download has failed.
    Fail(SparklingError),
    /// Go on, if there is space.
    Found(Target),
}

/// What follows on a probe: a failed one is repeated as the policy says; after a good one
/// the name and the space that the file needs are known.
pub fn on_probe(
    spec: &TaskSpec,
    count: &mut RetryCount,
    policy: &RetryPolicy,
    outcome: Result<ProbeResult, SparklingError>,
) -> (r: ProbeNext)
    requires
        old(count).attempt < u32::MAX,
        outcome is Ok ==> space_needed(outcome->Ok_0.total as int) <= u64::MAX,
    ensures
        match outcome {
            Ok(probe) => {
                &&& *final(count) == *old(count)
                &&& r is Found
                &&& r->Found_0.probe == probe
                &&& r->Found_0.filename@ == sanitized(wanted_name(*spec, probe))
                &&& r->Found_0.required == space_needed(probe.total as int)
            },
            Err(e) => {
                &&& final(count).attempt == old(count).attempt + 1
                &&& if final(count).attempt > policy.max_retries {
                    r is Fail && r->Fail_0 == e
                } else {
                    r is Retry && r->Retry_0.nanos == delay(
                        *policy,
                        final(count).attempt as int,
                    )
                }
            },
        },
{
    match outcome {
        Ok(probe) => {
            let filename: String = target_name(spec, &probe);
            let required: u64 = required_space(probe.total);
            ProbeNext::Found(Target { probe, filename, required })
        },
        Err(e) => match count.on_failure(policy, e) {
            RetryStep::Again(d) => ProbeNext::Retry(d),
            RetryStep::GiveUp(last) => ProbeNext::Fail(last),
        },
    }
}

// ---------------------------------------------------------------------------
// The plan
// ---------------------------------------------------------------------------
/// How a download proceeds once the file has been probed.
#[derive(Debug)]
pub enum Plan {
    /// The file is empty: create it.
    Empty,
    /// One worker from the first byte to the last.
    Sequential {
        shared: Shared,
        /// Whether leftovers of an earlier download are deleted first.
        discard: bool,
    },
    /// Workers for the segments of the table.
    Segmented {
        shared: Shared,
        /// Whether leftovers of an earlier download are deleted first.
        discard: bool,
    },
}

pub enum PlanView {
    Empty,
    Sequential { shared: SharedView, discard: bool },
    Segmented { shared: SharedView, discard: bool },
}

impl View for Plan {
    type V = PlanView;

    open spec fn view(&self) -> PlanView {
        match *self {
            Plan::Empty => PlanView::Empty,
            Plan::Sequential { shared, discard } => PlanView::Sequential {
                shared: shared@,
                discard,
            },
            Plan::Segmented { shared, discard } => PlanView::Segmented {
                shared: shared@,
                discard,
            },
        }
    }
}

/// The shared state at the start of a download.
pub open spec fn opening(
    url: Seq<char>,
    filename: Seq<char>,
    probe: ProbeView,
    segs: Seq<Segment>,
) -> SharedView {
    SharedView {
        url,
        filename,
        probe,
        segments: segs,
        downloaded: sum_downloaded(segs),
        paused: false,
        cancelled: false,
        failed: None,
        next_index: segs.len() as int,
        finished: false,
    }
}

/// Whether a download can go on from a control file: it is of the same URL and size, of a
/// server with range support, and its validators agree with the probe's.
pub open spec fn resumable(
    cf: ControlFileView,
    url: Seq<char>,
    probe: ProbeView,
) -> bool {
    &&& cf.url == url
    &&& cf.total_size == probe.total
    &&& cf.supports_range
    &&& validators_agree(cf.etag, probe.etag)
    &&& validators_agree(cf.last_modified, probe.last_modified)
}

/// Whether a download can go on from a control file.
pub fn can_resume(cf: &ControlFile, url: &String, probe: &ProbeResult) -> (r: bool)
    ensures
        r == resumable(cf@, url@, probe@),
{
    cf.url == *url && cf.total_size == probe.total && cf.supports_range && validator_matches(
        &cf.etag,
        &probe.etag,
    ) && validator_matches(&cf.last_modified, &probe.last_modified)
}

/// `plan` is what is done with a probed file, given the control file that was found, if
/// any.
pub open spec fn is_plan(
    plan: PlanView,
    spec: TaskSpec,
    probe: ProbeResult,
    filename: Seq<char>,
    ctl: Option<Result<ControlFile, SparklingError>>,
) -> bool {
    if probe.total == 0 {
        plan is Empty
    } else if !probe.supports_range {
        let whole = Segment { index: 0, start: 0, end: (probe.total - 1) as u64, downloaded: 0 };
        plan == (PlanView::Sequential {
            shared: opening(spec.url@, filename, probe@, seq![whole]),
            discard: ctl is Some,
        })
    } else if ctl is Some && ctl->0 is Ok && resumable(ctl->0->Ok_0@, spec.url@, probe@) {
        plan == (PlanView::Segmented {
            shared: opening(spec.url@, filename, probe@, ctl->0->Ok_0.segments@),
            discard: false,
        })
    } else {
        &&& plan is Segmented
        &&& is_split(plan->Segmented_shared.segments, probe.total as int, spec.segments as int)
        &&& plan == (PlanView::Segmented {
            shared: opening(
                spec.url@,
                filename,
                probe@,
                plan->Segmented_shared.segments,
            ),
            discard: ctl is Some,
        })
    }
}

proof fn split_is_ok(segs: Seq<Segment>, total: u64, n: u32)
    requires
        total > 0,
        is_split(segs, total as int, n as int),
    ensures
        table_ok(segs),
        sum_downloaded(segs) == 0,
        tiles(segs, total as int),
{
    split_tiles(segs, total, n);
    assert forall|i: int| 0 <= i < segs.len() implies (#[trigger] segs[i]).index < segs.len() by {
        assert(segs[i].index == i);
    }
}

/// A download of a file with range support that starts from nothing.
pub fn fresh_shared(spec: &TaskSpec, filename: String, probe: ProbeResult) -> (r: Shared)
    ensures
        r.wf(),
        r.counted(),
        probe.total > 0 ==> is_split(r.segments@, probe.total as int, spec.segments as int),
        probe.total == 0 ==> r.segments@.len() == 0,
        r@ == opening(spec.url@, filename@, probe@, r.segments@),
{
    let total: u64 = probe.total;
    let segments: Vec<Segment> = split(total, spec.segments);
    proof {
        if total > 0 {
            split_is_ok(segments@, total, spec.segments);
        } else {
            assert(sum_size(segments@) == 0);
            assert(sum_downloaded(segments@) == 0);
        }
    }
    Shared::new(spec.url.clone(), filename, probe, segments)
}

/// How to proceed with a probed file, given the control file that was found, if any.
pub fn plan(
    spec: &TaskSpec,
    probe: ProbeResult,
    filename: String,
    ctl: Option<Result<ControlFile, SparklingError>>,
) -> (r: Plan)
    requires
        ctl is Some && ctl->0 is Ok ==> table_ok(ctl->0->Ok_0.segments@),
    ensures
        is_plan(r@, *spec, probe, filename@, ctl),
        match r {
            Plan::Empty => true,
            Plan::Sequential { shared, discard } => shared.wf() && shared.counted(),
            Plan::Segmented { shared, discard } => shared.wf() && shared.counted(),
        },
{
    if probe.total == 0 {
        return Plan::Empty;
    }
    let found: bool = ctl.is_some();
    if !probe.supports_range {
        let whole: Segment = Segment { index: 0, start: 0, end: probe.total - 1, downloaded: 0 };
        let mut segments: Vec<Segment> = Vec::new();
        segments.push(whole);
        proof {
            assert(segments@ =~= seq![whole]);
            assert(segments@.drop_last() =~= Seq::<Segment>::empty());
            assert(sum_size(segments@.drop_last()) == 0);
            assert(sum_downloaded(segments@.drop_last()) == 0);
        }
        return Plan::Sequential {
            shared: Shared::new(spec.url.clone(), filename, probe, segments),
            discard: found,
        };
    }
    if let Some(Ok(cf)) = ctl {
        if can_resume(&cf, &spec.url, &probe) {
            let mut shared: Shared = Shared::new(spec.url.clone(), filename, probe, cf.segments);
            shared.count();
            return Plan::Segmented { shared, discard: false };
        }
    }
    Plan::Segmented { shared: fresh_shared(spec, filename, probe), discard: found }
}

/// Whether a table read from a control file can be worked with.
pub fn usable_table(segs: &Vec<Segment>) -> (r: bool)
    requires
        all_wf(segs@),
    ensures
        r == table_ok(segs@),
{
    let mut sum: u64 = 0;
    let mut i: usize = 0;
    while i < segs.len()
        invariant
            all_wf(segs@),
            i <= segs@.len(),
            sum == sum_size(segs@.take(i as int)),
            forall|a: int| 0 <= a < i ==> (#[trigger] segs@[a]).index < segs@.len(),
            forall|a: int, b: int|
                0 <= a < i && 0 <= b < i && a != b ==> (#[trigger] segs@[a]).index != (
                #[trigger] segs@[b]).index,
        decreases segs@.len() - i,
    {
        let s: Segment = segs[i];
        proof {
            assert(segs@[i as int].wf());
            assert(segs@.take(i + 1).drop_last() =~= segs@.take(i as int));
            sum_size_prefix(segs@, i + 1);
        }
        if s.index >= segs.len() {
            return false;
        }
        if s.len() > u64::MAX - sum {
            return false;
        }
        sum = sum + s.len();
        let mut j: usize = 0;
        while j < i
            invariant
                i < segs@.len(),
                j <= i,
                s == segs@[i as int],
                forall|b: int| 0 <= b < j ==> (#[trigger] segs@[b]).index != s.index,
            decreases i - j,
        {
            if segs[j].index == s.index {
                return false;
            }
            j = j + 1;
        }
        i = i + 1;
    }
    proof {
        assert(segs@.take(i as int) =~= segs@);
    }
    true
}

/// Every segment has a size that is a `u64`, or is no range at all.
pub open spec fn all_measurable(segs: Seq<Segment>) -> bool {
    forall|i: int| 0 <= i < segs.len() ==> measurable(#[trigger] segs[i])
}

/// What comes of a control file that was read and parsed, before a download goes on from it:
/// besides a broken segment, a segment over all offsets and a table that no download can
/// have written make it corrupt.
pub open spec fn control_outcome(
    cf: ControlFile,
    r: Result<ControlFile, SparklingError>,
) -> bool {
    let segs = cf.segments@;
    if !all_measurable(segs) {
        r is Err && r->Err_0@ == ErrorView::CorruptControlFile("分片长度溢出"@)
    } else if !all_wf(segs) {
        r is Err && exists|k: int|
            #[trigger] first_broken(segs, k) && r->Err_0@ == ErrorView::CorruptControlFile(
                broken_text(segs[k]),
            )
    } else if !table_ok(segs) {
        r is Err && r->Err_0@ == ErrorView::CorruptControlFile("分片编号或总长无效"@)
    } else {
        r == Ok::<ControlFile, SparklingError>(cf)
    }
}

/// The control file from which a download can go on, given what was read, or why nothing
/// was.
pub fn load_usable(parsed: Result<ControlFile, LoadFault>) -> (r: Result<
    ControlFile,
    SparklingError,
>)
    ensures
        match parsed {
            Err(LoadFault::Read(why)) => r is Err && r->Err_0@ == ErrorView::CorruptControlFile(
                "读取失败: "@ + why@,
            ),
            Err(LoadFault::Parse(why)) => r is Err && r->Err_0@ == ErrorView::CorruptControlFile(
                "JSON 解析失败: "@ + why@,
            ),
            Ok(cf) => control_outcome(cf, r),
        },
{
    if let Ok(cf) = &parsed {
        let mut i: usize = 0;
        while i < cf.segments.len()
            invariant
                parsed == Ok::<ControlFile, LoadFault>(*cf),
                i <= cf.segments@.len(),
                forall|k: int| 0 <= k < i ==> measurable(#[trigger] cf.segments@[k]),
            decreases cf.segments@.len() - i,
        {
            let s: Segment = cf.segments[i];
            if s.start == 0 && s.end == u64::MAX {
                proof {
                    assert(!measurable(cf.segments@[i as int]));
                }
                return Err(SparklingError::CorruptControlFile("分片长度溢出".to_owned()));
            }
            i = i + 1;
        }
    }
    match load(parsed) {
        Err(e) => Err(e),
        Ok(cf) => {
            if usable_table(&cf.segments) {
                Ok(cf)
            } else {
                Err(SparklingError::CorruptControlFile("分片编号或总长无效".to_owned()))
            }
        },
    }
}

proof fn sum_size_prefix(segs: Seq<Segment>, n: int)
    requires
        0 <= n <= segs.len(),
        all_wf(segs),
    ensures
        sum_size(segs.take(n)) <= sum_size(segs),
    decreases segs.len(),
{
    if n == segs.len() {
        assert(segs.take(n) =~= segs);
    } else {
        let front = segs.drop_last();
        assert forall|i: int| 0 <= i < front.len() implies (#[trigger] front[i]).wf() by {
            assert(front[i] == segs[i]);
        }
        sum_size_prefix(front, n);
        assert(front.take(n) =~= segs.take(n));
        assert(segs[segs.len() - 1].wf());
    }
}

// ---------------------------------------------------------------------------
// The report
// ---------------------------------------------------------------------------
/// The progress is reported at intervals of this many milliseconds.
pub const REPORT_MILLIS: u64 = 250;

/// The speed is measured over this many nanoseconds.
pub const WINDOW: u64 = 3_000_000_000;

/// The control file is saved with every eighth report.
pub const SAVE_EVERY: u32 = 8;

/// How many bytes had been downloaded at a time in nanoseconds.
#[derive(Debug, Clone, Copy, PartialEq, Eq, Structural)]
pub struct Mark {
    pub at: u64,
    pub downloaded: u64,
}

/// `marks` without those at its start that are older than the window at `now`.
pub open spec fn recent(marks: Seq<Mark>, now: u64) -> Seq<Mark>
    decreases marks.len(),
{
    if marks.len() > 0 && now - marks[0].at > WINDOW {
        recent(marks.drop_first(), now)
    } else {
        marks
    }
}

/// What is reported of a download.
pub open spec fn frame(sh: SharedView) -> SnapshotView {
    SnapshotView {
        state: TaskState::Running,
        downloaded: sh.downloaded as u64,
        total: sh.probe.total,
        speed: 0,
        segments: progress_of(sh.segments),
        error: None,
        filename: Some(sh.filename),
        merging: false,
    }
}

/// What the reporter is to send.
#[derive(Debug)]
pub enum ReportStep {
    /// Nothing: the download is paused.
    Skip,
    /// A snapshot, its speed still to be filled in: so many bytes in so many nanoseconds.
    Frame { snapshot: ProgressSnapshot, bytes: u64, nanos: u64 },
    /// The last snapshot.
    Last(ProgressSnapshot),
}

/// Reports the progress of a download at regular intervals.
#[derive(Debug)]
pub struct Reporter {
    pub marks: Vec<Mark>,
    pub ticks: u32,
}

impl Reporter {
    pub fn new() -> (r: Self)
        ensures
            r.marks@.len() == 0,
            r.ticks == 0,
    {
        Reporter { marks: Vec::new(), ticks: 0 }
    }

    /// What is to be sent at the time `now`. A finished download gets one last snapshot
    /// with all that has come; a paused one keeps the snapshot that it was paused with.
    pub fn on_tick(&mut self, shared: &Shared, now: u64) -> (r: ReportStep)
        requires
            shared.wf(),
        ensures
            final(self).ticks == old(self).ticks,
            match r {
                ReportStep::Last(snap) => shared.finished && snap@ == frame(shared@)
                    && final(self).marks@ == old(self).marks@,
                ReportStep::Skip => !shared.finished && shared.paused
                    && final(self).marks@ == old(self).marks@,
                ReportStep::Frame { snapshot, bytes, nanos } => {
                    let mark = Mark { at: now, downloaded: shared.downloaded };
                    let kept = recent(old(self).marks@.push(mark), now);
                    &&& !shared.finished && !shared.paused
                    &&& final(self).marks@ == kept
                    &&& kept.len() > 0
                    &&& snapshot@ == frame(shared@)
                    &&& nanos == max_of(now - kept[0].at, 0)
                    &&& nanos <= WINDOW
                    &&& bytes == max_of(shared.downloaded - kept[0].downloaded, 0)
                },
            },
    {
        if shared.finished {
            return ReportStep::Last(self.snapshot(shared));
        }
        if shared.paused {
            return ReportStep::Skip;
        }
        self.marks.push(Mark { at: now, downloaded: shared.downloaded });
        let ghost all = self.marks@;
        while self.marks.len() > 0 && now > self.marks[0].at && now - self.marks[0].at > WINDOW
            invariant
                self.marks@.len() > 0,
                self.marks@.last() == (Mark { at: now, downloaded: shared.downloaded }),
                self.ticks == old(self).ticks,
                recent(self.marks@, now) == recent(all, now),
            decreases self.marks@.len(),
        {
            let ghost before = self.marks@;
            let _gone: Mark = self.marks.remove(0);
            proof {
                assert(self.marks@ =~= before.drop_first());
            }
        }
        let first: Mark = self.marks[0];
        let bytes: u64 = if shared.downloaded >= first.downloaded {
            shared.downloaded - first.downloaded
        } else {
            0
        };
        let nanos: u64 = if now >= first.at { now - first.at } else { 0 };
        ReportStep::Frame { snapshot: self.snapshot(shared), bytes, nanos }
    }

    fn snapshot(&self, shared: &Shared) -> (r: ProgressSnapshot)
        requires
            shared.wf(),
        ensures
            r@ == frame(shared@),
    {
        ProgressSnapshot {
            state: TaskState::Running,
            downloaded: shared.downloaded,
            total: shared.probe.total,
            speed: 0,
            segments: shared.snapshot_segments(),
            error: None,
            filename: Some(shared.filename.clone()),
            merging: false,
        }
    }

    /// Counts a snapshot that has been sent; with every eighth one the control file is to
    /// be saved, where the download keeps one.
    pub fn on_sent(&mut self, shared: &Shared, keeps_control_file: bool) -> (r: Option<ControlFile>)
        requires
            old(self).ticks < u32::MAX,
        ensures
            final(self).ticks == old(self).ticks + 1,
            final(self).marks@ == old(self).marks@,
            opt_control_view(r) == if keeps_control_file && (old(self).ticks + 1) % SAVE_EVERY as int
                == 0 {
                Some(shared@.recorded())
            } else {
                None
            },
    {
        self.ticks = self.ticks + 1;
        if self.ticks % SAVE_EVERY == 0 && keeps_control_file {
            Some(shared.build_control_file())
        } else {
            None
        }
    }
}

// ---------------------------------------------------------------------------
// The end
// ---------------------------------------------------------------------------
/// The MD5 digest of some bytes.
pub uninterp spec fn md5_of(data: Seq<u8>) -> Seq<u8>;

/// `<md5::Md5 as Digest>::digest`: the digest of `data`, 16 bytes that depend on `data`
/// alone.
#[verifier::external_body]
fn md5_digest(data: &[u8]) -> (r: Vec<u8>)
    ensures
        r@ == md5_of(data@),
        r@.len() == 16,
{
    Md5::digest(data).to_vec()
}

/// The base64 text of some bytes, in the standard alphabet with padding.
pub uninterp spec fn base64_of(data: Seq<u8>) -> Seq<char>;

/// `Engine::encode` of `base64::engine::general_purpose::STANDARD`: the base64 text of
/// `data`, which depends on `data` alone.
#[verifier::external_body]
fn base64_encode(data: &[u8]) -> (r: String)
    requires
        data@.len() <= usize::MAX / 4,
    ensures
        r@ == base64_of(data@),
{
    STANDARD.encode(data)
}

/// The text that a `Content-MD5` header would have for `data`.
pub fn content_md5(data: &[u8]) -> (r: String)
    ensures
        r@ == base64_of(md5_of(data@)),
{
    base64_encode(md5_digest(data).as_slice())
}

/// What is said where not all bytes have come.
pub open spec fn count_text(downloaded: int, total: int) -> Seq<char> {
    "下载数量不一致: "@ + decimal(downloaded as nat) + " / "@ + decimal(total as nat)
}

/// What keeps a download from being published, if anything: a byte missing, a part file
/// that cannot be read, or a checksum that is not the expected one. `actual` is the part
/// file's checksum, or why it could not be read.
pub open spec fn publish_fault(sh: SharedView, actual: Result<Seq<char>, Seq<char>>) -> Option<
    ErrorView,
> {
    if sh.downloaded != sh.probe.total {
        Some(ErrorView::Other(count_text(sh.downloaded, sh.probe.total as int)))
    } else {
        match sh.probe.content_md5 {
            None => None,
            Some(expected) => match actual {
                Err(why) => Some(ErrorView::DiskWrite(why)),
                Ok(sum) => if sum == expected {
                    None
                } else {
                    Some(ErrorView::ChecksumMismatch { expected, actual: sum })
                },
            },
        }
    }
}

/// A `Result` of strings seen through its views.
pub open spec fn text_result(r: Result<String, String>) -> Result<Seq<char>, Seq<char>> {
    match r {
        Ok(s) => Ok(s@),
        Err(s) => Err(s@),
    }
}

/// Whether the part file may become the file, given its checksum or why it could not be
/// read.
pub fn finalize_with(shared: &Shared, actual: Result<String, String>) -> (r: Result<
    (),
    SparklingError,
>)
    ensures
        match r {
            Ok(()) => publish_fault(shared@, text_result(actual)) is None,
            Err(e) => publish_fault(shared@, text_result(actual)) == Some(e@),
        },
{
    if shared.downloaded != shared.probe.total {
        let text: String = cat("下载数量不一致: ", decimal_of(shared.downloaded).as_str()).concat(
            " / ",
        ).concat(decimal_of(shared.probe.total).as_str());
        return Err(SparklingError::Other(text));
    }
    match &shared.probe.content_md5 {
        None => Ok(()),
        Some(expected) => match actual {
            Err(why) => Err(SparklingError::DiskWrite(why)),
            Ok(sum) => {
                if sum == *expected {
                    Ok(())
                } else {
                    Err(
                        SparklingError::ChecksumMismatch {
                            expected: expected.clone(),
                            actual: sum,
                        },
                    )
                }
            },
        },
    }
}

/// Whether the part file may become the file, given what it holds or why it could not be
/// read.
pub fn finalize(shared: &Shared, content: Result<Vec<u8>, String>) -> (r: Result<
    (),
    SparklingError,
>)
    ensures
        ({
            let actual: Result<Seq<char>, Seq<char>> = match content {
                Ok(data) => Ok(base64_of(md5_of(data@))),
                Err(why) => Err(why@),
            };
            match r {
                Ok(()) => publish_fault(shared@, actual) is None,
                Err(e) => publish_fault(shared@, actual) == Some(e@),
            }
        }),
{
    let actual: Result<String, String> = match content {
        Ok(data) => Ok(content_md5(data.as_slice())),
        Err(why) => Err(why),
    };
    finalize_with(shared, actual)
}

/// The steps of publishing a finished part file.
#[derive(Debug, Clone, Copy, PartialEq, Eq, Structural)]
pub enum PublishStep {
    /// Delete a file of the same name.
    Overwrite,
    /// Give the part file its final name.
    Rename,
}

/// The error of publishing a part file: which step failed, and why.
pub fn publish_error(step: PublishStep, why: &str) -> (r: SparklingError)
    ensures
        r@ == ErrorView::DiskWrite(
            match step {
                PublishStep::Overwrite => "覆盖旧文件失败: "@,
                PublishStep::Rename => "重命名失败: "@,
            } + why@,
        ),
{
    let prefix: &str = match step {
        PublishStep::Overwrite => "覆盖旧文件失败: ",
        PublishStep::Rename => "重命名失败: ",
    };
    SparklingError::DiskWrite(cat(prefix, why))
}

/// What is done with the files when a run has ended.
#[derive(Debug)]
pub enum Settlement {
    /// Check and publish the part file.
    Publish,
    /// Delete the part file and the control file.
    Discard,
    /// Leave both: the task can be tried again from where it failed.
    Keep(SparklingError),
    /// Delete both, probe again, and download everything anew.
    Restart,
}

pub enum SettlementView {
    Publish,
    Discard,
    Keep(ErrorView),
    Restart,
}

impl View for Settlement {
    type V = SettlementView;

    open spec fn view(&self) -> SettlementView {
        match *self {
            Settlement::Publish => SettlementView::Publish,
            Settlement::Discard => SettlementView::Discard,
            Settlement::Keep(e) => SettlementView::Keep(e@),
            Settlement::Restart => SettlementView::Restart,
        }
    }
}

/// What is done with the files when a run of the driver has ended.
pub fn settle(end: Result<(), DownloadEnd>) -> (r: Settlement)
    ensures
        r@ == match end {
            Ok(_) => SettlementView::Publish,
            Err(DownloadEnd::Cancelled) => SettlementView::Discard,
            Err(DownloadEnd::Failed(e)) => SettlementView::Keep(e@),
            Err(DownloadEnd::RestartNeeded) => SettlementView::Restart,
        },
{
    match end {
        Ok(_) => Settlement::Publish,
        Err(DownloadEnd::Cancelled) => Settlement::Discard,
        Err(DownloadEnd::Failed(e)) => Settlement::Keep(e),
        Err(DownloadEnd::RestartNeeded) => Settlement::Restart,
    }
}

/// What is done with the files when the sequential worker has ended: it can only be done,
/// fail or be cancelled.
pub fn settle_sequential(exit: Result<WorkerExit, SparklingError>) -> (r: Settlement)
    ensures
        r@ == match exit {
            Ok(WorkerExit::Done) => SettlementView::Publish,
            Ok(_) => SettlementView::Discard,
            Err(e) => SettlementView::Keep(e@),
        },
{
    match exit {
        Ok(WorkerExit::Done) => Settlement::Publish,
        Ok(_) => Settlement::Discard,
        Err(e) => Settlement::Keep(e),
    }
}

/// Takes a control message for a download without range support, which cannot be paused:
/// only cancelling, or the loss of whoever could cancel, has an effect. Says whether it
/// was cancelled.
pub fn control_sequential(shared: &mut Shared, msg: Option<ControlMsg>) -> (r: bool)
    ensures
        r == (msg is None || msg == Some(ControlMsg::Cancel)),
        *final(shared) == (Shared { cancelled: old(shared).cancelled || r, ..*old(shared) }),
{
    match msg {
        Some(ControlMsg::Pause) => false,
        Some(ControlMsg::Resume) => false,
        _ => {
            shared.cancelled = true;
            true
        },
    }
}

/// The snapshot that a task ends with.
pub open spec fn last_snapshot(s: SnapshotView, end: Result<(), EndView>) -> SnapshotView {
    match end {
        Ok(_) => SnapshotView { state: TaskState::Completed, error: None, ..s },
        Err(EndView::Failed(e)) => SnapshotView {
            state: TaskState::Failed,
            error: Some(e.message()),
            ..s
        },
        Err(_) => SnapshotView { state: TaskState::Cancelled, ..s },
    }
}

/// Brings a snapshot to the end of its task: completed, cancelled, or failed with the
/// message for the user.
pub fn supervise(snap: &mut ProgressSnapshot, end: Result<(), DownloadEnd>)
    requires
        !(end is Err && end->Err_0 is RestartNeeded),
    ensures
        final(snap)@ == last_snapshot(
            old(snap)@,
            match end {
                Ok(_) => Ok(()),
                Err(e) => Err(e@),
            },
        ),
{
    match end {
        Ok(_) => {
            snap.state = TaskState::Completed;
            snap.error = None;
        },
        Err(DownloadEnd::Failed(e)) => {
            snap.state = TaskState::Failed;
            snap.error = Some(e.user_message());
        },
        Err(_) => {
            snap.state = TaskState::Cancelled;
        },
    }
}

// ---------------------------------------------------------------------------
// Laws
// ---------------------------------------------------------------------------
proof fn last_piece_is_clean(s: Seq<char>, sep: char)
    ensures
        pieces(s, sep).len() >= 1,
        !pieces(s, sep).last().contains(sep),
        forall|c: char| pieces(s, sep).last().contains(c) ==> s.contains(c),
    decreases s.len(),
{
    pieces_nonempty(s, sep);
    if s.len() > 0 {
        let front = s.drop_last();
        last_piece_is_clean(front, sep);
        let p = pieces(front, sep);
        let last = pieces(s, sep).last();
        if s.last() != sep {
            assert(last == p.last().push(s.last()));
            assert forall|c: char| last.contains(c) implies s.contains(c) && c != sep by {
                let i = choose|i: int| 0 <= i < last.len() && last[i] == c;
                if i < p.last().len() {
                    assert(p.last()[i] == c);
                    assert(p.last().contains(c));
                    assert(front.contains(c));
                    let j = choose|j: int| 0 <= j < front.len() && front[j] == c;
                    assert(s[j] == c);
                } else {
                    assert(s[s.len() - 1] == c);
                }
            }
        }
    }
}

proof fn clean_is_one_piece(s: Seq<char>, sep: char)
    requires
        !s.contains(sep),
    ensures
        pieces(s, sep) == seq![s],
{
    crate::text::clean_is_one_piece(s, sep);
}

/// A sanitized name is plain: it has no separator and no drive, is not empty and is no
/// reference to a directory. So its place in a directory is behind the directory's own
/// path, and sanitizing it again changes nothing.
pub proof fn sanitized_stays_in_place(name: Seq<char>, dir: Seq<char>, path: Seq<char>)
    ensures
        plain_name(sanitized(name)),
        sanitized(sanitized(name)) == sanitized(name),
        !verbatim(dir) && is_joined(dir, sanitized(name), path) ==> extends(
            dir,
            sanitized(name),
            path,
        ),
{
    reveal_strlit("download");
    reveal_strlit(".");
    reveal_strlit("..");
    let a = pieces(name, '/').last();
    last_piece_is_clean(name, '/');
    last_piece_is_clean(a, '\\');
    let last = last_component(name);
    let s = sanitized(name);
    assert("."@ =~= seq!['.']);
    assert(".."@ =~= seq!['.', '.']);
    assert("download"@[0] == 'd');
    assert forall|i: int| 0 <= i < s.len() implies s[i] != '/' && s[i] != '\\' by {
        if i < last.len() && s[i] == last[i] {
            assert(last.contains(last[i]));
        }
    }
    assert(!s.contains('/') && !s.contains('\\'));
    assert(s.len() >= 2 ==> s[1] != ':');
    assert(s.len() == 1 ==> s =~= seq![s[0]]);
    clean_is_one_piece(s, '/');
    clean_is_one_piece(s, '\\');
}

/// A new download of a file with range support starts with a table that partitions the
/// file, of which nothing has been downloaded.
pub proof fn fresh_plan_partitions(
    plan: PlanView,
    spec: TaskSpec,
    probe: ProbeResult,
    filename: Seq<char>,
    ctl: Option<Result<ControlFile, SparklingError>>,
)
    requires
        is_plan(plan, spec, probe, filename, ctl),
        probe.total > 0,
        probe.supports_range,
        ctl is None || ctl->0 is Err || !resumable(ctl->0->Ok_0@, spec.url@, probe@),
    ensures
        plan is Segmented,
        tiles(plan->Segmented_shared.segments, probe.total as int),
        plan->Segmented_shared.downloaded == 0,
        plan->Segmented_discard == (ctl is Some),
{
    split_is_ok(plan->Segmented_shared.segments, probe.total, spec.segments);
}

/// A download without range support starts with one segment that is the whole file.
pub proof fn sequential_plan_partitions(
    plan: PlanView,
    spec: TaskSpec,
    probe: ProbeResult,
    filename: Seq<char>,
    ctl: Option<Result<ControlFile, SparklingError>>,
)
    requires
        is_plan(plan, spec, probe, filename, ctl),
        probe.total > 0,
        !probe.supports_range,
    ensures
        plan is Sequential,
        tiles(plan->Sequential_shared.segments, probe.total as int),
        plan->Sequential_shared.downloaded == 0,
        place(plan->Sequential_shared.segments, 0) == Some(0int),
{
    let segs = plan->Sequential_shared.segments;
    let whole = segs[0];
    assert(segs.drop_last() =~= Seq::<Segment>::empty());
    assert(sum_size(segs.drop_last()) == 0);
    assert(sum_downloaded(segs.drop_last()) == 0);
    assert(place(segs.drop_last(), 0) is None);
    assert forall|b: int| #[trigger] held(segs, b) <==> 0 <= b < probe.total by {
        if 0 <= b < probe.total {
            assert(segs[0].holds(b));
        }
    }
}

/// What a download records, it goes on from: where the control file of a segmented
/// download is found again, and the file is still the same at the same URL, the table and
/// the progress are those that were recorded.
pub proof fn recorded_download_resumes(
    sh: SharedView,
    cf: ControlFile,
    spec: TaskSpec,
    probe: ProbeResult,
    filename: Seq<char>,
    plan: PlanView,
)
    requires
        cf@ == sh.recorded(),
        sh.url == spec.url@,
        sh.probe.supports_range,
        probe.supports_range,
        probe.total > 0,
        same_file(sh.probe, probe@),
        is_plan(plan, spec, probe, filename, Some(Ok(cf))),
    ensures
        plan is Segmented,
        !plan->Segmented_discard,
        plan->Segmented_shared.segments == sh.segments,
        plan->Segmented_shared.downloaded == sum_downloaded(sh.segments),
{
}

/// Progress that was recorded is used only for the same URL, the same size and validators
/// that agree.
pub proof fn other_files_start_over(
    plan: PlanView,
    spec: TaskSpec,
    probe: ProbeResult,
    filename: Seq<char>,
    cf: ControlFile,
)
    requires
        is_plan(plan, spec, probe, filename, Some(Ok(cf))),
        plan is Segmented,
        cf.url@ != spec.url@ || cf.total_size != probe.total || !validators_agree(
            cf@.etag,
            probe@.etag,
        ) || !validators_agree(cf@.last_modified, probe@.last_modified),
    ensures
        plan->Segmented_discard,
        plan->Segmented_shared.downloaded == 0,
        tiles(plan->Segmented_shared.segments, probe.total as int),
{
    split_is_ok(plan->Segmented_shared.segments, probe.total, spec.segments);
}

/// A file is published only if it is whole: where the table partitions the file and the
/// progress is counted, every byte has been written by the segment that holds it; and
/// where a checksum was given, it is the file's.
pub proof fn published_file_is_whole(
    sh: SharedView,
    actual: Result<Seq<char>, Seq<char>>,
    b: int,
)
    requires
        publish_fault(sh, actual) is None,
        tiles(sh.segments, sh.probe.total as int),
        sh.downloaded == sum_downloaded(sh.segments),
        0 <= b < sh.probe.total,
    ensures
        exists|i: int| 0 <= i < sh.segments.len() && (#[trigger] sh.segments[i]).has_written(b),
        sh.probe.content_md5 is Some ==> actual == Ok::<Seq<char>, Seq<char>>(
            sh.probe.content_md5->0,
        ),
{
    all_counted_means_all_written(sh.segments, sh.probe.total as int, b);
}

/// A plain name is kept as it is. Of a path only the last component counts, whichever
/// separator stands before it. A component that is no name becomes "download", and the colon
/// behind a drive's letter an underscore.
pub proof fn sanitizing_keeps_the_last_component(dir: Seq<char>, name: Seq<char>)
    ensures
        plain_name(name) ==> sanitized(name) == name,
        sanitized(dir.push('/') + name) == sanitized(name),
        !name.contains('/') ==> sanitized(dir.push('\\') + name) == sanitized(name),
        name.len() == 0 || name == seq!['.'] || name == seq!['.', '.'] ==> sanitized(name) == seq![
            'd',
            'o',
            'w',
            'n',
            'l',
            'o',
            'a',
            'd',
        ],
        !name.contains('/') && !name.contains('\\') && name.len() >= 2 && name[1] == ':'
            ==> sanitized(name) == name.update(1, '_'),
{
    reveal_strlit("download");
    reveal_strlit(".");
    reveal_strlit("..");
    assert("."@ =~= seq!['.']);
    assert(".."@ =~= seq!['.', '.']);
    assert("download"@ =~= seq!['d', 'o', 'w', 'n', 'l', 'o', 'a', 'd']);
    if !name.contains('/') && !name.contains('\\') {
        clean_is_one_piece(name, '/');
        clean_is_one_piece(name, '\\');
    }
    separator_parts_the_pieces(dir, name, '/');
    pieces_nonempty(name, '/');
    if !name.contains('/') {
        let tail = seq!['\\'] + name;
        assert(tail[0] == '\\');
        assert forall|i: int| 0 <= i < tail.len() implies tail[i] != '/' by {
            if i > 0 {
                assert(tail[i] == name[i - 1]);
                assert(name.contains(name[i - 1]));
            }
        }
        assert(!tail.contains('/'));
        last_piece_grows(dir, tail, '/');
        let head = pieces(dir, '/').last();
        assert(dir.push('\\') + name =~= dir + tail);
        assert(head + tail =~= head.push('\\') + name);
        separator_parts_the_pieces(head, name, '\\');
        pieces_nonempty(name, '\\');
        clean_is_one_piece(name, '/');
    }
    if name == seq!['.'] || name == seq!['.', '.'] || name.len() == 0 {
        assert forall|i: int| 0 <= i < name.len() implies name[i] == '.' by {}
        assert(!name.contains('/') && !name.contains('\\'));
    }
}

proof fn last_piece_grows(s: Seq<char>, t: Seq<char>, sep: char)
    requires
        !t.contains(sep),
    ensures
        pieces(s + t, sep).last() == pieces(s, sep).last() + t,
    decreases t.len(),
{
    pieces_nonempty(s, sep);
    if t.len() == 0 {
        assert(s + t =~= s);
        assert(pieces(s, sep).last() + t =~= pieces(s, sep).last());
    } else {
        let front = t.drop_last();
        assert(forall|i: int| 0 <= i < front.len() ==> front[i] == t[i]);
        assert(!front.contains(sep));
        assert(t[t.len() - 1] != sep);
        last_piece_grows(s, front, sep);
        pieces_nonempty(s + front, sep);
        assert((s + t).drop_last() =~= s + front);
        assert((s + t).last() == t.last());
        assert((pieces(s, sep).last() + front).push(t.last()) =~= pieces(s, sep).last() + t);
    }
}

/// The name that the user chose comes before the one that the probe found.
pub proof fn users_name_comes_first(spec: TaskSpec, probe: ProbeResult)
    ensures
        spec.filename is Some ==> wanted_name(spec, probe) == spec.filename->0@,
        spec.filename is None ==> wanted_name(spec, probe) == probe.filename@,
{
}

/// The shared state of any plan is of the task's URL, under the given name and of the probed
/// file. No flag is set, the progress is the sum of the table's, and numbers are free from
/// its length on.
pub open spec fn starts_clean(
    sh: SharedView,
    spec: TaskSpec,
    probe: ProbeResult,
    filename: Seq<char>,
) -> bool {
    &&& sh.url == spec.url@
    &&& sh.filename == filename
    &&& sh.probe.total == probe.total
    &&& sh.probe.supports_range == probe.supports_range
    &&& sh.probe.etag is Some <==> probe.etag is Some
    &&& probe.etag is Some ==> sh.probe.etag->0 == probe.etag->0@
    &&& sh.probe.last_modified is Some <==> probe.last_modified is Some
    &&& probe.last_modified is Some ==> sh.probe.last_modified->0 == probe.last_modified->0@
    &&& sh.probe.content_md5 is Some <==> probe.content_md5 is Some
    &&& probe.content_md5 is Some ==> sh.probe.content_md5->0 == probe.content_md5->0@
    &&& !sh.paused
    &&& !sh.cancelled
    &&& !sh.finished
    &&& sh.failed is None
    &&& sh.next_index == sh.segments.len()
    &&& sh.downloaded == sum_downloaded(sh.segments)
}

/// The recorded download is of the same URL and size, of a server with range support, and
/// neither its ETag nor its modification time is known to differ from the probed one.
pub open spec fn recorded_of_same(cf: ControlFile, spec: TaskSpec, probe: ProbeResult) -> bool {
    &&& cf.url@ == spec.url@
    &&& cf.total_size == probe.total
    &&& cf.supports_range
    &&& cf.etag is None || probe.etag is None || cf.etag->0@ == probe.etag->0@
    &&& cf.last_modified is None || probe.last_modified is None || cf.last_modified->0@
        == probe.last_modified->0@
}

/// How a download proceeds: an empty file is only created. Without range support there is one
/// segment from the first byte to the last, of which nothing is there. Otherwise the download
/// goes on from its control file, with the recorded table, exactly where that is of the same
/// file; or else starts from nothing with as many segments as asked for, each byte being
/// missing, and what an earlier one left is deleted.
pub proof fn plans_follow_the_probe(
    plan: PlanView,
    spec: TaskSpec,
    probe: ProbeResult,
    filename: Seq<char>,
    ctl: Option<Result<ControlFile, SparklingError>>,
)
    requires
        is_plan(plan, spec, probe, filename, ctl),
    ensures
        plan is Empty <==> probe.total == 0,
        plan is Sequential <==> probe.total > 0 && !probe.supports_range,
        plan is Segmented <==> probe.total > 0 && probe.supports_range,
        plan is Sequential ==> {
            let sh = plan->Sequential_shared;
            &&& starts_clean(sh, spec, probe, filename)
            &&& plan->Sequential_discard == (ctl is Some)
            &&& sh.segments.len() == 1
            &&& sh.segments[0].index == 0
            &&& sh.segments[0].start == 0
            &&& sh.segments[0].end == probe.total - 1
            &&& sh.segments[0].downloaded == 0
        },
        plan is Segmented ==> {
            let sh = plan->Segmented_shared;
            let same = ctl is Some && ctl->0 is Ok && recorded_of_same(
                ctl->0->Ok_0,
                spec,
                probe,
            );
            &&& starts_clean(sh, spec, probe, filename)
            &&& same ==> sh.segments == ctl->0->Ok_0.segments@ && !plan->Segmented_discard
            &&& !same ==> {
                &&& plan->Segmented_discard == (ctl is Some)
                &&& tiles(sh.segments, probe.total as int)
                &&& is_split(sh.segments, probe.total as int, spec.segments as int)
                &&& sh.downloaded == 0
                &&& 1 <= spec.segments <= probe.total ==> sh.segments.len() == spec.segments
                &&& spec.segments > probe.total ==> sh.segments.len() == probe.total
                &&& spec.segments == 0 ==> sh.segments.len() == 1
            }
        },
{
    if plan is Segmented {
        let sh = plan->Segmented_shared;
        let same = ctl is Some && ctl->0 is Ok && recorded_of_same(ctl->0->Ok_0, spec, probe);
        if ctl is Some && ctl->0 is Ok {
            assert(same <==> resumable(ctl->0->Ok_0@, spec.url@, probe@));
        }
        if !same {
            split_is_ok(sh.segments, probe.total, spec.segments);
            split_gives_what_was_asked(sh.segments, probe.total, spec.segments);
        }
    }
}

/// A control file is taken, unchanged, exactly where each of its segments is a range with no
/// more downloaded than it holds, they hold together no more than a `u64` counts, and their
/// numbers are those from 0 on, each once. Any other counts as corrupt.
pub proof fn only_sound_control_files_are_taken(
    cf: ControlFile,
    r: Result<ControlFile, SparklingError>,
)
    requires
        control_outcome(cf, r),
    ensures
        ({
            let segs = cf.segments@;
            &&& r is Ok <==> {
                &&& sum_size(segs) <= u64::MAX
                &&& forall|i: int|
                    0 <= i < segs.len() ==> (#[trigger] segs[i]).start <= segs[i].end
                        && segs[i].downloaded <= segs[i].end + 1 - segs[i].start
                        && segs[i].end + 1 - segs[i].start <= u64::MAX
                &&& forall|i: int| 0 <= i < segs.len() ==> (#[trigger] segs[i]).index < segs.len()
                &&& forall|i: int, j: int|
                    0 <= i < j < segs.len() ==> (#[trigger] segs[i]).index != (
                    #[trigger] segs[j]).index
            }
            &&& r is Ok ==> r->Ok_0 == cf
            &&& r is Err ==> r->Err_0 is CorruptControlFile
        }),
{
    workable_tables(cf.segments@);
    let segs = cf.segments@;
    if table_ok(segs) {
        assert forall|i: int| 0 <= i < segs.len() implies measurable(#[trigger] segs[i]) by {
            assert(segs[i].wf());
        }
    }
    if r is Err {
        assert(r->Err_0@ is CorruptControlFile);
    }
}

/// The speed is measured over the last three seconds: of the marks the oldest are dropped, one
/// after the other, as long as they are older, and no other is.
pub proof fn old_marks_are_dropped(marks: Seq<Mark>, now: u64) -> (k: int)
    ensures
        0 <= k <= marks.len(),
        recent(marks, now) == marks.skip(k),
        forall|i: int| 0 <= i < k ==> now - (#[trigger] marks[i]).at > 3_000_000_000,
        k < marks.len() ==> now - marks[k].at <= 3_000_000_000,
    decreases marks.len(),
{
    if marks.len() > 0 && now - marks[0].at > WINDOW {
        let rest = marks.drop_first();
        let k = old_marks_are_dropped(rest, now);
        assert(rest.skip(k) =~= marks.skip(k + 1));
        assert forall|i: int| 0 <= i < k + 1 implies now - (#[trigger] marks[i]).at
            > 3_000_000_000 by {
            if i > 0 {
                assert(rest[i - 1] == marks[i]);
            }
        }
        if k < rest.len() {
            assert(rest[k] == marks[k + 1]);
        }
        k + 1
    } else {
        assert(marks.skip(0) =~= marks);
        0
    }
}

/// A report shows a running task with the progress and the size of the download, the progress
/// of each segment, and the name; four come in a second, and with every eighth, that is every
/// two seconds, the control file is saved.
pub proof fn reports_show_the_download(sh: Shared, snap: ProgressSnapshot, i: int)
    requires
        snap@ == frame(sh@),
        sh.wf(),
    ensures
        snap.state is Running,
        snap.downloaded == sh.downloaded,
        snap.total == sh.probe.total,
        snap.error is None,
        snap.filename is Some,
        snap.filename->0@ == sh.filename@,
        !snap.merging,
        snap.segments@.len() == sh.segments@.len(),
        0 <= i < sh.segments@.len() ==> {
            &&& snap.segments@[i].index == sh.segments@[i].index
            &&& snap.segments@[i].downloaded == sh.segments@[i].downloaded
            &&& snap.segments@[i].len == sh.segments@[i].end + 1 - sh.segments@[i].start
        },
        REPORT_MILLIS * 4 == 1000,
        SAVE_EVERY * REPORT_MILLIS == 2000,
{
    if 0 <= i < sh.segments@.len() {
        assert(sh.segments@[i].wf());
        reports_show_every_segment(sh.segments@, i);
    }
}

/// A download is published exactly where all its bytes are counted and, where the server gave
/// a checksum, the part file could be read and has it. Else the error says what is wrong: the
/// disk's where the part file could not be read, both checksums where they differ.
pub proof fn publishing_needs_all_bytes_and_the_checksum(
    sh: SharedView,
    sum: Seq<char>,
    why: Seq<char>,
)
    ensures
        ({
            let whole = sh.downloaded == sh.probe.total;
            let read = publish_fault(sh, Ok(sum));
            let unread = publish_fault(sh, Err(why));
            &&& read is None <==> whole && (sh.probe.content_md5 is None || sh.probe.content_md5
                == Some(sum))
            &&& unread is None <==> whole && sh.probe.content_md5 is None
            &&& !whole ==> read is Some && read->0 is Other && unread == read
            &&& whole && sh.probe.content_md5 is Some && sh.probe.content_md5->0 != sum ==> read
                == Some(
                ErrorView::ChecksumMismatch { expected: sh.probe.content_md5->0, actual: sum },
            )
            &&& whole && sh.probe.content_md5 is Some ==> unread == Some(ErrorView::DiskWrite(why))
        }),
{
}

/// A task ends completed and without an error, failed with the message for the user, or
/// cancelled; its progress stays as it was.
pub proof fn last_report_tells_the_end(s: SnapshotView, e: ErrorView)
    ensures
        last_snapshot(s, Ok(())).state is Completed,
        last_snapshot(s, Ok(())).error is None,
        last_snapshot(s, Err(EndView::Failed(e))).state is Failed,
        last_snapshot(s, Err(EndView::Failed(e))).error == Some(e.message()),
        last_snapshot(s, Err(EndView::Cancelled)).state is Cancelled,
        last_snapshot(s, Err(EndView::Cancelled)).error == s.error,
        forall|end: Result<(), EndView>|
            #![trigger last_snapshot(s, end)]
            {
                let t = last_snapshot(s, end);
                &&& t.downloaded == s.downloaded
                &&& t.total == s.total
                &&& t.speed == s.speed
                &&& t.segments == s.segments
                &&& t.filename == s.filename
                &&& t.merging == s.merging
            },
{
}

/// A plan and a settlement are seen as they are.
pub proof fn plans_are_seen_as_they_are(plan: Plan, s: Settlement, t: String)
    ensures
        plan is Empty <==> plan@ is Empty,
        plan is Sequential ==> plan@ == (PlanView::Sequential {
            shared: plan->Sequential_shared@,
            discard: plan->Sequential_discard,
        }),
        plan is Segmented ==> plan@ == (PlanView::Segmented {
            shared: plan->Segmented_shared@,
            discard: plan->Segmented_discard,
        }),
        s is Publish <==> s@ is Publish,
        s is Discard <==> s@ is Discard,
        s is Restart <==> s@ is Restart,
        s is Keep ==> s@ == SettlementView::Keep(s->Keep_0@),
        text_result(Ok(t)) == Ok::<Seq<char>, Seq<char>>(t@),
        text_result(Err(t)) == Err::<Seq<char>, Seq<char>>(t@),
{
}

/// What is said of missing bytes gives how many have come and how many there should be.
pub proof fn missing_bytes_are_counted(downloaded: nat, total: nat)
    ensures
        ({
            let a = decimal(downloaded);
            let b = decimal(total);
            let text = count_text(downloaded as int, total as int);
            &&& text.len() == 9 + a.len() + 3 + b.len()
            &&& text.subrange(9, 9 + a.len() as int) == a
            &&& b.is_suffix_of(text)
        }),
{
    reveal_strlit("下载数量不一致: ");
    reveal_strlit(" / ");
    let a = decimal(downloaded);
    let b = decimal(total);
    let text = count_text(downloaded as int, total as int);
    assert(text.subrange(9, 9 + a.len() as int) =~= a);
    assert(text.skip(text.len() - b.len()) =~= b);
}

} // verus!
