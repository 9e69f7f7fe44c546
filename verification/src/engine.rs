//! What passes between an engine and its users: progress snapshots and control messages.
use crate::error::SparklingError;
use crate::task::{is_task_id, new_task_id, TaskId, TaskKind, TaskSpec, TaskState};
use crate::text::{opt_clone, opt_view};
use vstd::prelude::*;

verus! {

/// How far one segment has come.
#[derive(Debug, Clone, Copy, PartialEq, Eq, Structural)]
pub struct SegmentProgress {
    pub index: usize,
    pub downloaded: u64,
    pub len: u64,
}

/// The progress of a task, as the user interface sees it.
#[derive(Debug)]
pub struct ProgressSnapshot {
    pub state: TaskState,
    pub downloaded: u64,
    pub total: u64,
    /// Bytes per second.
    pub speed: u64,
    pub segments: Vec<SegmentProgress>,
    pub error: Option<String>,
    /// The final file name, once the engine knows it.
    pub filename: Option<String>,
    /// Whether the streams of a video are being merged.
    pub merging: bool,
}

pub struct SnapshotView {
    pub state: TaskState,
    pub downloaded: u64,
    pub total: u64,
    pub speed: u64,
    pub segments: Seq<SegmentProgress>,
    pub error: Option<Seq<char>>,
    pub filename: Option<Seq<char>>,
    pub merging: bool,
}

impl View for ProgressSnapshot {
    type V = SnapshotView;

    open spec fn view(&self) -> SnapshotView {
        SnapshotView {
            state: self.state,
            downloaded: self.downloaded,
            total: self.total,
            speed: self.speed,
            segments: self.segments@,
            error: opt_view(self.error),
            filename: opt_view(self.filename),
            merging: self.merging,
        }
    }
}

/// A copy of a list of segment progress values.
pub fn progress_clone(v: &Vec<SegmentProgress>) -> (r: Vec<SegmentProgress>)
    ensures
        r@ == v@,
{
    let mut out: Vec<SegmentProgress> = Vec::new();
    let mut i: usize = 0;
    while i < v.len()
        invariant
            i <= v@.len(),
            out@ == v@.take(i as int),
        decreases v@.len() - i,
    {
        out.push(v[i]);
        i = i + 1;
        proof {
            assert(v@.take(i as int) =~= v@.take(i - 1).push(v@[i - 1]));
        }
    }
    proof {
        assert(v@.take(v@.len() as int) =~= v@);
    }
    out
}

impl Clone for ProgressSnapshot {
    fn clone(&self) -> (r: Self)
        ensures
            r@ == self@,
    {
        ProgressSnapshot {
            state: self.state,
            downloaded: self.downloaded,
            total: self.total,
            speed: self.speed,
            segments: progress_clone(&self.segments),
            error: opt_clone(&self.error),
            filename: opt_clone(&self.filename),
            merging: self.merging,
        }
    }
}

/// What can be asked of a running task.
#[derive(Debug, Clone, Copy, PartialEq, Eq, Structural)]
pub enum ControlMsg {
    Pause,
    Resume,
    Cancel,
}

/// The snapshot that a task starts with.
pub open spec fn first_snapshot(filename: Option<Seq<char>>) -> SnapshotView {
    SnapshotView {
        state: TaskState::Running,
        downloaded: 0,
        total: 0,
        speed: 0,
        segments: Seq::empty(),
        error: None,
        filename,
        merging: false,
    }
}

/// The snapshot that a task starts with.
pub fn initial_snapshot(filename: Option<String>) -> (r: ProgressSnapshot)
    ensures
        r@ == first_snapshot(opt_view(filename)),
{
    ProgressSnapshot {
        state: TaskState::Running,
        downloaded: 0,
        total: 0,
        speed: 0,
        segments: Vec::new(),
        error: None,
        filename,
        merging: false,
    }
}

/// What the HTTP engine makes of a submitted task: it takes HTTP tasks only, under a new
/// identifier, and starts them without a file name, which the probe will find.
pub fn submit_http(spec: &TaskSpec) -> (r: Result<(TaskId, ProgressSnapshot), SparklingError>)
    ensures
        match r {
            Ok((id, snap)) => spec.kind is Http && is_task_id(id@) && snap@ == first_snapshot(None),
            Err(e) => !(spec.kind is Http) && e@ == crate::error::ErrorView::Other(
                "HttpEngine 收到非 HTTP 任务"@,
            ),
        },
{
    if spec.kind != TaskKind::Http {
        return Err(SparklingError::Other("HttpEngine 收到非 HTTP 任务".to_owned()));
    }
    Ok((new_task_id(), initial_snapshot(None)))
}

/// What the video engine makes of a submitted task: it takes video tasks with video
/// parameters only, under a new identifier. The file name stays unset unless the task sets
/// it.
pub fn submit_video(spec: &TaskSpec) -> (r: Result<(TaskId, ProgressSnapshot), SparklingError>)
    ensures
        match r {
            Ok((id, snap)) => spec.kind is Video && spec.video is Some && is_task_id(id@) && snap@
                == first_snapshot(spec@.filename),
            Err(e) => if !(spec.kind is Video) {
                e@ == crate::error::ErrorView::Other("VideoEngine 收到非视频任务"@)
            } else {
                spec.video is None && e@ == crate::error::ErrorView::Other("视频任务缺少视频参数"@)
            },
        },
{
    if spec.kind != TaskKind::Video {
        return Err(SparklingError::Other("VideoEngine 收到非视频任务".to_owned()));
    }
    if spec.video.is_none() {
        return Err(SparklingError::Other("视频任务缺少视频参数".to_owned()));
    }
    Ok((new_task_id(), initial_snapshot(opt_clone(&spec.filename))))
}

/// The snapshot `s` in another state.
pub open spec fn with_state(s: SnapshotView, state: TaskState) -> SnapshotView {
    SnapshotView { state, ..s }
}

/// Moves a snapshot to another state.
pub fn set_state(snap: &mut ProgressSnapshot, state: TaskState)
    ensures
        final(snap)@ == with_state(old(snap)@, state),
{
    snap.state = state;
}

/// A task starts running, with nothing downloaded, without an error, and under the name that
/// it was given, if any.
pub proof fn tasks_start_from_nothing(snap: ProgressSnapshot, filename: Option<Seq<char>>)
    requires
        snap@ == first_snapshot(filename),
    ensures
        snap.state is Running,
        snap.downloaded == 0,
        snap.total == 0,
        snap.speed == 0,
        snap.segments@.len() == 0,
        snap.error is None,
        !snap.merging,
        snap.filename is Some <==> filename is Some,
        filename is Some ==> snap.filename->0@ == filename->0,
{
}

/// A new state is the only change.
pub proof fn only_the_state_changes(s: SnapshotView, state: TaskState)
    ensures
        with_state(s, state).state == state,
        with_state(s, state).downloaded == s.downloaded,
        with_state(s, state).total == s.total,
        with_state(s, state).speed == s.speed,
        with_state(s, state).segments == s.segments,
        with_state(s, state).error == s.error,
        with_state(s, state).filename == s.filename,
        with_state(s, state).merging == s.merging,
{
}

/// A snapshot is seen field by field.
pub proof fn snapshots_show_every_field(s: ProgressSnapshot)
    ensures
        s@.state == s.state,
        s@.downloaded == s.downloaded,
        s@.total == s.total,
        s@.speed == s.speed,
        s@.segments == s.segments@,
        s@.merging == s.merging,
        s@.error is Some <==> s.error is Some,
        s.error is Some ==> s@.error->0 == s.error->0@,
        s@.filename is Some <==> s.filename is Some,
        s.filename is Some ==> s@.filename->0 == s.filename->0@,
{
}

} // verus!
