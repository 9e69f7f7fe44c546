//! The task manager: the queue, the slots for running tasks, what is asked of tasks, and
//! recovery after a restart. The manager decides; storing, sending and submitting is done
//! for it.
use crate::control_file::path_for;
use crate::engine::{ControlMsg, ProgressSnapshot, SnapshotView};
use crate::error::{ErrorView, SparklingError};
use crate::http_engine::run::{part_path_for, sanitize_filename, sanitized};
use crate::paths::{is_joined, join};
use crate::store::{RecordView, TaskRecord};
use crate::task::{
    is_task_id, meta_view, new_task_id, params_clone, params_view, TaskId, TaskKind, TaskSpec,
    TaskSpecView, TaskState, VideoMeta, VideoParams,
};
use crate::text::{opt_clone, opt_view, str_eq, strings_view};
use vstd::prelude::*;

verus! {

// ---------------------------------------------------------------------------
// Data
// ---------------------------------------------------------------------------
/// The settings of the manager.
#[derive(Debug)]
pub struct ManagerConfig {
    /// The largest number of tasks that run at a time.
    pub max_concurrent: usize,
    pub auto_resume_on_start: bool,
    /// Rate limit of all tasks together in bytes per second.
    pub global_speed_limit: Option<u64>,
    pub default_segments: u32,
    pub video_max_height: Option<u32>,
    pub video_audio_only: bool,
    pub video_sub_langs: String,
    pub video_auto_subs: bool,
    pub cookie_file: Option<String>,
}

pub struct ConfigView {
    pub max_concurrent: usize,
    pub auto_resume_on_start: bool,
    pub global_speed_limit: Option<u64>,
    pub default_segments: u32,
    pub video_max_height: Option<u32>,
    pub video_audio_only: bool,
    pub video_sub_langs: Seq<char>,
    pub video_auto_subs: bool,
    pub cookie_file: Option<Seq<char>>,
}

impl View for ManagerConfig {
    type V = ConfigView;

    open spec fn view(&self) -> ConfigView {
        ConfigView {
            max_concurrent: self.max_concurrent,
            auto_resume_on_start: self.auto_resume_on_start,
            global_speed_limit: self.global_speed_limit,
            default_segments: self.default_segments,
            video_max_height: self.video_max_height,
            video_audio_only: self.video_audio_only,
            video_sub_langs: self.video_sub_langs@,
            video_auto_subs: self.video_auto_subs,
            cookie_file: opt_view(self.cookie_file),
        }
    }
}

impl Default for ManagerConfig {
    fn default() -> (r: Self)
        ensures
            r@ == (ConfigView {
                max_concurrent: 3,
                auto_resume_on_start: true,
                global_speed_limit: None,
                default_segments: 8,
                video_max_height: None,
                video_audio_only: false,
                video_sub_langs: "zh-Hans,en"@,
                video_auto_subs: false,
                cookie_file: None,
            }),
    {
        ManagerConfig {
            max_concurrent: 3,
            auto_resume_on_start: true,
            global_speed_limit: None,
            default_segments: 8,
            video_max_height: None,
            video_audio_only: false,
            video_sub_langs: "zh-Hans,en".to_owned(),
            video_auto_subs: false,
            cookie_file: None,
        }
    }
}

impl Clone for ManagerConfig {
    fn clone(&self) -> (r: Self)
        ensures
            r@ == self@,
    {
        ManagerConfig {
            max_concurrent: self.max_concurrent,
            auto_resume_on_start: self.auto_resume_on_start,
            global_speed_limit: self.global_speed_limit,
            default_segments: self.default_segments,
            video_max_height: self.video_max_height,
            video_audio_only: self.video_audio_only,
            video_sub_langs: self.video_sub_langs.clone(),
            video_auto_subs: self.video_auto_subs,
            cookie_file: opt_clone(&self.cookie_file),
        }
    }
}

/// What the user interface is told.
#[derive(Debug)]
pub enum TaskEvent {
    State { id: TaskId, state: TaskState, error: Option<String> },
    Progress { id: TaskId, downloaded: u64, total: u64, speed: u64, merging: bool },
}

pub enum EventView {
    State { id: Seq<char>, state: TaskState, error: Option<Seq<char>> },
    Progress { id: Seq<char>, downloaded: u64, total: u64, speed: u64, merging: bool },
}

impl View for TaskEvent {
    type V = EventView;

    open spec fn view(&self) -> EventView {
        match *self {
            TaskEvent::State { id, state, error } => EventView::State {
                id: id@,
                state,
                error: opt_view(error),
            },
            TaskEvent::Progress { id, downloaded, total, speed, merging } => EventView::Progress {
                id: id@,
                downloaded,
                total,
                speed,
                merging,
            },
        }
    }
}

/// What a new task is made of, besides its URL.
#[derive(Debug)]
pub struct AddTaskOptions {
    pub save_dir: String,
    pub filename: Option<String>,
    pub segments: Option<u32>,
    pub max_speed: Option<u64>,
    pub kind: TaskKind,
    pub video: Option<VideoParams>,
    pub video_meta: Option<VideoMeta>,
}

// ---------------------------------------------------------------------------
// New tasks
// ---------------------------------------------------------------------------
/// The number of segments of a task: as asked for or as set by default, from 1 to 64. A
/// video has one.
pub open spec fn segment_count(kind: TaskKind, asked: Option<u32>, default: u32) -> int {
    let n = match asked {
        Some(n) => n,
        None => default,
    };
    if kind is Video || n < 1 {
        1
    } else if n > 64 {
        64
    } else {
        n as int
    }
}

/// A task has at least one segment and at most 64.
pub proof fn segment_count_is_bounded(kind: TaskKind, asked: Option<u32>, default: u32)
    ensures
        1 <= segment_count(kind, asked, default) <= 64,
        kind is Http && asked is Some && 1 <= asked->0 <= 64 ==> segment_count(
            kind,
            asked,
            default,
        ) == asked->0,
{
}

/// The name that a task starts with. The title of a video comes from afar, so it is made
/// safe at once.
pub open spec fn starting_name(kind: TaskKind, filename: Option<Seq<char>>) -> Option<Seq<char>> {
    match filename {
        Some(f) => Some(
            if kind is Video {
                sanitized(f)
            } else {
                f
            },
        ),
        None => None,
    }
}

/// The record of a new task.
pub open spec fn new_record(
    id: Seq<char>,
    url: Seq<char>,
    opts: AddTaskOptions,
    default_segments: u32,
    created_at: i64,
) -> RecordView {
    RecordView {
        id,
        url,
        state: TaskState::Queued,
        save_dir: opts.save_dir@,
        filename: starting_name(opts.kind, opt_view(opts.filename)),
        segments: segment_count(opts.kind, opts.segments, default_segments) as u32,
        max_speed: opts.max_speed,
        total_size: None,
        downloaded: 0,
        error: None,
        created_at,
        kind: opts.kind,
        video: params_view(opts.video),
        video_meta: meta_view(opts.video_meta),
        collection: None,
    }
}

/// The record of a new task with the given identifier.
pub fn make_record(
    id: TaskId,
    url: String,
    opts: AddTaskOptions,
    default_segments: u32,
    created_at: i64,
) -> (r: TaskRecord)
    ensures
        r@ == new_record(id@, url@, opts, default_segments, created_at),
{
    let asked: u32 = match opts.segments {
        Some(n) => n,
        None => default_segments,
    };
    let segments: u32 = if opts.kind == TaskKind::Video || asked < 1 {
        1
    } else if asked > 64 {
        64
    } else {
        asked
    };
    let filename: Option<String> = match opts.filename {
        Some(f) => {
            if opts.kind == TaskKind::Video {
                Some(sanitize_filename(f.as_str()))
            } else {
                Some(f)
            }
        },
        None => None,
    };
    TaskRecord {
        id,
        url,
        state: TaskState::Queued,
        save_dir: opts.save_dir,
        filename,
        segments,
        max_speed: opts.max_speed,
        total_size: None,
        downloaded: 0,
        error: None,
        created_at,
        kind: opts.kind,
        video: opts.video,
        video_meta: opts.video_meta,
        collection: None,
    }
}

// ---------------------------------------------------------------------------
// The manager
// ---------------------------------------------------------------------------
/// The state of the manager.
#[derive(Debug)]
pub struct TaskManager {
    config: ManagerConfig,
    /// Tasks that wait for a slot, first come first.
    queue: Vec<TaskId>,
    /// Tasks that an engine has in hand.
    handles: Vec<TaskId>,
    /// Slots in use: tasks that are being submitted or run, not those that are paused.
    active: usize,
    shutting_down: bool,
}

pub struct ManagerView {
    pub config: ConfigView,
    pub queue: Seq<Seq<char>>,
    pub handles: Set<Seq<char>>,
    pub active: int,
    pub shutting_down: bool,
}

impl View for TaskManager {
    type V = ManagerView;

    closed spec fn view(&self) -> ManagerView {
        ManagerView {
            config: self.config@,
            queue: strings_view(self.queue@),
            handles: strings_view(self.handles@).to_set(),
            active: self.active as int,
            shutting_down: self.shutting_down,
        }
    }
}

/// A queue without one of its tasks.
pub open spec fn without(queue: Seq<Seq<char>>, id: Seq<char>) -> Seq<Seq<char>>
    decreases queue.len(),
{
    if queue.len() == 0 {
        queue
    } else if queue.last() == id {
        without(queue.drop_last(), id)
    } else {
        without(queue.drop_last(), id).push(queue.last())
    }
}

/// No task waits twice.
pub open spec fn no_repeats(queue: Seq<Seq<char>>) -> bool {
    forall|i: int, j: int|
        0 <= i < queue.len() && 0 <= j < queue.len() && i != j ==> queue[i] != queue[j]
}

fn position(v: &Vec<TaskId>, id: &str) -> (r: Option<usize>)
    ensures
        match r {
            Some(i) => i < v@.len() && v@[i as int]@ == id@,
            None => forall|i: int| 0 <= i < v@.len() ==> (#[trigger] v@[i])@ != id@,
        },
        r is Some <==> strings_view(v@).contains(id@),
{
    let mut i: usize = 0;
    while i < v.len()
        invariant
            i <= v@.len(),
            forall|k: int| 0 <= k < i ==> (#[trigger] v@[k])@ != id@,
        decreases v@.len() - i,
    {
        if str_eq(v[i].as_str(), id) {
            proof {
                assert(strings_view(v@)[i as int] == id@);
            }
            return Some(i);
        }
        i = i + 1;
    }
    proof {
        assert forall|k: int| 0 <= k < v@.len() implies strings_view(v@)[k] != id@ by {
            assert(v@[k]@ != id@);
        }
    }
    None
}

fn retain_others(v: &Vec<TaskId>, id: &str) -> (r: Vec<TaskId>)
    ensures
        strings_view(r@) == without(strings_view(v@), id@),
{
    let mut out: Vec<TaskId> = Vec::new();
    let ghost all = strings_view(v@);
    let mut i: usize = 0;
    proof {
        assert(strings_view(out@) =~= without(all.take(0), id@));
    }
    while i < v.len()
        invariant
            i <= v@.len(),
            all == strings_view(v@),
            strings_view(out@) == without(all.take(i as int), id@),
        decreases v@.len() - i,
    {
        let ghost before = out@;
        proof {
            assert(all.take(i + 1).drop_last() =~= all.take(i as int));
            assert(all.take(i + 1).last() == v@[i as int]@);
        }
        if !str_eq(v[i].as_str(), id) {
            out.push(v[i].clone());
            proof {
                assert(strings_view(out@) =~= strings_view(before).push(v@[i as int]@));
            }
        }
        i = i + 1;
    }
    proof {
        assert(all.take(i as int) =~= all);
    }
    out
}

/// Removing a task leaves the others, in their order, and it is gone.
pub proof fn without_removes(queue: Seq<Seq<char>>, id: Seq<char>)
    ensures
        !without(queue, id).contains(id),
        forall|x: Seq<char>|
            x != id ==> (#[trigger] without(queue, id).contains(x) <==> queue.contains(x)),
        !queue.contains(id) ==> without(queue, id) == queue,
        no_repeats(queue) ==> no_repeats(without(queue, id)),
        without(queue, id).to_set() == queue.to_set().remove(id),
    decreases queue.len(),
{
    if queue.len() > 0 {
        let front = queue.drop_last();
        let last = queue.last();
        without_removes(front, id);
        let w = without(front, id);
        let out = without(queue, id);
        assert forall|x: Seq<char>| queue.contains(x) <==> (front.contains(x) || x == last) by {
            if queue.contains(x) {
                let i = choose|i: int| 0 <= i < queue.len() && queue[i] == x;
                if i < front.len() {
                    assert(front[i] == x);
                }
            }
            if front.contains(x) {
                let i = choose|i: int| 0 <= i < front.len() && front[i] == x;
                assert(queue[i] == x);
            }
            assert(queue[queue.len() - 1] == last);
        }
        assert forall|x: Seq<char>| out.contains(x) <==> (w.contains(x) || (x == last && last
            != id)) by {
            if last != id {
                if out.contains(x) {
                    let i = choose|i: int| 0 <= i < out.len() && out[i] == x;
                    if i < w.len() {
                        assert(w[i] == x);
                    }
                }
                if w.contains(x) {
                    let i = choose|i: int| 0 <= i < w.len() && w[i] == x;
                    assert(out[i] == x);
                }
                assert(out[out.len() - 1] == last);
            }
        }
        if !queue.contains(id) {
            assert(!front.contains(id));
            assert(out =~= queue);
        }
        if no_repeats(queue) {
            assert(no_repeats(front)) by {
                assert forall|i: int, j: int|
                    0 <= i < front.len() && 0 <= j < front.len() && i != j implies front[i]
                    != front[j] by {
                    assert(queue[i] != queue[j]);
                }
            }
            if last != id {
                assert(!front.contains(last)) by {
                    if front.contains(last) {
                        let i = choose|i: int| 0 <= i < front.len() && front[i] == last;
                        assert(queue[i] != queue[queue.len() - 1]);
                    }
                }
                assert(!w.contains(last));
                assert forall|i: int, j: int|
                    0 <= i < out.len() && 0 <= j < out.len() && i != j implies out[i]
                    != out[j] by {
                    if i < w.len() && j < w.len() {
                        assert(w[i] != w[j]);
                    } else if i < w.len() {
                        assert(w.contains(w[i]));
                    } else {
                        assert(w.contains(w[j]));
                    }
                }
            }
        }
    }
    assert(without(queue, id).to_set() =~= queue.to_set().remove(id));
}

/// The notice that a task has changed its state.
pub open spec fn state_event(id: Seq<char>, state: TaskState, error: Option<Seq<char>>) -> EventView {
    EventView::State { id, state, error }
}

/// Whether an engine has the task, or it waits.
pub open spec fn is_known(m: ManagerView, id: Seq<char>) -> bool {
    m.handles.contains(id) || m.queue.contains(id)
}

/// Whether a task, in the given stored state if it is stored, can be queued again.
pub open spec fn may_retry(m: ManagerView, id: Seq<char>, stored: Option<TaskState>) -> bool {
    !is_known(m, id) && !(stored is Some && is_over(stored->0))
}

/// The manager after a request to retry a task.
pub open spec fn after_retry(m: ManagerView, id: Seq<char>, stored: Option<TaskState>) -> ManagerView {
    if may_retry(m, id, stored) {
        ManagerView { queue: m.queue.push(id), ..m }
    } else {
        m
    }
}

/// What is done on a cancel request.
#[derive(Debug)]
pub enum CancelStep {
    /// The task's engine is told to cancel.
    Send(ControlMsg),
    /// The task was waiting and has been taken out of the queue: its new state is stored
    /// and announced.
    Dequeued(TaskEvent),
    /// There is nothing to cancel.
    Nothing,
}

/// What is done on a resume request.
#[derive(Debug, Clone, Copy, PartialEq, Eq, Structural)]
pub enum ResumeStep {
    /// The task's engine is told to resume.
    Send(ControlMsg),
    /// No engine has the task: it is put in the queue as for a retry.
    Retry,
}

/// What a removed task leaves on the disk.
#[derive(Debug)]
pub enum Leftovers {
    /// The leftovers of yt-dlp under this name in this directory.
    Video { save_dir: String, filename: String },
    /// A control file and a part file.
    Http { control_file: String, part_file: String },
}

/// What is done to remove a task, besides deleting its record.
#[derive(Debug)]
pub struct Removal {
    /// Whether the task's engine is told to cancel (and to clean up).
    pub cancel: bool,
    /// What is to be deleted, where no engine has the task.
    pub leftovers: Option<Leftovers>,
}

/// A task that is to be submitted to the engine of its kind.
#[derive(Debug)]
pub struct Launch {
    pub id: TaskId,
    pub spec: TaskSpec,
}

pub struct LaunchView {
    pub id: Seq<char>,
    pub spec: TaskSpecView,
}

impl View for Launch {
    type V = LaunchView;

    open spec fn view(&self) -> LaunchView {
        LaunchView { id: self.id@, spec: self.spec@ }
    }
}

/// What a stored task is submitted as.
pub open spec fn spec_of(rec: RecordView) -> TaskSpecView {
    TaskSpecView {
        url: rec.url,
        save_dir: rec.save_dir,
        filename: rec.filename,
        segments: rec.segments,
        max_speed: rec.max_speed,
        kind: rec.kind,
        video: rec.video,
    }
}

/// The first record with the given identifier.
pub open spec fn record_of(records: Seq<TaskRecord>, id: Seq<char>) -> Option<RecordView>
    decreases records.len(),
{
    if records.len() == 0 {
        None
    } else if records[0].id@ == id {
        Some(records[0]@)
    } else {
        record_of(records.drop_first(), id)
    }
}

/// Whether a stored task is never to run again by itself.
pub open spec fn is_over(state: TaskState) -> bool {
    state is Completed || state is Cancelled
}

/// The manager and the tasks to submit after scheduling: from the head of the queue on,
/// tasks get slots while there are any. Tasks that are gone from the store or over are
/// dropped. Nothing is started while shutting down.
pub open spec fn scheduled(m: ManagerView, records: Seq<TaskRecord>) -> (ManagerView, Seq<LaunchView>)
    decreases m.queue.len(),
{
    if m.shutting_down || m.active >= m.config.max_concurrent || m.queue.len() == 0 {
        (m, Seq::empty())
    } else {
        let id = m.queue[0];
        let rest = ManagerView { queue: m.queue.drop_first(), ..m };
        match record_of(records, id) {
            Some(rec) => if is_over(rec.state) {
                scheduled(rest, records)
            } else {
                let (end, more) = scheduled(
                    ManagerView { active: m.active + 1, ..rest },
                    records,
                );
                (end, seq![LaunchView { id, spec: spec_of(rec) }] + more)
            },
            None => scheduled(rest, records),
        }
    }
}

/// A list of launches seen through its views.
pub open spec fn launches_view(v: Seq<Launch>) -> Seq<LaunchView> {
    v.map_values(|l: Launch| l@)
}

fn find_record<'a>(records: &'a Vec<TaskRecord>, id: &str) -> (r: Option<&'a TaskRecord>)
    ensures
        match r {
            Some(rec) => record_of(records@, id@) == Some(rec@),
            None => record_of(records@, id@) is None,
        },
{
    let mut i: usize = 0;
    proof {
        assert(records@.skip(0) =~= records@);
    }
    while i < records.len()
        invariant
            i <= records@.len(),
            record_of(records@, id@) == record_of(records@.skip(i as int), id@),
        decreases records@.len() - i,
    {
        proof {
            assert(records@.skip(i as int)[0] == records@[i as int]);
            assert(records@.skip(i as int).drop_first() =~= records@.skip(i + 1));
        }
        if str_eq(records[i].id.as_str(), id) {
            return Some(&records[i]);
        }
        i = i + 1;
    }
    None
}

impl TaskManager {
    /// A manager with an empty queue.
    pub fn new(config: ManagerConfig) -> (r: Self)
        ensures
            r@ == (ManagerView {
                config: config@,
                queue: Seq::empty(),
                handles: Set::empty(),
                active: 0,
                shutting_down: false,
            }),
    {
        let m: TaskManager = TaskManager {
            config,
            queue: Vec::new(),
            handles: Vec::new(),
            active: 0,
            shutting_down: false,
        };
        proof {
            assert(m@.queue =~= Seq::<Seq<char>>::empty());
            assert(m@.handles =~= Set::<Seq<char>>::empty());
        }
        m
    }

    /// The settings.
    pub fn config(&self) -> (r: ManagerConfig)
        ensures
            r@ == self@.config,
    {
        self.config.clone()
    }

    /// The tasks that wait, first to run first.
    pub fn queued(&self) -> (r: Vec<TaskId>)
        ensures
            strings_view(r@) == self@.queue,
    {
        crate::text::strings_clone(&self.queue)
    }

    /// The number of slots in use.
    pub fn active(&self) -> (r: usize)
        ensures
            r == self@.active,
    {
        self.active
    }

    /// Whether an engine has the task in hand.
    pub fn has_handle(&self, id: &str) -> (r: bool)
        ensures
            r == self@.handles.contains(id@),
    {
        position(&self.handles, id).is_some()
    }

    /// Sets new settings. The rate limit is to be handed to both engines, and tasks are
    /// to be scheduled, as there may be more slots now.
    pub fn set_config(&mut self, config: ManagerConfig) -> (r: Option<u64>)
        ensures
            final(self)@ == (ManagerView { config: config@, ..old(self)@ }),
            r == config.global_speed_limit,
    {
        let limit: Option<u64> = config.global_speed_limit;
        self.config = config;
        limit
    }

    /// The record of a new task, under a new identifier. It is to be stored, and then put
    /// in the queue.
    pub fn add_task(&self, url: String, opts: AddTaskOptions, created_at: i64) -> (r: TaskRecord)
        ensures
            is_task_id(r.id@),
            r@ == new_record(r.id@, url@, opts, self@.config.default_segments, created_at),
    {
        make_record(new_task_id(), url, opts, self.config.default_segments, created_at)
    }

    /// Puts a stored task at the end of the queue; the notice of it is to be sent.
    pub fn enqueue(&mut self, id: &TaskId) -> (r: TaskEvent)
        ensures
            final(self)@ == (ManagerView { queue: old(self)@.queue.push(id@), ..old(self)@ }),
            r@ == state_event(id@, TaskState::Queued, None),
    {
        let ghost before = self.queue@;
        self.queue.push(id.clone());
        proof {
            assert(strings_view(self.queue@) =~= strings_view(before).push(id@));
        }
        TaskEvent::State { id: id.clone(), state: TaskState::Queued, error: None }
    }

    /// What is sent to a task's engine to pause it; an error where no engine has it.
    pub fn pause_task(&self, id: &str) -> (r: Result<ControlMsg, SparklingError>)
        ensures
            match r {
                Ok(msg) => self@.handles.contains(id@) && msg is Pause,
                Err(e) => !self@.handles.contains(id@) && e@ == ErrorView::TaskNotFound(id@),
            },
    {
        if self.has_handle(id) {
            Ok(ControlMsg::Pause)
        } else {
            Err(SparklingError::TaskNotFound(id.to_owned()))
        }
    }

    /// How a task is resumed: by its engine, or by queueing it again where no engine has it.
    pub fn resume_task(&self, id: &str) -> (r: ResumeStep)
        ensures
            r == if self@.handles.contains(id@) {
                ResumeStep::Send(ControlMsg::Resume)
            } else {
                ResumeStep::Retry
            },
    {
        if self.has_handle(id) {
            ResumeStep::Send(ControlMsg::Resume)
        } else {
            ResumeStep::Retry
        }
    }

    /// Cancels a task: by its engine, or by taking it out of the queue.
    pub fn cancel_task(&mut self, id: &str) -> (r: CancelStep)
        ensures
            match r {
                CancelStep::Send(msg) => {
                    &&& old(self)@.handles.contains(id@)
                    &&& msg is Cancel
                    &&& final(self)@ == old(self)@
                },
                CancelStep::Dequeued(ev) => {
                    &&& !old(self)@.handles.contains(id@)
                    &&& old(self)@.queue.contains(id@)
                    &&& ev@ == state_event(id@, TaskState::Cancelled, None)
                    &&& final(self)@ == (ManagerView {
                        queue: without(old(self)@.queue, id@),
                        ..old(self)@
                    })
                },
                CancelStep::Nothing => {
                    &&& !old(self)@.handles.contains(id@)
                    &&& !old(self)@.queue.contains(id@)
                    &&& final(self)@ == old(self)@
                },
            },
    {
        if self.has_handle(id) {
            return CancelStep::Send(ControlMsg::Cancel);
        }
        if position(&self.queue, id).is_none() {
            return CancelStep::Nothing;
        }
        self.queue = retain_others(&self.queue, id);
        CancelStep::Dequeued(
            TaskEvent::State { id: id.to_owned(), state: TaskState::Cancelled, error: None },
        )
    }

    /// Queues a failed or paused task again; `stored` is its stored state, if it is stored,
    /// or why that could not be found out. A task that an engine has, that waits already or
    /// that is over is left alone. The new state is to be stored and announced.
    pub fn retry_task(
        &mut self,
        id: &str,
        stored: Result<Option<TaskState>, SparklingError>,
    ) -> (r: Result<Option<TaskEvent>, SparklingError>)
        ensures
            match stored {
                Ok(state) => {
                    &&& r is Ok
                    &&& r->Ok_0 is Some <==> may_retry(old(self)@, id@, state)
                    &&& r->Ok_0 is Some ==> r->Ok_0->0@ == state_event(
                        id@,
                        TaskState::Queued,
                        None,
                    )
                    &&& final(self)@ == after_retry(old(self)@, id@, state)
                },
                Err(e) => {
                    &&& final(self)@ == old(self)@
                    &&& if is_known(old(self)@, id@) {
                        r is Ok && r->Ok_0 is None
                    } else {
                        r is Err && r->Err_0 == e
                    }
                },
            },
    {
        if self.has_handle(id) {
            return Ok(None);
        }
        if position(&self.queue, id).is_some() {
            return Ok(None);
        }
        match stored {
            Err(e) => {
                return Err(e);
            },
            Ok(Some(state)) => {
                if state == TaskState::Completed || state == TaskState::Cancelled {
                    return Ok(None);
                }
            },
            Ok(None) => {},
        }
        let ev: TaskEvent = self.enqueue(&id.to_owned());
        Ok(Some(ev))
    }

    /// Takes a task out of the queue to remove it, and says what else is to be done; `rec`
    /// is its record, if it is stored.
    pub fn remove_task(&mut self, id: &str, rec: Option<TaskRecord>) -> (r: Removal)
        ensures
            final(self)@ == (ManagerView {
                queue: without(old(self)@.queue, id@),
                ..old(self)@
            }),
            r.cancel == old(self)@.handles.contains(id@),
            is_leftovers(r.leftovers, !old(self)@.handles.contains(id@), rec),
    {
        let cancel: bool = self.has_handle(id);
        self.queue = retain_others(&self.queue, id);
        if cancel {
            return Removal { cancel, leftovers: None };
        }
        let leftovers: Option<Leftovers> = match rec {
            None => None,
            Some(rec) => match rec.filename {
                None => None,
                Some(name) => match rec.kind {
                    TaskKind::Video => Some(
                        Leftovers::Video { save_dir: rec.save_dir, filename: name },
                    ),
                    TaskKind::Http => {
                        let path: String = join(rec.save_dir.as_str(), name.as_str());
                        proof {
                            assert(is_joined(rec.save_dir@, name@, path@));
                        }
                        Some(
                            Leftovers::Http {
                                control_file: path_for(path.as_str()),
                                part_file: part_path_for(path.as_str()),
                            },
                        )
                    },
                },
            },
        };
        Removal { cancel, leftovers }
    }

    /// Puts a task at the head of the queue.
    pub fn move_to_top(&mut self, id: &str)
        ensures
            final(self)@ == (ManagerView {
                queue: seq![id@] + without(old(self)@.queue, id@),
                ..old(self)@
            }),
    {
        let mut q: Vec<TaskId> = retain_others(&self.queue, id);
        let ghost before = q@;
        q.insert(0, id.to_owned());
        proof {
            assert(strings_view(q@) =~= seq![id@] + strings_view(before));
        }
        self.queue = q;
    }

    /// Gives slots to the tasks at the head of the queue. `records` is what the store holds
    /// of the waiting tasks.
    pub fn try_schedule(&mut self, records: &Vec<TaskRecord>) -> (r: Vec<Launch>)
        ensures
            (final(self)@, launches_view(r@)) == scheduled(old(self)@, records@),
    {
        let mut out: Vec<Launch> = Vec::new();
        let ghost goal = scheduled(self@, records@);
        proof {
            assert(launches_view(out@) =~= Seq::<LaunchView>::empty());
            assert(Seq::<LaunchView>::empty() + goal.1 =~= goal.1);
        }
        while !self.shutting_down && self.active < self.config.max_concurrent && self.queue.len()
            > 0
            invariant
                goal.0 == scheduled(self@, records@).0,
                goal.1 == launches_view(out@) + scheduled(self@, records@).1,
            decreases self.queue@.len(),
        {
            let ghost m = self@;
            let ghost queue = self.queue@;
            let id: TaskId = self.queue.remove(0);
            proof {
                assert(strings_view(self.queue@) =~= strings_view(queue).drop_first());
                assert(m.queue[0] == id@);
            }
            if let Some(rec) = find_record(records, id.as_str()) {
                if !(rec.state == TaskState::Completed || rec.state == TaskState::Cancelled) {
                    let spec: TaskSpec = TaskSpec {
                        url: rec.url.clone(),
                        save_dir: rec.save_dir.clone(),
                        filename: opt_clone(&rec.filename),
                        segments: rec.segments,
                        max_speed: rec.max_speed,
                        kind: rec.kind,
                        video: params_clone(&rec.video),
                    };
                    self.active = self.active + 1;
                    let ghost before = out@;
                    let launch: Launch = Launch { id, spec };
                    out.push(launch);
                    proof {
                        assert(launches_view(out@) =~= launches_view(before).push(launch@));
                        let more = scheduled(self@, records@).1;
                        assert(launches_view(before) + (seq![launch@] + more) =~= launches_view(
                            out@,
                        ) + more);
                    }
                }
            }
        }
        proof {
            assert(launches_view(out@) + Seq::<LaunchView>::empty() =~= launches_view(out@));
        }
        out
    }

    /// Takes note that an engine has taken a task, or refused it. A task that is taken now
    /// runs; the slot of one that is refused is free again, and tasks are to be scheduled.
    /// The notice is to be stored and sent.
    pub fn on_submitted(&mut self, id: &TaskId, outcome: Result<(), SparklingError>) -> (r:
        TaskEvent)
        requires
            outcome is Err ==> old(self)@.active > 0,
        ensures
            match outcome {
                Ok(_) => {
                    &&& final(self)@ == (ManagerView {
                        handles: old(self)@.handles.insert(id@),
                        ..old(self)@
                    })
                    &&& r@ == state_event(id@, TaskState::Running, None)
                },
                Err(e) => {
                    &&& final(self)@ == (ManagerView {
                        active: old(self)@.active - 1,
                        ..old(self)@
                    })
                    &&& r@ == state_event(id@, TaskState::Failed, Some(e@.message()))
                },
            },
    {
        match outcome {
            Ok(_) => {
                if position(&self.handles, id.as_str()).is_none() {
                    let ghost before = self.handles@;
                    self.handles.push(id.clone());
                    proof {
                        assert(strings_view(self.handles@) =~= strings_view(before).push(id@));
                        push_is_insert(strings_view(before), id@);
                    }
                } else {
                    proof {
                        assert(self@.handles.insert(id@) =~= self@.handles);
                    }
                }
                TaskEvent::State { id: id.clone(), state: TaskState::Running, error: None }
            },
            Err(e) => {
                self.active = self.active - 1;
                TaskEvent::State {
                    id: id.clone(),
                    state: TaskState::Failed,
                    error: Some(e.user_message()),
                }
            },
        }
    }

    /// Stops everything: no task is started any more, none waits, none is in hand.
    pub fn shutdown(&mut self)
        ensures
            final(self)@ == (ManagerView {
                shutting_down: true,
                queue: Seq::empty(),
                handles: Set::empty(),
                ..old(self)@
            }),
    {
        self.shutting_down = true;
        self.handles = Vec::new();
        self.queue = Vec::new();
        proof {
            assert(self@.queue =~= Seq::<Seq<char>>::empty());
            assert(self@.handles =~= Set::<Seq<char>>::empty());
        }
    }
}

proof fn push_is_insert(s: Seq<Seq<char>>, x: Seq<char>)
    ensures
        s.push(x).to_set() == s.to_set().insert(x),
{
    let t = s.push(x);
    assert forall|y: Seq<char>| t.to_set().contains(y) <==> s.to_set().insert(x).contains(y) by {
        if t.contains(y) {
            let i = choose|i: int| 0 <= i < t.len() && t[i] == y;
            if i < s.len() {
                assert(s[i] == y);
            }
        }
        if s.contains(y) {
            let i = choose|i: int| 0 <= i < s.len() && s[i] == y;
            assert(t[i] == y);
        }
        assert(t[s.len() as int] == x);
    }
    assert(t.to_set() =~= s.to_set().insert(x));
}

/// What a removed task leaves on the disk: nothing to delete where an engine still has it,
/// where it is not stored, or where its name is not known.
pub open spec fn is_leftovers(
    l: Option<Leftovers>,
    no_handle: bool,
    rec: Option<TaskRecord>,
) -> bool {
    if no_handle && rec is Some && rec->0.filename is Some {
        let name = rec->0.filename->0@;
        let dir = rec->0.save_dir@;
        match l {
            None => false,
            Some(Leftovers::Video { save_dir, filename }) => rec->0.kind is Video && save_dir@
                == dir && filename@ == name,
            Some(Leftovers::Http { control_file, part_file }) => rec->0.kind is Http && exists|
                path: Seq<char>,
            |
                #[trigger] is_joined(dir, name, path) && control_file@ == path + ".sparkling"@
                    && part_file@ == path + ".sparkling.part"@,
        }
    } else {
        l is None
    }
}

// ---------------------------------------------------------------------------
// Watching a task
// ---------------------------------------------------------------------------
/// What is remembered of a task while its engine reports on it.
#[derive(Debug, Clone, Copy, PartialEq, Eq, Structural)]
pub struct Monitor {
    /// The state that was reported last.
    pub prev: TaskState,
    /// Whether the file name has been stored.
    pub filename_saved: bool,
}

/// What is done on a report, in this order: the file name is stored, the progress is
/// stored and announced, the new state is stored and announced, tasks are scheduled, and
/// the watch ends.
#[derive(Debug)]
pub struct MonitorStep {
    pub filename: Option<String>,
    pub progress: TaskEvent,
    pub change: Option<TaskEvent>,
    pub schedule: bool,
    pub stop: bool,
}

pub struct MonitorStepView {
    pub filename: Option<Seq<char>>,
    pub progress: EventView,
    pub change: Option<EventView>,
    pub schedule: bool,
    pub stop: bool,
}

impl View for MonitorStep {
    type V = MonitorStepView;

    open spec fn view(&self) -> MonitorStepView {
        MonitorStepView {
            filename: opt_view(self.filename),
            progress: self.progress@,
            change: match self.change {
                Some(ev) => Some(ev@),
                None => None,
            },
            schedule: self.schedule,
            stop: self.stop,
        }
    }
}

/// The manager after a task has gone from state `prev` to state `next`: a task that stops
/// running frees its slot, one that runs again takes one, and one that has ended is not in
/// hand any more.
pub open spec fn after_change(
    m: ManagerView,
    id: Seq<char>,
    prev: TaskState,
    next: TaskState,
) -> ManagerView {
    let freed: int = if prev is Running {
        1
    } else {
        0
    };
    if prev == next || next is Queued {
        m
    } else if next is Paused {
        ManagerView { active: m.active - freed, ..m }
    } else if next is Running {
        ManagerView { active: m.active + 1, ..m }
    } else {
        ManagerView { active: m.active - freed, handles: m.handles.remove(id), ..m }
    }
}

/// What is done on a report.
pub open spec fn observed(mon: Monitor, id: Seq<char>, snap: SnapshotView) -> MonitorStepView {
    let changed = snap.state != mon.prev;
    MonitorStepView {
        filename: if mon.filename_saved {
            None
        } else {
            snap.filename
        },
        progress: EventView::Progress {
            id,
            downloaded: snap.downloaded,
            total: snap.total,
            speed: snap.speed,
            merging: snap.merging,
        },
        change: if changed {
            Some(state_event(id, snap.state, snap.error))
        } else {
            None
        },
        schedule: changed && (snap.state.ended() || (snap.state is Paused && mon.prev is Running)),
        stop: changed && snap.state.ended(),
    }
}

impl Monitor {
    /// The watch on a task that has just begun to run.
    pub fn new() -> (r: Self)
        ensures
            r == (Monitor { prev: TaskState::Running, filename_saved: false }),
    {
        Monitor { prev: TaskState::Running, filename_saved: false }
    }

    /// Takes a report of the task's engine.
    pub fn on_snapshot(&mut self, m: &mut TaskManager, id: &TaskId, snap: &ProgressSnapshot) -> (r:
        MonitorStep)
        requires
            old(self).prev is Running ==> old(m)@.active > 0,
            !(old(self).prev is Running) ==> old(m)@.active < usize::MAX,
        ensures
            r@ == observed(*old(self), id@, snap@),
            *final(self) == (Monitor {
                prev: snap.state,
                filename_saved: old(self).filename_saved || snap.filename is Some,
            }),
            final(m)@ == after_change(old(m)@, id@, old(self).prev, snap.state),
    {
        let filename: Option<String> = if self.filename_saved {
            None
        } else {
            opt_clone(&snap.filename)
        };
        if snap.filename.is_some() {
            self.filename_saved = true;
        }
        let progress: TaskEvent = TaskEvent::Progress {
            id: id.clone(),
            downloaded: snap.downloaded,
            total: snap.total,
            speed: snap.speed,
            merging: snap.merging,
        };
        if snap.state == self.prev {
            return MonitorStep { filename, progress, change: None, schedule: false, stop: false };
        }
        let was_running: bool = self.prev == TaskState::Running;
        self.prev = snap.state;
        let change: Option<TaskEvent> = Some(
            TaskEvent::State {
                id: id.clone(),
                state: snap.state,
                error: opt_clone(&snap.error),
            },
        );
        let mut schedule: bool = false;
        let mut stop: bool = false;
        match snap.state {
            TaskState::Paused => {
                if was_running {
                    m.active = m.active - 1;
                    schedule = true;
                }
            },
            TaskState::Running => {
                m.active = m.active + 1;
            },
            TaskState::Queued => {},
            _ => {
                if was_running {
                    m.active = m.active - 1;
                }
                proof {
                    without_removes(strings_view(m.handles@), id@);
                }
                m.handles = retain_others(&m.handles, id.as_str());
                schedule = true;
                stop = true;
            },
        }
        MonitorStep { filename, progress, change, schedule, stop }
    }
}

// ---------------------------------------------------------------------------
// Recovery
// ---------------------------------------------------------------------------
/// What becomes of a stored task after a restart.
#[derive(Debug, Clone, Copy, PartialEq, Eq, Structural)]
pub enum RecoverStep {
    /// It waits again.
    Enqueue,
    /// It is queued as for a retry, after all others.
    Resume,
    /// It is stored and announced as paused.
    Hold,
    /// It is stored and announced as failed.
    Fail,
    /// It stays as it is.
    Skip,
}

/// What becomes of a stored task after a restart. What was under way goes on by itself or
/// stays paused, as the settings say; but an HTTP download needs a control file that can
/// be read (`ctl_ok`).
pub open spec fn recovery(
    state: TaskState,
    kind: TaskKind,
    auto_resume: bool,
    ctl_ok: bool,
) -> RecoverStep {
    if state is Queued {
        RecoverStep::Enqueue
    } else if !(state is Running || state is Paused) {
        RecoverStep::Skip
    } else if kind is Http && !ctl_ok {
        RecoverStep::Fail
    } else if auto_resume {
        RecoverStep::Resume
    } else {
        RecoverStep::Hold
    }
}

fn recover_one(rec: &TaskRecord, auto_resume: bool, ctl_ok: bool) -> (r: RecoverStep)
    ensures
        r == recovery(rec.state, rec.kind, auto_resume, ctl_ok),
{
    match rec.state {
        TaskState::Queued => RecoverStep::Enqueue,
        TaskState::Running | TaskState::Paused => {
            if rec.kind == TaskKind::Http && !ctl_ok {
                RecoverStep::Fail
            } else if auto_resume {
                RecoverStep::Resume
            } else {
                RecoverStep::Hold
            }
        },
        _ => RecoverStep::Skip,
    }
}

/// The path of a stored task's control file, where its file name is known.
pub fn control_path(rec: &TaskRecord) -> (r: Option<String>)
    ensures
        match r {
            None => rec.filename is None,
            Some(ctl) => rec.filename is Some && exists|path: Seq<char>|
                #[trigger] is_joined(rec.save_dir@, rec.filename->0@, path) && ctl@ == path
                    + ".sparkling"@,
        },
{
    match &rec.filename {
        None => None,
        Some(name) => {
            let path: String = join(rec.save_dir.as_str(), name.as_str());
            proof {
                assert(is_joined(rec.save_dir@, name@, path@));
            }
            Some(path_for(path.as_str()))
        },
    }
}

/// What is said of a download whose control file is gone or broken.
pub open spec fn lost_control_text() -> Seq<char> {
    "控制文件缺失或损坏，请重试"@
}

/// What is stored and announced for a recovered task, if anything.
pub fn recovery_event(id: &TaskId, step: RecoverStep) -> (r: Option<TaskEvent>)
    ensures
        match r {
            Some(ev) => match step {
                RecoverStep::Hold => ev@ == state_event(id@, TaskState::Paused, None),
                RecoverStep::Fail => ev@ == state_event(
                    id@,
                    TaskState::Failed,
                    Some(lost_control_text()),
                ),
                _ => false,
            },
            None => !(step is Hold || step is Fail),
        },
{
    match step {
        RecoverStep::Hold => Some(
            TaskEvent::State { id: id.clone(), state: TaskState::Paused, error: None },
        ),
        RecoverStep::Fail => Some(
            TaskEvent::State {
                id: id.clone(),
                state: TaskState::Failed,
                error: Some("控制文件缺失或损坏，请重试".to_owned()),
            },
        ),
        _ => None,
    }
}

impl TaskManager {
    /// What becomes of the stored tasks after a restart; `ctl_ok` says of each whether its
    /// control file is there and can be read. The tasks to resume are queued when all
    /// others have been dealt with.
    pub fn recover(&self, records: &Vec<TaskRecord>, ctl_ok: &Vec<bool>) -> (r: Vec<RecoverStep>)
        requires
            ctl_ok@.len() == records@.len(),
        ensures
            r@.len() == records@.len(),
            forall|i: int|
                0 <= i < r@.len() ==> #[trigger] r@[i] == recovery(
                    records@[i].state,
                    records@[i].kind,
                    self@.config.auto_resume_on_start,
                    ctl_ok@[i],
                ),
    {
        let mut out: Vec<RecoverStep> = Vec::new();
        let mut i: usize = 0;
        while i < records.len()
            invariant
                i <= records@.len(),
                ctl_ok@.len() == records@.len(),
                out@.len() == i,
                forall|k: int|
                    0 <= k < i ==> #[trigger] out@[k] == recovery(
                        records@[k].state,
                        records@[k].kind,
                        self@.config.auto_resume_on_start,
                        ctl_ok@[k],
                    ),
            decreases records@.len() - i,
        {
            out.push(recover_one(&records[i], self.config.auto_resume_on_start, ctl_ok[i]));
            i = i + 1;
        }
        out
    }
}

// ---------------------------------------------------------------------------
// Laws
// ---------------------------------------------------------------------------
/// Scheduling never uses more slots than there are: each started task takes one, and none
/// is started when all are in use.
pub proof fn slots_are_respected(m: ManagerView, records: Seq<TaskRecord>)
    ensures
        ({
            let (end, started) = scheduled(m, records);
            &&& end.active == m.active + started.len()
            &&& end.active <= m.config.max_concurrent || end.active == m.active
            &&& end.config == m.config
            &&& end.handles == m.handles
            &&& end.shutting_down == m.shutting_down
        }),
    decreases m.queue.len(),
{
    if !(m.shutting_down || m.active >= m.config.max_concurrent || m.queue.len() == 0) {
        let rest = ManagerView { queue: m.queue.drop_first(), ..m };
        slots_are_respected(rest, records);
        slots_are_respected(ManagerView { active: m.active + 1, ..rest }, records);
    }
}

/// Scheduling goes on as long as it can: in the end no slot is free, nothing waits, or
/// the manager is shutting down.
pub proof fn no_slot_is_wasted(m: ManagerView, records: Seq<TaskRecord>)
    ensures
        ({
            let end = scheduled(m, records).0;
            end.shutting_down || end.active >= end.config.max_concurrent || end.queue.len() == 0
        }),
    decreases m.queue.len(),
{
    if !(m.shutting_down || m.active >= m.config.max_concurrent || m.queue.len() == 0) {
        let rest = ManagerView { queue: m.queue.drop_first(), ..m };
        no_slot_is_wasted(rest, records);
        no_slot_is_wasted(ManagerView { active: m.active + 1, ..rest }, records);
    }
}

/// Tasks run in the order of the queue: those that remain are its end, and those that are
/// started come from before that; a task that is over or not stored is never started.
pub proof fn first_come_first_served(m: ManagerView, records: Seq<TaskRecord>)
    ensures
        ({
            let (end, started) = scheduled(m, records);
            let n = m.queue.len() - end.queue.len();
            &&& 0 <= n
            &&& end.queue == m.queue.skip(n)
            &&& forall|k: int|
                0 <= k < started.len() ==> m.queue.take(n).contains(#[trigger] started[k].id)
            &&& forall|k: int|
                0 <= k < started.len() ==> {
                    let rec = record_of(records, (#[trigger] started[k]).id);
                    rec is Some && !is_over(rec->0.state) && started[k].spec == spec_of(rec->0)
                }
        }),
    decreases m.queue.len(),
{
    let (end, started) = scheduled(m, records);
    if m.shutting_down || m.active >= m.config.max_concurrent || m.queue.len() == 0 {
        assert(m.queue.skip(0) =~= m.queue);
    } else {
        let id = m.queue[0];
        let rest = ManagerView { queue: m.queue.drop_first(), ..m };
        let next = match record_of(records, id) {
            Some(rec) => if is_over(rec.state) {
                rest
            } else {
                ManagerView { active: m.active + 1, ..rest }
            },
            None => rest,
        };
        first_come_first_served(next, records);
        let n = m.queue.len() - end.queue.len();
        let more = scheduled(next, records).1;
        assert(m.queue.drop_first().skip(n - 1) =~= m.queue.skip(n));
        assert forall|k: int| 0 <= k < started.len() implies m.queue.take(n).contains(
            #[trigger] started[k].id,
        ) by {
            let off = started.len() - more.len();
            if k < off {
                assert(m.queue.take(n)[0] == id);
            } else {
                assert(started[k] == more[k - off]);
                let t = m.queue.drop_first().take(n - 1);
                assert(t.contains(more[k - off].id));
                let j = choose|j: int| 0 <= j < t.len() && t[j] == more[k - off].id;
                assert(m.queue.take(n)[j + 1] == t[j]);
            }
        }
        assert forall|k: int| 0 <= k < started.len() implies ({
            let rec = record_of(records, (#[trigger] started[k]).id);
            rec is Some && !is_over(rec->0.state) && started[k].spec == spec_of(rec->0)
        }) by {
            let off = started.len() - more.len();
            if k >= off {
                assert(started[k] == more[k - off]);
            }
        }
    }
}

/// Nothing is started while shutting down.
pub proof fn shutdown_starts_nothing(m: ManagerView, records: Seq<TaskRecord>)
    requires
        m.shutting_down,
    ensures
        scheduled(m, records).1.len() == 0,
        scheduled(m, records).0 == m,
{
}

/// Retrying twice is retrying once, and what is over stays over: no retry queues it.
pub proof fn retry_is_idempotent(m: ManagerView, id: Seq<char>, stored: Option<TaskState>)
    ensures
        after_retry(after_retry(m, id, stored), id, stored) == after_retry(m, id, stored),
        stored is Some && is_over(stored->0) ==> after_retry(m, id, stored) == m,
        no_repeats(m.queue) ==> no_repeats(after_retry(m, id, stored).queue),
{
    if may_retry(m, id, stored) {
        let q = m.queue.push(id);
        assert(q[m.queue.len() as int] == id);
        assert(q.contains(id));
        if no_repeats(m.queue) {
            assert forall|i: int, j: int|
                0 <= i < q.len() && 0 <= j < q.len() && i != j implies q[i] != q[j] by {
                if i < m.queue.len() && j < m.queue.len() {
                    assert(m.queue[i] != m.queue[j]);
                } else if i < m.queue.len() {
                    assert(m.queue.contains(m.queue[i]));
                } else {
                    assert(m.queue.contains(m.queue[j]));
                }
            }
        }
    }
}

/// A task that is moved to the top is the first to run; the others keep their order, and
/// none waits twice.
pub proof fn top_task_runs_first(queue: Seq<Seq<char>>, id: Seq<char>)
    ensures
        ({
            let moved = seq![id] + without(queue, id);
            &&& moved[0] == id
            &&& moved.drop_first() == without(queue, id)
            &&& no_repeats(queue) ==> no_repeats(moved)
            &&& forall|x: Seq<char>|
                x != id ==> (#[trigger] without(queue, id).contains(x) <==> queue.contains(x))
        }),
{
    without_removes(queue, id);
    let w = without(queue, id);
    let moved = seq![id] + w;
    assert(moved.drop_first() =~= w);
    if no_repeats(queue) {
        assert forall|i: int, j: int|
            0 <= i < moved.len() && 0 <= j < moved.len() && i != j implies moved[i]
            != moved[j] by {
            if i > 0 && j > 0 {
                assert(w[i - 1] != w[j - 1]);
            } else if i > 0 {
                assert(w.contains(w[i - 1]));
            } else {
                assert(w.contains(w[j - 1]));
            }
        }
    }
}

/// A task that is cancelled while it waits is not started by later scheduling.
pub proof fn cancelled_task_is_not_started(m: ManagerView, id: Seq<char>, records: Seq<TaskRecord>)
    ensures
        ({
            let after = ManagerView { queue: without(m.queue, id), ..m };
            forall|k: int|
                0 <= k < scheduled(after, records).1.len() ==> #[trigger] scheduled(
                    after,
                    records,
                ).1[k].id != id
        }),
{
    let after = ManagerView { queue: without(m.queue, id), ..m };
    without_removes(m.queue, id);
    first_come_first_served(after, records);
    let (end, started) = scheduled(after, records);
    let n = after.queue.len() - end.queue.len();
    assert forall|k: int| 0 <= k < started.len() implies #[trigger] started[k].id != id by {
        let t = after.queue.take(n);
        assert(t.contains(started[k].id));
        let j = choose|j: int| 0 <= j < t.len() && t[j] == started[k].id;
        assert(after.queue[j] == started[k].id);
        assert(after.queue.contains(started[k].id));
    }
}

/// Pausing a running task frees its slot, and resuming it takes one again; a task that
/// ends, from whichever state, holds none and is in hand no more.
pub proof fn paused_tasks_hold_no_slot(m: ManagerView, id: Seq<char>, end: TaskState)
    requires
        end.ended(),
    ensures
        ({
            let paused = after_change(m, id, TaskState::Running, TaskState::Paused);
            let resumed = after_change(paused, id, TaskState::Paused, TaskState::Running);
            &&& paused.active == m.active - 1
            &&& resumed == m
            &&& after_change(m, id, TaskState::Running, end).active == m.active - 1
            &&& after_change(paused, id, TaskState::Paused, end).active == m.active - 1
            &&& !after_change(m, id, TaskState::Running, end).handles.contains(id)
            &&& !after_change(paused, id, TaskState::Paused, end).handles.contains(id)
        }),
{
}

/// Each running task holds one slot: whatever an engine reports, the slots in use change by
/// what the task begins or ceases to hold. (An engine never reports a task as waiting.)
pub proof fn running_tasks_hold_one_slot(
    m: ManagerView,
    id: Seq<char>,
    prev: TaskState,
    next: TaskState,
)
    requires
        !(next is Queued),
    ensures
        after_change(m, id, prev, next).active == m.active - (if prev is Running {
            1int
        } else {
            0int
        }) + (if next is Running {
            1int
        } else {
            0int
        }),
        after_change(m, id, prev, next).queue == m.queue,
{
}

/// After a restart no task is lost: each that had not ended waits, goes on, is paused or
/// has failed; and one that had ended stays as it was.
pub proof fn recovery_covers_every_task(
    state: TaskState,
    kind: TaskKind,
    auto_resume: bool,
    ctl_ok: bool,
)
    ensures
        recovery(state, kind, auto_resume, ctl_ok) is Skip <==> state.ended(),
        recovery(state, kind, auto_resume, ctl_ok) is Fail ==> kind is Http && !ctl_ok,
        !auto_resume ==> !(recovery(state, kind, auto_resume, ctl_ok) is Resume),
{
}

/// The record of a task is the first that has its identifier.
pub proof fn first_record_counts(records: Seq<TaskRecord>, id: Seq<char>, k: int)
    requires
        0 <= k <= records.len(),
        forall|j: int| 0 <= j < k ==> (#[trigger] records[j]).id@ != id,
        k < records.len() ==> records[k].id@ == id,
    ensures
        k < records.len() ==> record_of(records, id) == Some(records[k]@),
        k == records.len() ==> record_of(records, id) is None,
    decreases k,
{
    if k > 0 {
        let rest = records.drop_first();
        assert forall|j: int| 0 <= j < k - 1 implies (#[trigger] rest[j]).id@ != id by {
            assert(rest[j] == records[j + 1]);
        }
        assert(records[0].id@ != id);
        if k < records.len() {
            assert(rest[k - 1] == records[k]);
        }
        first_record_counts(rest, id, k - 1);
    }
}

proof fn record_exists(records: Seq<TaskRecord>, id: Seq<char>) -> (k: int)
    requires
        record_of(records, id) is Some,
    ensures
        0 <= k < records.len(),
        records[k].id@ == id,
        record_of(records, id) == Some(records[k]@),
        forall|j: int| 0 <= j < k ==> (#[trigger] records[j]).id@ != id,
    decreases records.len(),
{
    if records[0].id@ == id {
        0
    } else {
        let rest = records.drop_first();
        let k = record_exists(rest, id);
        assert(rest[k] == records[k + 1]);
        assert forall|j: int| 0 <= j < k + 1 implies (#[trigger] records[j]).id@ != id by {
            if j > 0 {
                assert(rest[j - 1] == records[j]);
            }
        }
        k + 1
    }
}

/// Every task that scheduling hands to an engine is one that is stored and neither completed
/// nor cancelled, and it is handed over as it is stored: with its own URL, directory, name,
/// number of segments, rate limit, kind and video parameters.
pub proof fn tasks_are_launched_as_stored(
    m: ManagerView,
    records: Seq<TaskRecord>,
    launches: Seq<Launch>,
    i: int,
) -> (k: int)
    requires
        launches_view(launches) == scheduled(m, records).1,
        0 <= i < launches.len(),
    ensures
        0 <= k < records.len(),
        ({
            let rec = records[k];
            let launch = launches[i];
            &&& launch.id@ == rec.id@
            &&& !(rec.state is Completed) && !(rec.state is Cancelled)
            &&& launch.spec.url@ == rec.url@
            &&& launch.spec.save_dir@ == rec.save_dir@
            &&& launch.spec.filename is Some <==> rec.filename is Some
            &&& rec.filename is Some ==> launch.spec.filename->0@ == rec.filename->0@
            &&& launch.spec.segments == rec.segments
            &&& launch.spec.max_speed == rec.max_speed
            &&& launch.spec.kind == rec.kind
            &&& launch.spec.video is Some <==> rec.video is Some
            &&& rec.video is Some ==> {
                let given = launch.spec.video->0;
                let asked = rec.video->0;
                &&& given.format@ == asked.format@
                &&& given.auto_subs == asked.auto_subs
                &&& given.subtitles@.len() == asked.subtitles@.len()
                &&& forall|j: int|
                    0 <= j < asked.subtitles@.len() ==> (#[trigger] given.subtitles@[j])@
                        == asked.subtitles@[j]@
            }
        }),
{
    first_come_first_served(m, records);
    let started = scheduled(m, records).1;
    assert(launches_view(launches)[i] == launches[i]@);
    assert(started[i] == launches[i]@);
    let k = record_exists(records, started[i].id);
    let rec = records[k];
    let launch = launches[i];
    if rec.video is Some {
        let given = launch.spec.video->0;
        let asked = rec.video->0;
        assert(given@ == asked@);
        assert(strings_view(given.subtitles@).len() == strings_view(asked.subtitles@).len());
        assert forall|j: int| 0 <= j < asked.subtitles@.len() implies (
        #[trigger] given.subtitles@[j])@ == asked.subtitles@[j]@ by {
            assert(strings_view(given.subtitles@)[j] == strings_view(asked.subtitles@)[j]);
        }
    }
    k
}

/// Whether a waiting task can be started: it is stored, and neither completed nor cancelled.
pub open spec fn startable(records: Seq<TaskRecord>, id: Seq<char>) -> bool {
    let rec = record_of(records, id);
    rec is Some && !(rec->0.state is Completed) && !(rec->0.state is Cancelled)
}

proof fn filter_first(id: Seq<char>, rest: Seq<Seq<char>>, p: spec_fn(Seq<char>) -> bool)
    ensures
        p(id) ==> (seq![id] + rest).filter(p) == seq![id] + rest.filter(p),
        !p(id) ==> (seq![id] + rest).filter(p) == rest.filter(p),
{
    reveal(Seq::filter);
    let one = seq![id];
    Seq::filter_distributes_over_add(one, rest, p);
    assert(one.drop_last() =~= Seq::<Seq<char>>::empty());
    assert(Seq::<Seq<char>>::empty().filter(p) =~= Seq::<Seq<char>>::empty());
    if p(id) {
        assert(one.filter(p) =~= one);
    } else {
        assert(one.filter(p) =~= Seq::<Seq<char>>::empty());
        assert(Seq::<Seq<char>>::empty() + rest.filter(p) =~= rest.filter(p));
    }
}

proof fn schedule_step(m: ManagerView, records: Seq<TaskRecord>)
    requires
        !m.shutting_down,
        m.active < m.config.max_concurrent,
        m.queue.len() > 0,
    ensures
        ({
            let rest = ManagerView { queue: m.queue.drop_first(), ..m };
            let taken = ManagerView { active: m.active + 1, ..rest };
            let (end, started) = scheduled(m, records);
            if startable(records, m.queue[0]) {
                &&& end == scheduled(taken, records).0
                &&& started.len() == scheduled(taken, records).1.len() + 1
                &&& started[0].id == m.queue[0]
                &&& started.drop_first() == scheduled(taken, records).1
            } else {
                (end, started) == scheduled(rest, records)
            }
        }),
{
    let started = scheduled(m, records).1;
    if startable(records, m.queue[0]) {
        let rest = ManagerView { queue: m.queue.drop_first(), ..m };
        let taken = ManagerView { active: m.active + 1, ..rest };
        assert(started.drop_first() =~= scheduled(taken, records).1);
    }
}

proof fn queue_shrinks(m: ManagerView, records: Seq<TaskRecord>)
    ensures
        scheduled(m, records).0.queue.len() <= m.queue.len(),
{
    first_come_first_served(m, records);
}

/// The identifiers of tasks that are started.
pub open spec fn ids_of(started: Seq<LaunchView>) -> Seq<Seq<char>> {
    started.map_values(|l: LaunchView| l.id)
}

/// No task is passed over: those that are started are exactly the ones that can be, among
/// those that have left the queue, in the order of the queue.
pub proof fn no_task_is_passed_over(m: ManagerView, records: Seq<TaskRecord>)
    ensures
        ({
            let (end, started) = scheduled(m, records);
            let left = m.queue.take(m.queue.len() - end.queue.len());
            ids_of(started) == left.filter(|id: Seq<char>| startable(records, id))
        }),
    decreases m.queue.len(),
{
    let p = |id: Seq<char>| startable(records, id);
    let (end, started) = scheduled(m, records);
    queue_shrinks(m, records);
    let left = m.queue.take(m.queue.len() - end.queue.len());
    if m.shutting_down || m.active >= m.config.max_concurrent || m.queue.len() == 0 {
        assert(left =~= Seq::<Seq<char>>::empty());
        left.lemma_filter_len(p);
        assert(ids_of(started) =~= left.filter(p));
    } else {
        let id = m.queue[0];
        let rest = ManagerView { queue: m.queue.drop_first(), ..m };
        let next = if startable(records, id) {
            ManagerView { active: m.active + 1, ..rest }
        } else {
            rest
        };
        schedule_step(m, records);
        no_task_is_passed_over(next, records);
        queue_shrinks(next, records);
        let more = scheduled(next, records).1;
        let later = next.queue.take(next.queue.len() - end.queue.len());
        assert(left =~= seq![id] + later);
        filter_first(id, later, p);
        if startable(records, id) {
            assert forall|i: int| 0 <= i < started.len() implies #[trigger] ids_of(started)[i]
                == (seq![id] + ids_of(more))[i] by {
                if i > 0 {
                    assert(started.drop_first()[i - 1] == started[i]);
                }
            }
            assert(ids_of(started) =~= seq![id] + ids_of(more));
        }
    }
}

/// Taking a task out of the queue leaves the others in their order.
pub proof fn others_keep_their_order(queue: Seq<Seq<char>>, id: Seq<char>)
    ensures
        without(queue, id) == queue.filter(|x: Seq<char>| x != id),
    decreases queue.len(),
{
    reveal(Seq::filter);
    let p = |x: Seq<char>| x != id;
    if queue.len() > 0 {
        others_keep_their_order(queue.drop_last(), id);
    } else {
        assert(queue.filter(p) =~= queue);
    }
}

/// A new task waits, and is what was asked for: under the given identifier and URL, in the
/// given directory, with the given rate limit, kind, video parameters and description, and
/// nothing downloaded. The name is the given one too, save that the title of a video is made
/// safe. There are as many segments as asked for, or as the settings say where nothing was
/// asked, from 1 to 64; a video has one.
pub proof fn new_tasks_are_as_asked(
    rec: TaskRecord,
    id: Seq<char>,
    url: Seq<char>,
    opts: AddTaskOptions,
    default_segments: u32,
    created_at: i64,
)
    requires
        rec@ == new_record(id, url, opts, default_segments, created_at),
    ensures
        rec.id@ == id,
        rec.url@ == url,
        rec.state is Queued,
        rec.save_dir@ == opts.save_dir@,
        rec.filename is Some <==> opts.filename is Some,
        opts.filename is Some && opts.kind is Http ==> rec.filename->0@ == opts.filename->0@,
        opts.filename is Some && opts.kind is Video ==> rec.filename->0@ == sanitized(
            opts.filename->0@,
        ),
        rec.max_speed == opts.max_speed,
        rec.total_size is None,
        rec.downloaded == 0,
        rec.error is None,
        rec.created_at == created_at,
        rec.kind == opts.kind,
        rec.video is Some <==> opts.video is Some,
        opts.video is Some ==> rec.video->0@ == opts.video->0@,
        rec.video_meta is Some <==> opts.video_meta is Some,
        opts.video_meta is Some ==> rec.video_meta->0@ == opts.video_meta->0@,
        rec.collection is None,
        opts.kind is Video ==> rec.segments == 1,
        opts.kind is Http && opts.segments is Some && 1 <= opts.segments->0 <= 64 ==> rec.segments
            == opts.segments->0,
        opts.kind is Http && opts.segments is None && 1 <= default_segments <= 64 ==> rec.segments
            == default_segments,
        1 <= rec.segments <= 64,
        opts.segments == Some(0u32) ==> rec.segments == 1,
        opts.segments is None && default_segments == 0 ==> rec.segments == 1,
        opts.kind is Http && opts.segments is Some && opts.segments->0 > 64 ==> rec.segments == 64,
        opts.kind is Http && opts.segments is None && default_segments > 64 ==> rec.segments == 64,
{
}

/// A notice tells of the task, its new state and the error.
pub proof fn notices_tell_the_state(id: Seq<char>, state: TaskState, error: Option<Seq<char>>)
    ensures
        state_event(id, state, error) is State,
        state_event(id, state, error)->State_id == id,
        state_event(id, state, error)->state == state,
        state_event(id, state, error)->error == error,
{
}

/// A task is queued again exactly where no engine has it, it does not wait already, and it is
/// not stored as completed or cancelled; it then waits behind all others, and nothing else
/// changes.
pub proof fn retry_queues_what_stopped(m: ManagerView, id: Seq<char>, stored: Option<TaskState>)
    ensures
        ({
            let after = after_retry(m, id, stored);
            let stopped = !m.handles.contains(id) && !m.queue.contains(id) && stored != Some(
                TaskState::Completed,
            ) && stored != Some(TaskState::Cancelled);
            &&& may_retry(m, id, stored) <==> stopped
            &&& stopped ==> after.queue == m.queue.push(id)
            &&& !stopped ==> after.queue == m.queue
            &&& after.handles == m.handles
            &&& after.active == m.active
            &&& after.config == m.config
            &&& after.shutting_down == m.shutting_down
        }),
{
}

/// What a removed task leaves is deleted only where no engine has it and its name is stored:
/// of a video everything under its name in its directory, of a download the control file and
/// the part file beside the place of the finished file.
pub proof fn leftovers_are_the_tasks_own(
    l: Option<Leftovers>,
    no_handle: bool,
    rec: Option<TaskRecord>,
)
    requires
        is_leftovers(l, no_handle, rec),
    ensures
        l is Some <==> no_handle && rec is Some && rec->0.filename is Some,
        l is Some && rec->0.kind is Video ==> {
            &&& l->0 is Video
            &&& l->0->save_dir@ == rec->0.save_dir@
            &&& l->0->filename@ == rec->0.filename->0@
        },
        l is Some && rec->0.kind is Http ==> {
            &&& l->0 is Http
            &&& exists|path: Seq<char>|
                #[trigger] is_joined(rec->0.save_dir@, rec->0.filename->0@, path)
                    && l->0->control_file@ == path + ".sparkling"@ && l->0->part_file@ == path
                    + ".sparkling.part"@
        },
{
}

/// Every report is announced as it is. The name is stored with the first report that has one.
/// A change of state is announced with its error, and only a change is; the watch ends with
/// the task. Tasks are scheduled when the task has freed its slot: when it has ended, or has
/// been paused while it ran.
pub proof fn reports_are_passed_on(mon: Monitor, id: Seq<char>, snap: SnapshotView)
    ensures
        ({
            let step = observed(mon, id, snap);
            let changed = snap.state != mon.prev;
            let over = snap.state is Completed || snap.state is Failed || snap.state is Cancelled;
            &&& step.progress is Progress
            &&& step.progress->Progress_id == id
            &&& step.progress->downloaded == snap.downloaded
            &&& step.progress->total == snap.total
            &&& step.progress->speed == snap.speed
            &&& step.progress->merging == snap.merging
            &&& !mon.filename_saved ==> step.filename == snap.filename
            &&& mon.filename_saved ==> step.filename is None
            &&& step.change is Some <==> changed
            &&& changed ==> {
                &&& step.change->0 is State
                &&& step.change->0->State_id == id
                &&& step.change->0->state == snap.state
                &&& step.change->0->error == snap.error
            }
            &&& step.stop <==> changed && over
            &&& step.schedule <==> changed && (over || snap.state is Paused && mon.prev is Running)
        }),
{
}

/// A task that ends is in hand no more; one that pauses, runs or waits stays as it was. The
/// other tasks, the settings and the queue are not touched.
pub proof fn ended_tasks_are_let_go(
    m: ManagerView,
    id: Seq<char>,
    other: Seq<char>,
    prev: TaskState,
    next: TaskState,
)
    requires
        other != id,
    ensures
        ({
            let after = after_change(m, id, prev, next);
            let over = next is Completed || next is Failed || next is Cancelled;
            &&& prev != next && over ==> !after.handles.contains(id)
            &&& prev == next || !over ==> after.handles == m.handles
            &&& after.handles.contains(other) <==> m.handles.contains(other)
            &&& prev == next ==> after == m
            &&& next is Queued ==> after == m
            &&& after.queue == m.queue
            &&& after.config == m.config
            &&& after.shutting_down == m.shutting_down
        }),
{
}

/// After a restart a waiting task waits again. What was running or paused goes on where the
/// settings say so and stays paused where they do not; but a download whose control file
/// cannot be read has failed. What had ended stays as it is.
pub proof fn recovery_follows_the_settings(kind: TaskKind, auto_resume: bool, ctl_ok: bool)
    ensures
        recovery(TaskState::Queued, kind, auto_resume, ctl_ok) is Enqueue,
        forall|state: TaskState|
            state is Running || state is Paused ==> #[trigger] recovery(
                state,
                kind,
                auto_resume,
                ctl_ok,
            ) == if kind is Http && !ctl_ok {
                RecoverStep::Fail
            } else if auto_resume {
                RecoverStep::Resume
            } else {
                RecoverStep::Hold
            },
        forall|state: TaskState|
            state is Completed || state is Failed || state is Cancelled ==> #[trigger] recovery(
                state,
                kind,
                auto_resume,
                ctl_ok,
            ) is Skip,
{
}

/// A task is known where an engine has it or it waits, and over where it is completed or
/// cancelled; a failed one is not.
pub proof fn failed_tasks_are_not_over(m: ManagerView, id: Seq<char>, state: TaskState)
    ensures
        is_over(state) <==> state == TaskState::Completed || state == TaskState::Cancelled,
        !is_over(TaskState::Failed),
        is_known(m, id) <==> m.handles.contains(id) || m.queue.contains(id),
{
}

/// Events, launches, settings and the outcome of a report are seen field by field.
pub proof fn events_are_seen_as_they_are(
    ev: TaskEvent,
    launch: Launch,
    config: ManagerConfig,
    step: MonitorStep,
)
    ensures
        ev is State ==> {
            &&& ev@ is State
            &&& ev@->State_id == ev->State_id@
            &&& ev@->state == ev->state
            &&& ev@->error is Some <==> ev->error is Some
            &&& ev->error is Some ==> ev@->error->0 == ev->error->0@
        },
        ev is Progress ==> {
            &&& ev@ is Progress
            &&& ev@->Progress_id == ev->Progress_id@
            &&& ev@->downloaded == ev->downloaded
            &&& ev@->total == ev->total
            &&& ev@->speed == ev->speed
            &&& ev@->merging == ev->merging
        },
        launch@.id == launch.id@,
        launch@.spec == launch.spec@,
        config@.max_concurrent == config.max_concurrent,
        config@.auto_resume_on_start == config.auto_resume_on_start,
        config@.global_speed_limit == config.global_speed_limit,
        config@.default_segments == config.default_segments,
        config@.video_max_height == config.video_max_height,
        config@.video_audio_only == config.video_audio_only,
        config@.video_sub_langs == config.video_sub_langs@,
        config@.video_auto_subs == config.video_auto_subs,
        config@.cookie_file is Some <==> config.cookie_file is Some,
        config.cookie_file is Some ==> config@.cookie_file->0 == config.cookie_file->0@,
        step@.filename is Some <==> step.filename is Some,
        step.filename is Some ==> step@.filename->0 == step.filename->0@,
        step@.progress == step.progress@,
        step@.change is Some <==> step.change is Some,
        step.change is Some ==> step@.change->0 == step.change->0@,
        step@.schedule == step.schedule,
        step@.stop == step.stop,
{
}

} // verus!
