//! Tasks: life-cycle states, kinds, and what is submitted to an engine.
use crate::text::{opt_clone, opt_view, str_eq, strings_clone, strings_view};
use uuid::Uuid;
use vstd::prelude::*;

verus! {

/// The identifier of a task.
pub type TaskId = String;

/// One of the sixteen small hexadecimal digits.
pub open spec fn is_hex(c: char) -> bool {
    '0' <= c <= '9' || 'a' <= c <= 'f'
}

/// A random UUID in its usual form: five groups of hexadecimal digits, with the marks of
/// version 4.
pub open spec fn is_task_id(id: Seq<char>) -> bool {
    &&& id.len() == 36
    &&& id[14] == '4'
    &&& id[19] == '8' || id[19] == '9' || id[19] == 'a' || id[19] == 'b'
    &&& forall|i: int|
        0 <= i < 36 ==> if i == 8 || i == 13 || i == 18 || i == 23 {
            #[trigger] id[i] == '-'
        } else {
            is_hex(id[i])
        }
}

/// `uuid::Uuid::new_v4`, written out by its `Display`: a random identifier. Claimed of
/// every outcome is its form; that two outcomes differ is left to chance.
#[verifier::external_body]
pub(crate) fn new_task_id() -> (r: TaskId)
    ensures
        is_task_id(r@),
{
    Uuid::new_v4().to_string()
}

#[derive(Debug, Clone, Copy, PartialEq, Eq, Structural)]
pub enum TaskState {
    Queued,
    Running,
    Paused,
    Completed,
    Failed,
    Cancelled,
}

impl TaskState {
    /// The name under which a state is stored and sent.
    pub open spec fn name(self) -> Seq<char> {
        match self {
            TaskState::Queued => "queued"@,
            TaskState::Running => "running"@,
            TaskState::Paused => "paused"@,
            TaskState::Completed => "completed"@,
            TaskState::Failed => "failed"@,
            TaskState::Cancelled => "cancelled"@,
        }
    }

    /// The steps of a task's life. `Completed` and `Cancelled` are final.
    pub open spec fn may_become(self, next: TaskState) -> bool {
        match self {
            TaskState::Queued => next is Running || next is Cancelled,
            TaskState::Running => next is Paused || next is Completed || next is Failed
                || next is Cancelled,
            TaskState::Paused => next is Queued || next is Cancelled || next is Failed,
            TaskState::Failed => next is Queued || next is Cancelled,
            TaskState::Completed => false,
            TaskState::Cancelled => false,
        }
    }

    pub fn as_str(self) -> (r: &'static str)
        ensures
            r@ == self.name(),
    {
        match self {
            TaskState::Queued => "queued",
            TaskState::Running => "running",
            TaskState::Paused => "paused",
            TaskState::Completed => "completed",
            TaskState::Failed => "failed",
            TaskState::Cancelled => "cancelled",
        }
    }

    /// The state named `s`, if there is one.
    pub open spec fn named(s: Seq<char>) -> Option<TaskState> {
        if s == "queued"@ {
            Some(TaskState::Queued)
        } else if s == "running"@ {
            Some(TaskState::Running)
        } else if s == "paused"@ {
            Some(TaskState::Paused)
        } else if s == "completed"@ {
            Some(TaskState::Completed)
        } else if s == "failed"@ {
            Some(TaskState::Failed)
        } else if s == "cancelled"@ {
            Some(TaskState::Cancelled)
        } else {
            None
        }
    }

    /// The state named `s`, if there is one.
    pub fn parse(s: &str) -> (r: Option<Self>)
        ensures
            r == TaskState::named(s@),
    {
        if str_eq(s, "queued") {
            Some(TaskState::Queued)
        } else if str_eq(s, "running") {
            Some(TaskState::Running)
        } else if str_eq(s, "paused") {
            Some(TaskState::Paused)
        } else if str_eq(s, "completed") {
            Some(TaskState::Completed)
        } else if str_eq(s, "failed") {
            Some(TaskState::Failed)
        } else if str_eq(s, "cancelled") {
            Some(TaskState::Cancelled)
        } else {
            None
        }
    }

    /// Whether a task may go from this state to `next`.
    pub fn can_transition_to(self, next: TaskState) -> (r: bool)
        ensures
            r == self.may_become(next),
    {
        match (self, next) {
            (TaskState::Queued, TaskState::Running) => true,
            (TaskState::Queued, TaskState::Cancelled) => true,
            (TaskState::Running, TaskState::Paused) => true,
            (TaskState::Running, TaskState::Completed) => true,
            (TaskState::Running, TaskState::Failed) => true,
            (TaskState::Running, TaskState::Cancelled) => true,
            (TaskState::Paused, TaskState::Queued) => true,
            (TaskState::Paused, TaskState::Cancelled) => true,
            (TaskState::Paused, TaskState::Failed) => true,
            (TaskState::Failed, TaskState::Queued) => true,
            (TaskState::Failed, TaskState::Cancelled) => true,
            _ => false,
        }
    }

    /// Whether the state is one that a task never leaves by itself.
    pub open spec fn ended(self) -> bool {
        self is Completed || self is Failed || self is Cancelled
    }
}

/// Parsing the name of a state gives that state back, and only names of states can be
/// parsed.
pub proof fn state_names_roundtrip(state: TaskState, s: Seq<char>)
    ensures
        TaskState::named(state.name()) == Some(state),
        TaskState::named(s) is Some ==> TaskState::named(s)->0.name() == s,
{
    reveal_strlit("queued");
    reveal_strlit("running");
    reveal_strlit("paused");
    reveal_strlit("completed");
    reveal_strlit("failed");
    reveal_strlit("cancelled");
    assert("queued"@[0] == 'q');
    assert("running"@[0] == 'r');
    assert("paused"@[0] == 'p');
    assert("completed"@[0] == 'c' && "completed"@[1] == 'o');
    assert("failed"@[0] == 'f');
    assert("cancelled"@[0] == 'c' && "cancelled"@[1] == 'a');
}

/// A completed or cancelled task stays as it is, and no state leads to itself.
pub proof fn final_states_are_final(from: TaskState, next: TaskState)
    ensures
        from is Completed || from is Cancelled ==> !from.may_become(next),
        from.may_become(next) ==> from != next,
{
}

/// Every state that is not final can be cancelled.
pub proof fn cancel_is_always_open(from: TaskState)
    requires
        !(from is Completed),
        !(from is Cancelled),
    ensures
        from.may_become(TaskState::Cancelled),
{
}

/// What a task downloads: a plain HTTP resource or a video page.
#[derive(Debug, Clone, Copy, PartialEq, Eq, Structural)]
pub enum TaskKind {
    Http,
    Video,
}

impl TaskKind {
    /// The name under which a kind is stored and sent.
    pub open spec fn name(self) -> Seq<char> {
        match self {
            TaskKind::Http => "http"@,
            TaskKind::Video => "video"@,
        }
    }

    pub fn as_str(self) -> (r: &'static str)
        ensures
            r@ == self.name(),
    {
        match self {
            TaskKind::Http => "http",
            TaskKind::Video => "video",
        }
    }

    /// The kind named `s`, if there is one.
    pub open spec fn named(s: Seq<char>) -> Option<TaskKind> {
        if s == "http"@ {
            Some(TaskKind::Http)
        } else if s == "video"@ {
            Some(TaskKind::Video)
        } else {
            None
        }
    }

    /// The kind named `s`, if there is one.
    pub fn parse(s: &str) -> (r: Option<Self>)
        ensures
            r == TaskKind::named(s@),
    {
        if str_eq(s, "http") {
            Some(TaskKind::Http)
        } else if str_eq(s, "video") {
            Some(TaskKind::Video)
        } else {
            None
        }
    }
}

/// Parsing the name of a kind gives that kind back, and only names of kinds can be parsed.
pub proof fn kind_names_roundtrip(kind: TaskKind, s: Seq<char>)
    ensures
        TaskKind::named(kind.name()) == Some(kind),
        TaskKind::named(s) is Some ==> TaskKind::named(s)->0.name() == s,
{
    reveal_strlit("http");
    reveal_strlit("video");
    assert("http"@[0] == 'h');
    assert("video"@[0] == 'v');
}

/// How yt-dlp is to download a video.
#[derive(Debug)]
pub struct VideoParams {
    /// Format selector for `-f`.
    pub format: String,
    /// Subtitle languages; none means no subtitles.
    pub subtitles: Vec<String>,
    /// Whether automatically generated subtitles are wanted.
    pub auto_subs: bool,
}

pub struct VideoParamsView {
    pub format: Seq<char>,
    pub subtitles: Seq<Seq<char>>,
    pub auto_subs: bool,
}

impl View for VideoParams {
    type V = VideoParamsView;

    open spec fn view(&self) -> VideoParamsView {
        VideoParamsView {
            format: self.format@,
            subtitles: strings_view(self.subtitles@),
            auto_subs: self.auto_subs,
        }
    }
}

impl Clone for VideoParams {
    fn clone(&self) -> (r: Self)
        ensures
            r@ == self@,
    {
        VideoParams {
            format: self.format.clone(),
            subtitles: strings_clone(&self.subtitles),
            auto_subs: self.auto_subs,
        }
    }
}

/// What is known of a video before its download.
#[derive(Debug)]
pub struct VideoMeta {
    pub title: String,
    pub duration_sec: Option<u64>,
    pub thumbnail: Option<String>,
    pub uploader: Option<String>,
    pub webpage_url: Option<String>,
}

pub struct VideoMetaView {
    pub title: Seq<char>,
    pub duration_sec: Option<u64>,
    pub thumbnail: Option<Seq<char>>,
    pub uploader: Option<Seq<char>>,
    pub webpage_url: Option<Seq<char>>,
}

impl View for VideoMeta {
    type V = VideoMetaView;

    open spec fn view(&self) -> VideoMetaView {
        VideoMetaView {
            title: self.title@,
            duration_sec: self.duration_sec,
            thumbnail: opt_view(self.thumbnail),
            uploader: opt_view(self.uploader),
            webpage_url: opt_view(self.webpage_url),
        }
    }
}

impl Clone for VideoMeta {
    fn clone(&self) -> (r: Self)
        ensures
            r@ == self@,
    {
        VideoMeta {
            title: self.title.clone(),
            duration_sec: self.duration_sec,
            thumbnail: opt_clone(&self.thumbnail),
            uploader: opt_clone(&self.uploader),
            webpage_url: opt_clone(&self.webpage_url),
        }
    }
}

/// An optional `VideoParams` seen through its view.
pub open spec fn params_view(p: Option<VideoParams>) -> Option<VideoParamsView> {
    match p {
        Some(v) => Some(v@),
        None => None,
    }
}

/// An optional `VideoMeta` seen through its view.
pub open spec fn meta_view(m: Option<VideoMeta>) -> Option<VideoMetaView> {
    match m {
        Some(v) => Some(v@),
        None => None,
    }
}

/// A copy of optional video parameters.
pub fn params_clone(p: &Option<VideoParams>) -> (r: Option<VideoParams>)
    ensures
        params_view(r) == params_view(*p),
{
    match p {
        Some(v) => Some(v.clone()),
        None => None,
    }
}

/// A copy of optional video metadata.
pub fn meta_clone(m: &Option<VideoMeta>) -> (r: Option<VideoMeta>)
    ensures
        meta_view(r) == meta_view(*m),
{
    match m {
        Some(v) => Some(v.clone()),
        None => None,
    }
}

/// A download as it is submitted to an engine.
#[derive(Debug)]
pub struct TaskSpec {
    pub url: String,
    pub save_dir: String,
    /// `None`: taken from the response headers or the URL.
    pub filename: Option<String>,
    /// Number of segments, 1 to 64.
    pub segments: u32,
    /// Rate limit of the download in bytes per second.
    pub max_speed: Option<u64>,
    pub kind: TaskKind,
    pub video: Option<VideoParams>,
}

pub struct TaskSpecView {
    pub url: Seq<char>,
    pub save_dir: Seq<char>,
    pub filename: Option<Seq<char>>,
    pub segments: u32,
    pub max_speed: Option<u64>,
    pub kind: TaskKind,
    pub video: Option<VideoParamsView>,
}

impl View for TaskSpec {
    type V = TaskSpecView;

    open spec fn view(&self) -> TaskSpecView {
        TaskSpecView {
            url: self.url@,
            save_dir: self.save_dir@,
            filename: opt_view(self.filename),
            segments: self.segments,
            max_speed: self.max_speed,
            kind: self.kind,
            video: params_view(self.video),
        }
    }
}

impl Clone for TaskSpec {
    fn clone(&self) -> (r: Self)
        ensures
            r@ == self@,
    {
        TaskSpec {
            url: self.url.clone(),
            save_dir: self.save_dir.clone(),
            filename: opt_clone(&self.filename),
            segments: self.segments,
            max_speed: self.max_speed,
            kind: self.kind,
            video: params_clone(&self.video),
        }
    }
}

/// A task begins to run only out of the queue, is paused or completed only while it runs,
/// fails while it runs or is paused, waits again after a pause or a failure, and is cancelled
/// from wherever it has not ended for good.
pub proof fn states_are_reached_from(from: TaskState)
    ensures
        from.may_become(TaskState::Running) <==> from == TaskState::Queued,
        from.may_become(TaskState::Paused) <==> from == TaskState::Running,
        from.may_become(TaskState::Completed) <==> from == TaskState::Running,
        from.may_become(TaskState::Failed) <==> from == TaskState::Running || from
            == TaskState::Paused,
        from.may_become(TaskState::Queued) <==> from == TaskState::Paused || from
            == TaskState::Failed,
        from.may_become(TaskState::Cancelled) <==> from != TaskState::Completed && from
            != TaskState::Cancelled,
        from.ended() <==> from == TaskState::Completed || from == TaskState::Failed || from
            == TaskState::Cancelled,
{
}

/// Only the six names of states can be parsed, each as the state that it names.
pub proof fn states_by_name(s: Seq<char>)
    ensures
        TaskState::named(s) == Some(TaskState::Queued) <==> s == "queued"@,
        TaskState::named(s) == Some(TaskState::Running) <==> s == "running"@,
        TaskState::named(s) == Some(TaskState::Paused) <==> s == "paused"@,
        TaskState::named(s) == Some(TaskState::Completed) <==> s == "completed"@,
        TaskState::named(s) == Some(TaskState::Failed) <==> s == "failed"@,
        TaskState::named(s) == Some(TaskState::Cancelled) <==> s == "cancelled"@,
        TaskKind::named(s) == Some(TaskKind::Http) <==> s == "http"@,
        TaskKind::named(s) == Some(TaskKind::Video) <==> s == "video"@,
{
    state_names_roundtrip(TaskState::Queued, s);
    state_names_roundtrip(TaskState::Running, s);
    state_names_roundtrip(TaskState::Paused, s);
    state_names_roundtrip(TaskState::Completed, s);
    state_names_roundtrip(TaskState::Failed, s);
    state_names_roundtrip(TaskState::Cancelled, s);
    kind_names_roundtrip(TaskKind::Http, s);
    kind_names_roundtrip(TaskKind::Video, s);
}

/// An identifier has five groups of small hexadecimal digits with hyphens between them, 36
/// characters in all.
pub proof fn identifiers_are_uuids(id: Seq<char>, i: int)
    requires
        is_task_id(id),
        0 <= i < id.len(),
    ensures
        id.len() == 36,
        id[i] == '-' <==> i == 8 || i == 13 || i == 18 || i == 23,
        id[i] == '-' || 48 <= id[i] as u32 <= 57 || 97 <= id[i] as u32 <= 102,
        id[14] == '4',
{
    assert(id[i] == '-' || is_hex(id[i]));
    assert(i != 8 && i != 13 && i != 18 && i != 23 ==> is_hex(id[i]));
}

/// A submitted task, its parameters and its description are seen field by field.
pub proof fn submitted_tasks_show_every_field(a: TaskSpec, b: TaskSpec)
    requires
        a@ == b@,
    ensures
        a.url@ == b.url@,
        a.save_dir@ == b.save_dir@,
        a.filename is Some <==> b.filename is Some,
        a.filename is Some ==> a.filename->0@ == b.filename->0@,
        a.segments == b.segments,
        a.max_speed == b.max_speed,
        a.kind == b.kind,
        a.video is Some <==> b.video is Some,
        a.video is Some ==> {
            &&& a.video->0.format@ == b.video->0.format@
            &&& a.video->0.auto_subs == b.video->0.auto_subs
            &&& a.video->0.subtitles@.len() == b.video->0.subtitles@.len()
        },
{
    if a.video is Some {
        let x = a.video->0;
        let y = b.video->0;
        assert(x@ == y@);
        assert(strings_view(x.subtitles@).len() == strings_view(y.subtitles@).len());
    }
}

/// Video parameters and descriptions are seen field by field.
pub proof fn video_data_shows_every_field(p: VideoParams, m: VideoMeta, i: int)
    ensures
        p@.format == p.format@,
        p@.auto_subs == p.auto_subs,
        p@.subtitles.len() == p.subtitles@.len(),
        0 <= i < p.subtitles@.len() ==> p@.subtitles[i] == p.subtitles@[i]@,
        m@.title == m.title@,
        m@.duration_sec == m.duration_sec,
        m@.thumbnail is Some <==> m.thumbnail is Some,
        m.thumbnail is Some ==> m@.thumbnail->0 == m.thumbnail->0@,
        m@.uploader is Some <==> m.uploader is Some,
        m.uploader is Some ==> m@.uploader->0 == m.uploader->0@,
        m@.webpage_url is Some <==> m.webpage_url is Some,
        m.webpage_url is Some ==> m@.webpage_url->0 == m.webpage_url->0@,
        params_view(Some(p)) == Some(p@),
        params_view(None) is None,
        meta_view(Some(m)) == Some(m@),
        meta_view(None) is None,
{
}

} // verus!
