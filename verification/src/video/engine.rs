//! The video engine: one yt-dlp process per task. Pausing kills the process; resuming
//! starts it again, and yt-dlp goes on from its part files.
use crate::engine::{ControlMsg, ProgressSnapshot, SnapshotView};
use crate::error::{cat, SparklingError};
use crate::paths::{extends, is_joined, join, plain_name, verbatim};
use crate::task::{TaskSpec, TaskState, VideoParams};
use crate::text::{
    all_digits, chars_eq, chars_of, decimal, decimal_of, decimal_reads_back, digits_only,
    digits_value, find_first, first_of, first_of_none, first_place_is_found, has_prefix,
    has_suffix, is_digit, is_white, join as join_strings, joined, opt_str_view, opt_view, pieces,
    prefix_comes_off, repeated_character_comes_off, repeated_prefix_comes_off, signed_decimal,
    signed_decimal_of, split, string_of, strings_view, strip_prefix, strip_prefixes, strip_suffix,
    suffix_comes_off, trim, trim_leading, trimmed, trimming_keeps_the_core, without_leading,
    without_prefix, without_prefixes, without_suffix,
};
use crate::video::progress::{announces_merge, is_merge_line, line_view, parse_progress_line};
use crate::video::runner::{KillReason, RunResult, RunView};
use vstd::prelude::*;
use vstd::slice::slice_subrange;

verus! {

// ---------------------------------------------------------------------------
// The command line
// ---------------------------------------------------------------------------
/// The name of yt-dlp's output: the task's file name with yt-dlp's extension, or a
/// template of title and id.
pub open spec fn output_name(filename: Option<Seq<char>>) -> Seq<char> {
    match filename {
        Some(f) => f + ".%(ext)s"@,
        None => "%(title).200B [%(id)s].%(ext)s"@,
    }
}

/// The part of the command line that every task has, for the output path `out`.
pub open spec fn common_args(format: Seq<char>, out: Seq<char>) -> Seq<Seq<char>> {
    seq![
        "-f"@,
        format,
        "-c"@,
        "--newline"@,
        "--no-mtime"@,
        "--retries"@,
        "10"@,
        "--progress-template"@,
        "download:SPARKLING|%(progress.downloaded_bytes)s|%(progress.total_bytes)s|%(progress.total_bytes_estimate)s|%(progress.speed)s"@,
        "-o"@,
        out,
    ]
}

/// A flag with a value, where there is a value.
pub open spec fn flag(name: Seq<char>, value: Option<Seq<char>>) -> Seq<Seq<char>> {
    match value {
        Some(v) => seq![name, v],
        None => Seq::empty(),
    }
}

/// The rate limit of a process: the task's own or the one of all tasks, whichever is set,
/// and the smaller where both are.
pub open spec fn run_limit(own: Option<u64>, global: Option<u64>) -> Option<u64> {
    match (own, global) {
        (Some(a), Some(b)) => Some(
            if a <= b {
                a
            } else {
                b
            },
        ),
        (Some(a), None) => Some(a),
        (None, _) => global,
    }
}

/// The rate limit of a process, given the task's own and the one of all tasks.
pub fn effective_limit(own: Option<u64>, global: Option<u64>) -> (r: Option<u64>)
    ensures
        r == run_limit(own, global),
{
    match (own, global) {
        (Some(a), Some(b)) => {
            if a <= b {
                Some(a)
            } else {
                Some(b)
            }
        },
        (Some(a), None) => Some(a),
        (None, _) => global,
    }
}

/// The rate limit as yt-dlp reads it, in whole kibibytes per second.
pub open spec fn limit_text(limit: Option<u64>) -> Option<Seq<char>> {
    match limit {
        Some(l) => Some(decimal((l / 1024) as nat) + "K"@),
        None => None,
    }
}

/// The flags for subtitles.
pub open spec fn subtitle_args(langs: Seq<Seq<char>>, auto: bool) -> Seq<Seq<char>> {
    (if langs.len() > 0 {
        seq!["--write-subs"@, "--sub-langs"@, joined(langs, ","@)]
    } else {
        Seq::empty()
    }) + (if auto {
        seq!["--write-auto-subs"@]
    } else {
        Seq::empty()
    })
}

/// The whole command line for the output path `out`; `limit` is the rate limit of all tasks
/// together.
pub open spec fn command_line(
    spec: TaskSpec,
    out: Seq<char>,
    ffmpeg: Option<Seq<char>>,
    cookie: Option<Seq<char>>,
    limit: Option<u64>,
) -> Seq<Seq<char>> {
    let video = spec.video->0;
    common_args(video.format@, out) + flag("--ffmpeg-location"@, ffmpeg) + flag(
        "--cookies"@,
        cookie,
    ) + flag("-r"@, limit_text(run_limit(spec.max_speed, limit))) + subtitle_args(
        strings_view(video.subtitles@),
        video.auto_subs,
    ) + seq![spec.url@]
}

fn push_arg(args: &mut Vec<String>, arg: &str)
    ensures
        strings_view(final(args)@) == strings_view(old(args)@).push(arg@),
{
    let ghost before = args@;
    args.push(arg.to_owned());
    proof {
        assert(strings_view(args@) =~= strings_view(before).push(arg@));
    }
}

fn push_flag(args: &mut Vec<String>, name: &str, value: Option<&str>)
    ensures
        strings_view(final(args)@) == strings_view(old(args)@) + flag(name@, opt_str_view(value)),
{
    match value {
        Some(v) => {
            push_arg(args, name);
            push_arg(args, v);
            proof {
                assert(strings_view(args@) =~= strings_view(old(args)@) + seq![name@, v@]);
            }
        },
        None => {
            proof {
                assert(strings_view(args@) + Seq::<Seq<char>>::empty() =~= strings_view(args@));
            }
        },
    }
}

/// The command line for the output path `out`.
pub fn build_args_for(
    spec: &TaskSpec,
    out: &str,
    ffmpeg: Option<&str>,
    cookie: Option<&str>,
    limit: Option<u64>,
) -> (r: Vec<String>)
    requires
        spec.video is Some,
    ensures
        strings_view(r@) == command_line(
            *spec,
            out@,
            opt_str_view(ffmpeg),
            opt_str_view(cookie),
            limit,
        ),
{
    let mut args: Vec<String> = Vec::new();
    let video: &VideoParams = match &spec.video {
        Some(v) => v,
        None => {
            return args;
        },
    };
    push_arg(&mut args, "-f");
    push_arg(&mut args, video.format.as_str());
    push_arg(&mut args, "-c");
    push_arg(&mut args, "--newline");
    push_arg(&mut args, "--no-mtime");
    push_arg(&mut args, "--retries");
    push_arg(&mut args, "10");
    push_arg(&mut args, "--progress-template");
    push_arg(
        &mut args,
        "download:SPARKLING|%(progress.downloaded_bytes)s|%(progress.total_bytes)s|%(progress.total_bytes_estimate)s|%(progress.speed)s",
    );
    push_arg(&mut args, "-o");
    push_arg(&mut args, out);
    proof {
        assert(strings_view(args@) =~= common_args(video.format@, out@));
    }
    push_flag(&mut args, "--ffmpeg-location", ffmpeg);
    push_flag(&mut args, "--cookies", cookie);
    match effective_limit(spec.max_speed, limit) {
        Some(l) => {
            let text: String = cat(decimal_of(l / 1024).as_str(), "K");
            push_flag(&mut args, "-r", Some(text.as_str()));
        },
        None => push_flag(&mut args, "-r", None),
    }
    let ghost before = strings_view(args@);
    let ghost langs = strings_view(video.subtitles@);
    if video.subtitles.len() > 0 {
        push_arg(&mut args, "--write-subs");
        push_arg(&mut args, "--sub-langs");
        push_arg(&mut args, join_strings(&video.subtitles, ",").as_str());
    }
    if video.auto_subs {
        push_arg(&mut args, "--write-auto-subs");
    }
    proof {
        assert(strings_view(args@) =~= before + subtitle_args(langs, video.auto_subs));
    }
    push_arg(&mut args, spec.url.as_str());
    proof {
        assert(strings_view(args@) =~= before + subtitle_args(langs, video.auto_subs)
            + seq![spec.url@]);
    }
    args
}

/// The command line for a task. The output goes to the task's directory; how the path of
/// the output is written is up to the system.
pub fn build_args(
    spec: &TaskSpec,
    ffmpeg: Option<&str>,
    cookie: Option<&str>,
    limit: Option<u64>,
) -> (r: Vec<String>)
    requires
        spec.video is Some,
    ensures
        exists|out: Seq<char>|
            #[trigger] is_joined(spec.save_dir@, output_name(opt_view(spec.filename)), out)
                && strings_view(r@) == command_line(
                *spec,
                out,
                opt_str_view(ffmpeg),
                opt_str_view(cookie),
                limit,
            ),
{
    let name: String = match &spec.filename {
        Some(f) => cat(f.as_str(), ".%(ext)s"),
        None => "%(title).200B [%(id)s].%(ext)s".to_owned(),
    };
    let out: String = join(spec.save_dir.as_str(), name.as_str());
    proof {
        assert(name@ == output_name(opt_view(spec.filename)));
        assert(is_joined(spec.save_dir@, output_name(opt_view(spec.filename)), out@));
    }
    build_args_for(spec, out.as_str(), ffmpeg, cookie, limit)
}

// ---------------------------------------------------------------------------
// Error messages
// ---------------------------------------------------------------------------
/// The last of the lines that starts with "ERROR".
pub open spec fn last_error(lines: Seq<Seq<char>>) -> Option<Seq<char>>
    decreases lines.len(),
{
    if lines.len() == 0 {
        None
    } else if "ERROR"@.is_prefix_of(lines.last()) {
        Some(lines.last())
    } else {
        last_error(lines.drop_last())
    }
}

/// The last 200 characters.
pub open spec fn last_200(s: Seq<char>) -> Seq<char> {
    if s.len() <= 200 {
        s
    } else {
        s.skip(s.len() - 200)
    }
}

/// What an error output says: its last error line without the mark, or else its end.
pub open spec fn error_text(stderr: Seq<char>) -> Seq<char> {
    match last_error(pieces(stderr, '\n')) {
        Some(line) => trimmed(without_leading(without_prefixes(line, "ERROR"@), ':')),
        None => last_200(trimmed(stderr)),
    }
}

/// What an error output says: its last error line without the mark, or else its last 200
/// characters.
pub fn extract_error(stderr: &str) -> (r: String)
    ensures
        r@ == error_text(stderr@),
{
    let all: Vec<char> = chars_of(stderr);
    let lines: Vec<Vec<char>> = split(all.as_slice(), '\n');
    let ghost views = pieces(stderr@, '\n');
    let mut i: usize = lines.len();
    proof {
        assert(views.take(i as int) =~= views);
        reveal_strlit("ERROR");
    }
    while i > 0
        invariant
            i <= lines@.len() == views.len(),
            views == pieces(stderr@, '\n'),
            forall|k: int| 0 <= k < lines@.len() ==> (#[trigger] lines@[k])@ == views[k],
            last_error(views) == last_error(views.take(i as int)),
            "ERROR"@.len() > 0,
        decreases i,
    {
        proof {
            assert(views.take(i as int).last() == views[i - 1]);
            assert(views.take(i as int).drop_last() =~= views.take(i - 1));
        }
        let line: &[char] = lines[i - 1].as_slice();
        if has_prefix(line, "ERROR") {
            return string_of(trim(trim_leading(strip_prefixes(line, "ERROR"), ':')));
        }
        i = i - 1;
    }
    let t: &[char] = trim(all.as_slice());
    let n: usize = t.len();
    if n <= 200 {
        return string_of(t);
    }
    let tail: &[char] = slice_subrange(t, n - 200, n);
    proof {
        assert(tail@ =~= t@.skip(n - 200));
    }
    string_of(tail)
}

// ---------------------------------------------------------------------------
// Leftovers
// ---------------------------------------------------------------------------
/// The name of a stream's file, as it stands behind the task's name: `f`, digits, a dot
/// and an extension, and perhaps `.part`.
pub open spec fn fragment(rest: Seq<char>) -> bool {
    let body = without_suffix(rest, ".part"@);
    &&& body.len() > 0
    &&& body[0] == 'f'
    &&& ({
        let after = body.skip(1);
        let dot = first_of(after, '.', '.');
        &&& dot < after.len()
        &&& dot > 0
        &&& all_digits(after.take(dot))
        &&& dot + 1 < after.len()
    })
}

/// Whether `rest` is the name of a stream's file.
pub fn is_fragment_name(rest: &[char]) -> (r: bool)
    ensures
        r == fragment(rest@),
{
    let body: &[char] = strip_suffix(rest, ".part");
    if body.len() == 0 || body[0] != 'f' {
        return false;
    }
    let after: &[char] = slice_subrange(body, 1, body.len());
    proof {
        assert(after@ =~= body@.skip(1));
    }
    let dot: usize = find_first(after, '.', '.');
    if dot >= after.len() || dot == 0 {
        return false;
    }
    let digits: &[char] = slice_subrange(after, 0, dot);
    proof {
        assert(digits@ =~= after@.take(dot as int));
    }
    digits_only(digits) && dot + 1 < after.len()
}

/// Whether a file is what yt-dlp leaves of an unfinished task of the given name: a part
/// file or its state file, with or without another extension before it, or a stream's file.
pub open spec fn leftover(name: Seq<char>, filename: Seq<char>) -> bool {
    match without_prefix(name, filename + "."@) {
        None => false,
        Some(rest) => {
            ||| rest == "part"@
            ||| rest == "ytdl"@
            ||| ".part"@.is_suffix_of(rest)
            ||| ".ytdl"@.is_suffix_of(rest)
            ||| fragment(rest)
        },
    }
}

/// Whether a file is a leftover of the task named `filename`.
pub fn is_leftover(name: &str, filename: &str) -> (r: bool)
    ensures
        r == leftover(name@, filename@),
{
    let prefix: String = cat(filename, ".");
    let all: Vec<char> = chars_of(name);
    match strip_prefix(all.as_slice(), prefix.as_str()) {
        None => false,
        Some(rest) => chars_eq(rest, "part") || chars_eq(rest, "ytdl") || has_suffix(rest, ".part")
            || has_suffix(rest, ".ytdl") || is_fragment_name(rest),
    }
}

/// The places of the leftovers among the names of a directory.
pub open spec fn leftovers(names: Seq<Seq<char>>, filename: Seq<char>) -> Seq<int>
    decreases names.len(),
{
    if names.len() == 0 {
        Seq::empty()
    } else if leftover(names.last(), filename) {
        leftovers(names.drop_last(), filename).push(names.len() - 1)
    } else {
        leftovers(names.drop_last(), filename)
    }
}

/// The places, among the names of a directory, of the files that are to be deleted when a
/// task is cancelled or removed.
pub fn cleanup_partial(names: &Vec<String>, filename: &str) -> (r: Vec<usize>)
    ensures
        r@.map_values(|i: usize| i as int) == leftovers(strings_view(names@), filename@),
{
    let mut out: Vec<usize> = Vec::new();
    let ghost all = strings_view(names@);
    let mut i: usize = 0;
    proof {
        assert(out@.map_values(|i: usize| i as int) =~= leftovers(all.take(0), filename@));
    }
    while i < names.len()
        invariant
            i <= names@.len(),
            all == strings_view(names@),
            out@.map_values(|i: usize| i as int) == leftovers(all.take(i as int), filename@),
        decreases names@.len() - i,
    {
        proof {
            assert(all.take(i + 1).drop_last() =~= all.take(i as int));
            assert(all.take(i + 1).last() == names@[i as int]@);
        }
        let ghost before = out@;
        if is_leftover(names[i].as_str(), filename) {
            out.push(i);
            proof {
                assert(out@.map_values(|i: usize| i as int) =~= before.map_values(
                    |i: usize| i as int,
                ).push(i as int));
            }
        }
        i = i + 1;
    }
    proof {
        assert(all.take(i as int) =~= all);
    }
    out
}

/// A file that does not carry the task's name, followed by a dot, is never a leftover of
/// it.
pub proof fn foreign_files_are_kept(name: Seq<char>, filename: Seq<char>)
    requires
        !(filename + "."@).is_prefix_of(name),
    ensures
        !leftover(name, filename),
{
}

/// A part file and a state file that carry the task's name alone are leftovers.
pub proof fn bare_leftovers_are_deleted(filename: Seq<char>)
    ensures
        leftover(filename + ".part"@, filename),
        leftover(filename + ".ytdl"@, filename),
{
    reveal_strlit(".");
    reveal_strlit("part");
    reveal_strlit("ytdl");
    reveal_strlit(".part");
    reveal_strlit(".ytdl");
    let prefix = filename + "."@;
    let part = filename + ".part"@;
    let ytdl = filename + ".ytdl"@;
    assert(prefix =~= part.subrange(0, prefix.len() as int));
    assert(prefix =~= ytdl.subrange(0, prefix.len() as int));
    assert(part.skip(prefix.len() as int) =~= "part"@);
    assert(ytdl.skip(prefix.len() as int) =~= "ytdl"@);
}

/// The finished file of a task, its name with a plain extension that is none of yt-dlp's
/// own two, is never a leftover, not even where the extension looks like the name of a
/// stream.
pub proof fn finished_file_is_kept(filename: Seq<char>, ext: Seq<char>)
    requires
        !ext.contains('.'),
        ext != "part"@,
        ext != "ytdl"@,
    ensures
        !leftover(filename + "."@ + ext, filename),
{
    reveal_strlit(".");
    reveal_strlit(".part");
    reveal_strlit(".ytdl");
    let name = filename + "."@ + ext;
    let prefix = filename + "."@;
    assert(prefix =~= name.subrange(0, prefix.len() as int));
    assert(name.skip(prefix.len() as int) =~= ext);
    if ".part"@.is_suffix_of(ext) {
        assert(ext[ext.len() - 5] == ".part"@[0]);
        assert(ext.contains('.'));
    }
    if ".ytdl"@.is_suffix_of(ext) {
        assert(ext[ext.len() - 5] == ".ytdl"@[0]);
        assert(ext.contains('.'));
    }
    if ext.len() > 0 {
        let after = ext.skip(1);
        assert(forall|i: int| 0 <= i < after.len() ==> after[i] == ext[i + 1]);
        assert(!after.contains('.'));
        first_of_none(after, '.', '.');
    }
}

// ---------------------------------------------------------------------------
// Progress
// ---------------------------------------------------------------------------
/// The larger of two numbers.
pub open spec fn larger(a: u64, b: int) -> u64 {
    if a >= b {
        a
    } else {
        b as u64
    }
}

/// A snapshot after a line of output. What has been downloaded and the total never
/// shrink: the second stream of a video counts from 0 again.
pub open spec fn after_line(s: SnapshotView, line: Seq<char>) -> SnapshotView {
    match line_view(line) {
        Some(p) => SnapshotView {
            downloaded: larger(s.downloaded, p.downloaded),
            total: match p.total {
                Some(t) => larger(s.total, t),
                None => s.total,
            },
            speed: match p.speed {
                Some(v) => v as u64,
                None => 0,
            },
            ..s
        },
        None => if announces_merge(line) {
            SnapshotView { merging: true, speed: 0, ..s }
        } else {
            s
        },
    }
}

/// Takes a line of output into the snapshot.
pub fn apply_line(snap: &mut ProgressSnapshot, line: &str)
    ensures
        final(snap)@ == after_line(old(snap)@, line@),
{
    match parse_progress_line(line) {
        Some(p) => {
            if p.downloaded > snap.downloaded {
                snap.downloaded = p.downloaded;
            }
            if let Some(t) = p.total {
                if t > snap.total {
                    snap.total = t;
                }
            }
            snap.speed = match p.speed {
                Some(v) => v,
                None => 0,
            };
        },
        None => {
            if is_merge_line(line) {
                snap.merging = true;
                snap.speed = 0;
            }
        },
    }
}

/// A snapshot after several lines of output.
pub open spec fn after_lines(s: SnapshotView, lines: Seq<Seq<char>>) -> SnapshotView
    decreases lines.len(),
{
    if lines.len() == 0 {
        s
    } else {
        after_line(after_lines(s, lines.drop_last()), lines.last())
    }
}

/// Takes the lines that are still waiting when a process has ended into the snapshot.
pub fn drain_lines(snap: &mut ProgressSnapshot, lines: &Vec<String>)
    ensures
        final(snap)@ == after_lines(old(snap)@, strings_view(lines@)),
{
    let ghost all = strings_view(lines@);
    let ghost start = snap@;
    let mut i: usize = 0;
    while i < lines.len()
        invariant
            i <= lines@.len(),
            all == strings_view(lines@),
            snap@ == after_lines(start, all.take(i as int)),
        decreases lines@.len() - i,
    {
        proof {
            assert(all.take(i + 1).drop_last() =~= all.take(i as int));
            assert(all.take(i + 1).last() == lines@[i as int]@);
        }
        apply_line(snap, lines[i].as_str());
        i = i + 1;
    }
    proof {
        assert(all.take(i as int) =~= all);
    }
}

/// Progress never goes back, whatever yt-dlp prints.
pub proof fn progress_never_regresses(s: SnapshotView, lines: Seq<Seq<char>>)
    ensures
        after_lines(s, lines).downloaded >= s.downloaded,
        after_lines(s, lines).total >= s.total,
        s.merging ==> after_lines(s, lines).merging,
        after_lines(s, lines).state == s.state,
        after_lines(s, lines).filename == s.filename,
    decreases lines.len(),
{
    if lines.len() > 0 {
        progress_never_regresses(s, lines.drop_last());
    }
}

// ---------------------------------------------------------------------------
// The life of a task
// ---------------------------------------------------------------------------
/// What a video task is waiting for.
#[derive(Debug, Clone, Copy, PartialEq, Eq, Structural)]
pub enum VideoPhase {
    /// The process is being started.
    Starting,
    /// The process is at work; control messages are read.
    Running,
    /// The process has been killed to pause the task.
    Pausing,
    /// The process has been killed to cancel the task.
    Cancelling,
    /// There is no process; a control message is waited for.
    Paused,
    /// The task is over.
    Ended,
}

/// What is to be done for a video task.
#[derive(Debug, Clone, Copy, PartialEq, Eq, Structural)]
pub enum VideoStep {
    /// Go on waiting.
    Wait,
    /// Send the snapshot, and go on waiting.
    Publish,
    /// Kill the process for this reason and wait for its end.
    Kill(KillReason),
    /// Send the snapshot and start the process anew.
    Restart,
    /// Delete the leftovers where `cleanup` says so, then send the snapshot: the task is
    /// over.
    End { cleanup: bool },
}

/// A video task.
#[derive(Debug)]
pub struct VideoTask {
    pub phase: VideoPhase,
    pub snapshot: ProgressSnapshot,
    /// The task's own file name; without one its leftovers cannot be told from others.
    pub filename: Option<String>,
}

pub struct VideoTaskView {
    pub phase: VideoPhase,
    pub snapshot: SnapshotView,
    pub filename: Option<Seq<char>>,
}

impl View for VideoTask {
    type V = VideoTaskView;

    open spec fn view(&self) -> VideoTaskView {
        VideoTaskView {
            phase: self.phase,
            snapshot: self.snapshot@,
            filename: opt_view(self.filename),
        }
    }
}

/// A task and what is to be done for it.
pub struct VideoTurn {
    pub task: VideoTaskView,
    pub step: VideoStep,
}

/// The end of a task with the given snapshot.
pub open spec fn ended(t: VideoTaskView, s: SnapshotView, cleanup: bool) -> VideoTurn {
    VideoTurn {
        task: VideoTaskView { phase: VideoPhase::Ended, snapshot: s, ..t },
        step: VideoStep::End { cleanup: cleanup && t.filename is Some },
    }
}

/// What is said of a process that failed: its error output, or else its exit code.
pub open spec fn failure_text(res: RunView) -> Seq<char> {
    let text = error_text(res.stderr_tail);
    if text.len() > 0 {
        text
    } else {
        "yt-dlp 退出码 "@ + match res.code {
            Some(c) => signed_decimal(c as int),
            None => "未知"@,
        }
    }
}

/// What follows on the attempt to start the process.
pub open spec fn started(t: VideoTaskView, outcome: Result<(), SparklingError>) -> VideoTurn {
    match outcome {
        Ok(_) => VideoTurn {
            task: VideoTaskView {
                phase: VideoPhase::Running,
                snapshot: SnapshotView { merging: false, ..t.snapshot },
                ..t
            },
            step: VideoStep::Wait,
        },
        Err(e) => ended(
            t,
            SnapshotView {
                state: TaskState::Failed,
                error: Some(e@.message()),
                ..t.snapshot
            },
            false,
        ),
    }
}

/// What follows on a control message, or on the loss of whoever could send one (which
/// cancels). Pausing again and resuming what is not paused do nothing.
pub open spec fn video_controlled(t: VideoTaskView, msg: Option<ControlMsg>) -> VideoTurn {
    let wait = VideoTurn { task: t, step: VideoStep::Wait };
    match msg {
        Some(ControlMsg::Pause) => if t.phase is Running {
            VideoTurn {
                task: VideoTaskView { phase: VideoPhase::Pausing, ..t },
                step: VideoStep::Kill(KillReason::Pause),
            }
        } else {
            wait
        },
        Some(ControlMsg::Resume) => if t.phase is Paused {
            VideoTurn {
                task: VideoTaskView {
                    phase: VideoPhase::Starting,
                    snapshot: SnapshotView { state: TaskState::Running, ..t.snapshot },
                    ..t
                },
                step: VideoStep::Restart,
            }
        } else {
            wait
        },
        _ => if t.phase is Running {
            VideoTurn {
                task: VideoTaskView { phase: VideoPhase::Cancelling, ..t },
                step: VideoStep::Kill(KillReason::Cancel),
            }
        } else {
            ended(t, SnapshotView { state: TaskState::Cancelled, ..t.snapshot }, true)
        },
    }
}

/// What follows on the end of the process, given its result (`None` where its supervision
/// was lost) and the lines that were still waiting. A kill counts before the exit code.
pub open spec fn exited(
    t: VideoTaskView,
    result: Option<RunView>,
    rest: Seq<Seq<char>>,
) -> VideoTurn {
    if t.phase is Cancelling {
        ended(t, SnapshotView { state: TaskState::Cancelled, speed: 0, ..t.snapshot }, true)
    } else {
        let s = after_lines(t.snapshot, rest);
        match result {
            None => ended(t, SnapshotView { state: TaskState::Cancelled, ..s }, true),
            Some(res) => if res.killed == Some(KillReason::Pause) {
                VideoTurn {
                    task: VideoTaskView {
                        phase: VideoPhase::Paused,
                        snapshot: SnapshotView { state: TaskState::Paused, speed: 0, ..s },
                        ..t
                    },
                    step: VideoStep::Publish,
                }
            } else if res.killed == Some(KillReason::Cancel) {
                ended(t, SnapshotView { state: TaskState::Cancelled, ..s }, true)
            } else if res.code == Some(0i32) {
                ended(t, SnapshotView { state: TaskState::Completed, speed: 0, ..s }, false)
            } else {
                ended(
                    t,
                    SnapshotView {
                        state: TaskState::Failed,
                        error: Some(failure_text(res)),
                        ..s
                    },
                    false,
                )
            },
        }
    }
}

/// An optional run result seen through its view.
pub open spec fn opt_run_view(r: Option<RunResult>) -> Option<RunView> {
    match r {
        Some(x) => Some(x@),
        None => None,
    }
}

/// What is said of a process that failed.
pub fn failure_message(res: &RunResult) -> (r: String)
    ensures
        r@ == failure_text(res@),
{
    let text: String = extract_error(res.stderr_tail.as_str());
    if !text.as_str().is_empty() {
        return text;
    }
    let code: String = match res.code {
        Some(c) => signed_decimal_of(c),
        None => "未知".to_owned(),
    };
    cat("yt-dlp 退出码 ", code.as_str())
}

impl VideoTask {
    /// A task that is about to start its first process.
    pub fn new(snapshot: ProgressSnapshot, filename: Option<String>) -> (r: Self)
        ensures
            r@ == (VideoTaskView {
                phase: VideoPhase::Starting,
                snapshot: snapshot@,
                filename: opt_view(filename),
            }),
    {
        VideoTask { phase: VideoPhase::Starting, snapshot, filename }
    }

    fn end(&mut self, state: TaskState, cleanup: bool) -> (r: VideoStep)
        ensures
            (VideoTurn { task: final(self)@, step: r }) == ended(
                old(self)@,
                SnapshotView { state, ..old(self)@.snapshot },
                cleanup,
            ),
    {
        self.phase = VideoPhase::Ended;
        self.snapshot.state = state;
        VideoStep::End { cleanup: cleanup && self.filename.is_some() }
    }

    /// What follows on the attempt to start the process.
    pub fn on_started(&mut self, outcome: Result<(), SparklingError>) -> (r: VideoStep)
        requires
            old(self).phase is Starting,
        ensures
            (VideoTurn { task: final(self)@, step: r }) == started(old(self)@, outcome),
    {
        match outcome {
            Ok(_) => {
                self.phase = VideoPhase::Running;
                self.snapshot.merging = false;
                VideoStep::Wait
            },
            Err(e) => {
                self.snapshot.error = Some(e.user_message());
                self.end(TaskState::Failed, false)
            },
        }
    }

    /// What follows on a line of output.
    pub fn on_line(&mut self, line: &str) -> (r: VideoStep)
        requires
            old(self).phase is Running,
        ensures
            r is Publish,
            final(self)@ == (VideoTaskView {
                snapshot: after_line(old(self)@.snapshot, line@),
                ..old(self)@
            }),
    {
        apply_line(&mut self.snapshot, line);
        VideoStep::Publish
    }

    /// What follows on a control message; `None` says that no more can come.
    pub fn on_control(&mut self, msg: Option<ControlMsg>) -> (r: VideoStep)
        requires
            old(self).phase is Running || old(self).phase is Paused,
        ensures
            (VideoTurn { task: final(self)@, step: r }) == video_controlled(old(self)@, msg),
    {
        match msg {
            Some(ControlMsg::Pause) => {
                if self.phase == VideoPhase::Running {
                    self.phase = VideoPhase::Pausing;
                    VideoStep::Kill(KillReason::Pause)
                } else {
                    VideoStep::Wait
                }
            },
            Some(ControlMsg::Resume) => {
                if self.phase == VideoPhase::Paused {
                    self.phase = VideoPhase::Starting;
                    self.snapshot.state = TaskState::Running;
                    VideoStep::Restart
                } else {
                    VideoStep::Wait
                }
            },
            _ => {
                if self.phase == VideoPhase::Running {
                    self.phase = VideoPhase::Cancelling;
                    VideoStep::Kill(KillReason::Cancel)
                } else {
                    self.end(TaskState::Cancelled, true)
                }
            },
        }
    }

    /// What follows on the end of the process.
    pub fn on_exit(&mut self, result: Option<RunResult>, rest: &Vec<String>) -> (r: VideoStep)
        requires
            old(self).phase is Running || old(self).phase is Pausing || old(self).phase is Cancelling,
        ensures
            (VideoTurn { task: final(self)@, step: r }) == exited(
                old(self)@,
                opt_run_view(result),
                strings_view(rest@),
            ),
    {
        if self.phase == VideoPhase::Cancelling {
            self.snapshot.speed = 0;
            return self.end(TaskState::Cancelled, true);
        }
        drain_lines(&mut self.snapshot, rest);
        let res: RunResult = match result {
            Some(res) => res,
            None => {
                return self.end(TaskState::Cancelled, true);
            },
        };
        match res.killed {
            Some(KillReason::Pause) => {
                self.phase = VideoPhase::Paused;
                self.snapshot.state = TaskState::Paused;
                self.snapshot.speed = 0;
                VideoStep::Publish
            },
            Some(KillReason::Cancel) => self.end(TaskState::Cancelled, true),
            None => {
                let success: bool = match res.code {
                    Some(c) => c == 0,
                    None => false,
                };
                if success {
                    self.snapshot.speed = 0;
                    self.end(TaskState::Completed, false)
                } else {
                    self.snapshot.error = Some(failure_message(&res));
                    self.end(TaskState::Failed, false)
                }
            },
        }
    }
}

// ---------------------------------------------------------------------------
// Laws
// ---------------------------------------------------------------------------
/// Every command line asks yt-dlp to go on from its part files, and ends with the URL.
pub proof fn every_run_continues(
    spec: TaskSpec,
    out: Seq<char>,
    ffmpeg: Option<Seq<char>>,
    cookie: Option<Seq<char>>,
    limit: Option<u64>,
)
    ensures
        command_line(spec, out, ffmpeg, cookie, limit).contains("-c"@),
        command_line(spec, out, ffmpeg, cookie, limit).last() == spec.url@,
{
    let line = command_line(spec, out, ffmpeg, cookie, limit);
    assert(line[2] == "-c"@);
}

/// The output of a task with a plain name, or with none, goes to the task's directory.
pub proof fn output_stays_in_directory(
    save_dir: Seq<char>,
    filename: Option<Seq<char>>,
    out: Seq<char>,
)
    requires
        filename is Some ==> plain_name(filename->0),
        !verbatim(save_dir),
        is_joined(save_dir, output_name(filename), out),
    ensures
        extends(save_dir, output_name(filename), out),
{
    let name = output_name(filename);
    match filename {
        Some(f) => {
            reveal_strlit(".%(ext)s");
            let tail = ".%(ext)s"@;
            assert forall|i: int| 0 <= i < name.len() implies name[i] != '/' && name[i] != '\\' by {
                if i < f.len() {
                    assert(name[i] == f[i]);
                    assert(f.contains(f[i]));
                } else {
                    assert(name[i] == tail[i - f.len()]);
                }
            }
            assert(name.len() >= 9);
            if f.len() >= 2 {
                assert(name[1] == f[1]);
            } else {
                assert(name[1] == tail[0]);
            }
        },
        None => {
            reveal_strlit("%(title).200B [%(id)s].%(ext)s");
            assert(forall|i: int|
                0 <= i < name.len() ==> name[i] != '/' && name[i] != '\\');
            assert(name[1] == '(');
        },
    }
    assert(plain_name(name));
}

/// A killed process is never taken for a completed or failed one, whatever its exit code.
pub proof fn kill_counts_before_code(t: VideoTaskView, res: RunView, rest: Seq<Seq<char>>)
    requires
        t.phase is Running || t.phase is Pausing || t.phase is Cancelling,
        res.killed is Some,
    ensures
        exited(t, Some(res), rest).task.snapshot.state is Paused || exited(
            t,
            Some(res),
            rest,
        ).task.snapshot.state is Cancelled,
{
    match res.killed->0 {
        KillReason::Pause => {},
        KillReason::Cancel => {},
    }
}

/// Pausing a running task and resuming it starts the process again and keeps the
/// progress.
pub proof fn pause_and_resume_keep_progress(
    t: VideoTaskView,
    res: RunView,
    rest: Seq<Seq<char>>,
)
    requires
        t.phase is Running,
        res.killed == Some(KillReason::Pause),
    ensures
        ({
            let a = video_controlled(t, Some(ControlMsg::Pause));
            let b = exited(a.task, Some(res), rest);
            let c = video_controlled(b.task, Some(ControlMsg::Resume));
            &&& a.step == VideoStep::Kill(KillReason::Pause)
            &&& b.task.snapshot.state is Paused
            &&& b.task.snapshot.speed == 0
            &&& c.step is Restart
            &&& c.task.snapshot.state is Running
            &&& c.task.snapshot.downloaded >= t.snapshot.downloaded
            &&& c.task.snapshot.total >= t.snapshot.total
            &&& c.task.filename == t.filename
        }),
{
    progress_never_regresses(t.snapshot, rest);
}

/// Cancelling ends the task as cancelled, and its leftovers are deleted where they can be
/// told by its name; a task that completes or fails keeps its files.
pub proof fn only_cancelling_deletes(
    t: VideoTaskView,
    result: Option<RunView>,
    rest: Seq<Seq<char>>,
)
    requires
        t.phase is Running || t.phase is Pausing || t.phase is Cancelling,
    ensures
        exited(t, result, rest).step is End ==> (exited(t, result, rest).step->cleanup <==> exited(
            t,
            result,
            rest,
        ).task.snapshot.state is Cancelled && t.filename is Some),
{
}

/// The output of a task with a name is that name with yt-dlp's extension behind it, and of one
/// without a name the title and the identifier.
pub proof fn output_carries_the_name(f: Seq<char>)
    ensures
        f.is_prefix_of(output_name(Some(f))),
        output_name(Some(f)).skip(f.len() as int) == seq!['.', '%', '(', 'e', 'x', 't', ')', 's'],
        output_name(None) == "%(title).200B [%(id)s].%(ext)s"@,
{
    reveal_strlit(".%(ext)s");
    let name = output_name(Some(f));
    assert(name.take(f.len() as int) =~= f);
    assert(name.skip(f.len() as int) =~= seq!['.', '%', '(', 'e', 'x', 't', ')', 's']);
}

/// A process keeps every limit that is set: its own is no more than the task's and no more
/// than that of all tasks, and it is one of the two. There is none only where neither is set.
pub proof fn both_limits_are_kept(own: Option<u64>, global: Option<u64>)
    ensures
        run_limit(own, global) is None <==> own is None && global is None,
        own is Some ==> run_limit(own, global)->0 <= own->0,
        global is Some ==> run_limit(own, global)->0 <= global->0,
        run_limit(own, global) == own || run_limit(own, global) == global,
{
}

/// A limit is handed to yt-dlp in whole kibibytes, rounded down.
pub proof fn limits_are_given_in_kibibytes(limit: u64)
    ensures
        limit_text(None) is None,
        limit_text(Some(limit)) is Some,
        ({
            let text = limit_text(Some(limit))->0;
            let n = digits_value(text.drop_last());
            &&& text.last() == 'K'
            &&& text.len() > 1
            &&& all_digits(text.drop_last())
            &&& n * 1024 <= limit
            &&& limit < (n + 1) * 1024
        }),
{
    reveal_strlit("K");
    let k = (limit / 1024) as nat;
    decimal_reads_back(k, u64::MAX as nat);
    let text = limit_text(Some(limit))->0;
    assert(text.drop_last() =~= decimal(k));
}

/// The command line names the format, the output and the page, and asks for what every run
/// needs: to go on from part files, one progress line at a time under the template, ten
/// retries, and no file times. The other flags stand there exactly where there is something to
/// hand over: the place of ffmpeg, the cookies, the limit, the languages of subtitles, and
/// that generated ones are wanted.
pub proof fn command_line_hands_everything_over(
    spec: TaskSpec,
    out: Seq<char>,
    ffmpeg: Option<Seq<char>>,
    cookie: Option<Seq<char>>,
    limit: Option<u64>,
)
    requires
        spec.video is Some,
    ensures
        ({
            let line = command_line(spec, out, ffmpeg, cookie, limit);
            let video = spec.video->0;
            let a: int = if ffmpeg is Some {
                13
            } else {
                11
            };
            let b: int = if cookie is Some {
                a + 2
            } else {
                a
            };
            let c: int = if spec.max_speed is Some || limit is Some {
                b + 2
            } else {
                b
            };
            let d: int = if video.subtitles@.len() > 0 {
                c + 3
            } else {
                c
            };
            let e: int = if video.auto_subs {
                d + 1
            } else {
                d
            };
            &&& line.len() == e + 1
            &&& line[0] == "-f"@ && line[1] == video.format@
            &&& line[2] == "-c"@
            &&& line[3] == "--newline"@
            &&& line[4] == "--no-mtime"@
            &&& line[5] == "--retries"@ && line[6] == "10"@
            &&& line[7] == "--progress-template"@
            &&& line[8]
                == "download:SPARKLING|%(progress.downloaded_bytes)s|%(progress.total_bytes)s|%(progress.total_bytes_estimate)s|%(progress.speed)s"@
            &&& line[9] == "-o"@ && line[10] == out
            &&& ffmpeg is Some ==> line[11] == "--ffmpeg-location"@ && line[12] == ffmpeg->0
            &&& cookie is Some ==> line[a] == "--cookies"@ && line[a + 1] == cookie->0
            &&& spec.max_speed is Some || limit is Some ==> line[b] == "-r"@ && Some(line[b + 1])
                == limit_text(run_limit(spec.max_speed, limit))
            &&& video.subtitles@.len() > 0 ==> line[c] == "--write-subs"@ && line[c + 1]
                == "--sub-langs"@ && line[c + 2] == joined(strings_view(video.subtitles@), ","@)
            &&& video.auto_subs ==> line[d] == "--write-auto-subs"@
            &&& line[e] == spec.url@
        }),
{
    let video = spec.video->0;
    assert(strings_view(video.subtitles@).len() == video.subtitles@.len());
}

/// What an error output says is its last line that begins with "ERROR".
pub proof fn last_error_line_counts(lines: Seq<Seq<char>>, k: int)
    requires
        -1 <= k < lines.len(),
        forall|j: int| k < j < lines.len() ==> !"ERROR"@.is_prefix_of(#[trigger] lines[j]),
        k >= 0 ==> "ERROR"@.is_prefix_of(lines[k]),
    ensures
        k >= 0 ==> last_error(lines) == Some(lines[k]),
        k == -1 ==> last_error(lines) is None,
    decreases lines.len(),
{
    if lines.len() > 0 && k < lines.len() - 1 {
        let front = lines.drop_last();
        assert forall|j: int| k < j < front.len() implies !"ERROR"@.is_prefix_of(
            #[trigger] front[j],
        ) by {
            assert(front[j] == lines[j]);
        }
        assert(!"ERROR"@.is_prefix_of(lines[lines.len() - 1]));
        if k >= 0 {
            assert(front[k] == lines[k]);
        }
        last_error_line_counts(front, k);
    }
}

/// Of an error line the text behind the mark, the colon and the blank is shown.
pub proof fn error_lines_lose_their_mark(stderr: Seq<char>, text: Seq<char>)
    requires
        last_error(pieces(stderr, '\n')) == Some("ERROR: "@ + text),
        text.len() > 0 ==> !is_white(text[0]) && !is_white(text.last()),
    ensures
        error_text(stderr) == text,
{
    reveal_strlit("ERROR");
    reveal_strlit("ERROR: ");
    let mark = "ERROR"@;
    let rest = seq![':'] + (seq![' '] + text);
    let line = "ERROR: "@ + text;
    assert(line =~= mark + rest);
    assert(rest[0] == ':');
    assert(mark[0] == 'E');
    assert(!mark.is_prefix_of(rest));
    repeated_prefix_comes_off(rest, mark);
    let blank = seq![' '] + text;
    assert(blank[0] == ' ');
    repeated_character_comes_off(blank, ':');
    let (i, j) = trimming_keeps_the_core(blank);
    assert(is_white(' '));
    if text.len() > 0 {
        assert(blank[1] == text[0]);
        assert(blank[blank.len() - 1] == text.last());
        assert(i == 1);
        assert(j == blank.len());
    } else {
        if i < j {
            assert(!is_white(blank[i]));
        }
    }
    assert(blank.subrange(i, j) =~= text);
}

/// Without an error line the output itself is shown, without white space around it: all of it
/// up to 200 characters, of a longer one the last 200.
pub proof fn other_output_is_shown_from_its_end(stderr: Seq<char>)
    requires
        last_error(pieces(stderr, '\n')) is None,
    ensures
        trimmed(stderr).len() <= 200 ==> error_text(stderr) == trimmed(stderr),
        trimmed(stderr).len() > 200 ==> error_text(stderr).len() == 200 && error_text(
            stderr,
        ).is_suffix_of(trimmed(stderr)),
{
}

/// A leftover is a file that carries the task's name, a dot, and behind it `part` or `ytdl`,
/// alone or behind another dot, or else the name of a stream.
pub proof fn leftovers_by_their_names(filename: Seq<char>, rest: Seq<char>)
    ensures
        rest == "part"@ || rest == "ytdl"@ ==> leftover(filename + "."@ + rest, filename),
        leftover(filename + "."@ + (rest + ".part"@), filename),
        leftover(filename + "."@ + (rest + ".ytdl"@), filename),
        fragment(rest) ==> leftover(filename + "."@ + rest, filename),
        leftover(filename + "."@ + rest, filename) ==> rest == "part"@ || rest == "ytdl"@
            || ".part"@.is_suffix_of(rest) || ".ytdl"@.is_suffix_of(rest) || (rest.len() >= 2
            && rest[0] == 'f' && is_digit(rest[1])),
{
    let head = filename + "."@;
    prefix_comes_off(head, head, rest);
    let p = rest + ".part"@;
    let y = rest + ".ytdl"@;
    prefix_comes_off(head, head, p);
    prefix_comes_off(head, head, y);
    assert(p.skip(p.len() - ".part"@.len()) =~= ".part"@);
    assert(y.skip(y.len() - ".ytdl"@.len()) =~= ".ytdl"@);
    if fragment(rest) && !".part"@.is_suffix_of(rest) {
        let after = rest.skip(1);
        let dot = first_of(after, '.', '.');
        assert(after.take(dot)[0] == rest[1]);
        assert(is_digit(after.take(dot)[0]));
    }
}

/// The file of a stream is the letter f and digits, a dot and an extension, finished or not.
pub proof fn streams_by_their_names(digits: Seq<char>, ext: Seq<char>)
    requires
        digits.len() > 0,
        all_digits(digits),
        ext.len() > 0,
        !ext.contains('.'),
        ext != "part"@,
    ensures
        fragment(seq!['f'] + digits.push('.') + ext),
        fragment(seq!['f'] + digits.push('.') + ext + ".part"@),
{
    reveal_strlit(".part");
    let name = seq!['f'] + digits.push('.') + ext;
    let part = ".part"@;
    suffix_comes_off(name, part, name);
    if part.is_suffix_of(name) {
        // A dot five characters before the end is the one before the extension.
        assert(name[name.len() - 5] == '.');
        assert(name.skip(name.len() - 5) =~= part);
        let at = digits.len() + 1;
        if name.len() - 5 > at {
            assert(name[name.len() - 5] == ext[name.len() - 5 - at - 1]);
            assert(ext.contains('.'));
        } else if name.len() - 5 < at {
            if name.len() - 5 > 0 {
                assert(name[name.len() - 5] == digits[name.len() - 6]);
                assert(is_digit(digits[name.len() - 6]));
            }
        } else {
            reveal_strlit("part");
            assert(ext =~= "part"@) by {
                assert forall|i: int| 0 <= i < 4 implies ext[i] == "part"@[i] by {
                    assert(name.skip(name.len() - 5)[i + 1] == part[i + 1]);
                    assert(name[name.len() - 5 + i + 1] == ext[i]);
                }
            }
        }
    }
    let after = name.skip(1);
    assert(after =~= digits.push('.') + ext);
    let dot = first_of(after, '.', '.');
    first_place_is_found(after, '.', '.');
    assert(after[digits.len() as int] == '.');
    assert(dot <= digits.len());
    if dot < digits.len() {
        assert(after[dot] == digits[dot]);
        assert(is_digit(digits[dot]));
    }
    assert(after.take(dot) =~= digits);
}

/// Of the names in a directory exactly the leftovers are deleted.
pub proof fn exactly_the_leftovers_are_deleted(
    names: Seq<Seq<char>>,
    filename: Seq<char>,
    i: int,
)
    ensures
        leftovers(names, filename).contains(i) <==> 0 <= i < names.len() && leftover(
            names[i],
            filename,
        ),
        forall|a: int, b: int|
            0 <= a < b < leftovers(names, filename).len() ==> #[trigger] leftovers(
                names,
                filename,
            )[a] < #[trigger] leftovers(names, filename)[b],
        forall|a: int|
            0 <= a < leftovers(names, filename).len() ==> 0 <= #[trigger] leftovers(
                names,
                filename,
            )[a] < names.len(),
    decreases names.len(),
{
    if names.len() > 0 {
        let front = names.drop_last();
        exactly_the_leftovers_are_deleted(front, filename, i);
        let before = leftovers(front, filename);
        let all = leftovers(names, filename);
        let n = names.len() - 1;
        if leftover(names.last(), filename) {
            assert(all[before.len() as int] == n);
            if before.contains(i) {
                let k = choose|k: int| 0 <= k < before.len() && before[k] == i;
                assert(all[k] == i);
            }
            if all.contains(i) && i != n {
                let k = choose|k: int| 0 <= k < all.len() && all[k] == i;
                assert(before[k] == i);
            }
        }
        if 0 <= i < n {
            assert(front[i] == names[i]);
        }
    }
}

/// A progress line sets the speed, 0 where it has none, and raises what has been downloaded
/// and the total to its own where they are less. A line that announces a merge is taken note
/// of, and any other changes nothing. The state, the name, the error and the segments stay.
pub proof fn lines_raise_the_progress(s: SnapshotView, line: Seq<char>)
    ensures
        ({
            let t = after_line(s, line);
            &&& t.state == s.state
            &&& t.error == s.error
            &&& t.filename == s.filename
            &&& t.segments == s.segments
            &&& line_view(line) is Some ==> {
                let p = line_view(line)->0;
                &&& 0 <= p.downloaded <= u64::MAX ==> t.downloaded == if p.downloaded
                    > s.downloaded {
                    p.downloaded
                } else {
                    s.downloaded as int
                }
                &&& p.total is None ==> t.total == s.total
                &&& p.total is Some && 0 <= p.total->0 <= u64::MAX ==> t.total == if p.total->0
                    > s.total {
                    p.total->0
                } else {
                    s.total as int
                }
                &&& p.speed is None ==> t.speed == 0
                &&& p.speed is Some && 0 <= p.speed->0 <= u64::MAX ==> t.speed == p.speed->0
                &&& t.merging == s.merging
            }
            &&& line_view(line) is None ==> {
                &&& t.downloaded == s.downloaded
                &&& t.total == s.total
                &&& announces_merge(line) ==> t.merging && t.speed == 0
                &&& !announces_merge(line) ==> t == s
            }
        }),
{
}

/// A process that starts makes the task run, with no merge under way; one that cannot be
/// started makes it fail with the error's message, and nothing is deleted.
pub proof fn starting_decides(t: VideoTaskView, e: SparklingError)
    ensures
        ({
            let ok = started(t, Ok(()));
            let err = started(t, Err(e));
            &&& ok.step is Wait
            &&& ok.task.phase is Running
            &&& !ok.task.snapshot.merging
            &&& ok.task.snapshot.downloaded == t.snapshot.downloaded
            &&& ok.task.snapshot.total == t.snapshot.total
            &&& ok.task.snapshot.state == t.snapshot.state
            &&& ok.task.filename == t.filename
            &&& ok.task.snapshot == (SnapshotView { merging: false, ..t.snapshot })
            &&& err.step == (VideoStep::End { cleanup: false })
            &&& err.task.phase is Ended
            &&& err.task.snapshot.state is Failed
            &&& err.task.snapshot.error == Some(e@.message())
            &&& err.task.snapshot.downloaded == t.snapshot.downloaded
        }),
{
}

/// A message is heeded where it can be: a running process is killed to pause or to cancel the
/// task, for that reason; a paused task is started again as running; a paused one that is
/// cancelled ends at once, and its leftovers are deleted where it has a name. Pausing what is
/// paused and resuming what runs change nothing. The progress stays.
pub proof fn video_messages_are_heeded(t: VideoTaskView, msg: Option<ControlMsg>)
    requires
        t.phase is Running || t.phase is Paused,
    ensures
        ({
            let r = video_controlled(t, msg);
            let cancels = msg is None || msg == Some(ControlMsg::Cancel);
            &&& r.task.snapshot.downloaded == t.snapshot.downloaded
            &&& r.task.snapshot.total == t.snapshot.total
            &&& r.task.filename == t.filename
            &&& msg == Some(ControlMsg::Pause) && t.phase is Running ==> r.step == VideoStep::Kill(
                KillReason::Pause,
            ) && r.task.phase is Pausing && r.task.snapshot == t.snapshot
            &&& msg == Some(ControlMsg::Pause) && t.phase is Paused ==> r.step is Wait && r.task
                == t
            &&& msg == Some(ControlMsg::Resume) && t.phase is Paused ==> r.step is Restart
                && r.task.phase is Starting && r.task.snapshot == (SnapshotView {
                state: TaskState::Running,
                ..t.snapshot
            })
            &&& msg == Some(ControlMsg::Resume) && t.phase is Running ==> r.step is Wait && r.task
                == t
            &&& cancels && t.phase is Running ==> r.step == VideoStep::Kill(KillReason::Cancel)
                && r.task.phase is Cancelling && r.task.snapshot == t.snapshot
            &&& cancels && t.phase is Paused ==> r.step == (VideoStep::End {
                cleanup: t.filename is Some,
            }) && r.task.phase is Ended && r.task.snapshot == (SnapshotView {
                state: TaskState::Cancelled,
                ..t.snapshot
            })
        }),
{
}

/// When the process has ended, a task that is being cancelled, or whose process was killed for
/// that or lost its supervision, ends as cancelled. One that was killed to pause is paused.
/// Otherwise it is completed exactly where the process exited with 0, and has failed where it
/// did not, with what its error output says. The lines that were still waiting count, except
/// where the task is being cancelled.
pub proof fn exit_decides(t: VideoTaskView, result: Option<RunView>, rest: Seq<Seq<char>>)
    requires
        t.phase is Running || t.phase is Pausing || t.phase is Cancelling,
    ensures
        ({
            let r = exited(t, result, rest);
            let s = r.task.snapshot;
            let cancelled = t.phase is Cancelling || result is None || result->0.killed == Some(
                KillReason::Cancel,
            );
            let paused = !cancelled && result->0.killed == Some(KillReason::Pause);
            let free = !cancelled && !paused;
            &&& r.task.filename == t.filename
            &&& cancelled <==> s.state is Cancelled
            &&& cancelled ==> r.task.phase is Ended && r.step == (VideoStep::End {
                cleanup: t.filename is Some,
            })
            &&& paused ==> r.task.phase is Paused && r.step is Publish && s.state is Paused
                && s.speed == 0
            &&& free && result->0.code == Some(0i32) ==> r.task.phase is Ended && r.step == (
            VideoStep::End { cleanup: false }) && s.state is Completed && s.speed == 0
            &&& free && result->0.code != Some(0i32) ==> r.task.phase is Ended && r.step == (
            VideoStep::End { cleanup: false }) && s.state is Failed && s.error == Some(
                failure_text(result->0),
            )
            &&& t.phase is Cancelling ==> s.downloaded == t.snapshot.downloaded && s.total
                == t.snapshot.total
            &&& !(t.phase is Cancelling) ==> s.downloaded == after_lines(
                t.snapshot,
                rest,
            ).downloaded && s.total == after_lines(t.snapshot, rest).total
            &&& s.filename == t.snapshot.filename
            &&& s.segments == t.snapshot.segments
            &&& !(s.state is Failed) ==> s.error == t.snapshot.error
        }),
{
    progress_never_regresses(t.snapshot, rest);
    lines_keep_the_rest(t.snapshot, rest);
    if result is Some && result->0.killed is Some {
        match result->0.killed->0 {
            KillReason::Pause => {},
            KillReason::Cancel => {},
        }
    }
}

/// Lines are taken one after the other.
pub proof fn lines_are_taken_in_order(s: SnapshotView, lines: Seq<Seq<char>>, line: Seq<char>)
    ensures
        after_lines(s, Seq::<Seq<char>>::empty()) == s,
        after_lines(s, lines.push(line)) == after_line(after_lines(s, lines), line),
{
    assert(lines.push(line).drop_last() =~= lines);
}

/// Of a failed process its error output is shown, and where that says nothing its exit code.
pub proof fn failures_are_explained(res: RunView)
    ensures
        error_text(res.stderr_tail).len() > 0 ==> failure_text(res) == error_text(res.stderr_tail),
        error_text(res.stderr_tail).len() == 0 && res.code is Some ==> failure_text(res)
            == "yt-dlp 退出码 "@ + signed_decimal(res.code->0 as int),
        error_text(res.stderr_tail).len() == 0 && res.code is None ==> failure_text(res)
            == "yt-dlp 退出码 "@ + "未知"@,
{
}

/// A video task is seen field by field, and so is the result of a run.
pub proof fn video_tasks_show_every_field(t: VideoTask, r: RunResult)
    ensures
        t@.phase == t.phase,
        t@.snapshot == t.snapshot@,
        t@.filename is Some <==> t.filename is Some,
        t.filename is Some ==> t@.filename->0 == t.filename->0@,
        r@.killed == r.killed,
        r@.code == r.code,
        r@.stderr_tail == r.stderr_tail@,
        opt_run_view(Some(r)) == Some(r@),
        opt_run_view(None) is None,
{
}

/// No line of output changes the error or the segments.
pub proof fn lines_keep_the_rest(s: SnapshotView, lines: Seq<Seq<char>>)
    ensures
        after_lines(s, lines).error == s.error,
        after_lines(s, lines).segments == s.segments,
    decreases lines.len(),
{
    if lines.len() > 0 {
        lines_keep_the_rest(s, lines.drop_last());
    }
}

} // verus!
