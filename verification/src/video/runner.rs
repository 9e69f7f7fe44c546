//! Running yt-dlp: how a run ends, and scripted runs for trying out the engine.
use crate::http_engine::retry::Delay;
use crate::text::{chars_of, string_of, strings_clone};
use vstd::prelude::*;
use vstd::slice::slice_subrange;

verus! {

/// Why a run was killed.
#[derive(Debug, Clone, Copy, PartialEq, Eq, Structural)]
pub enum KillReason {
    Pause,
    Cancel,
}

/// How a run ended. The exit code of a killed process means nothing.
#[derive(Debug)]
pub struct RunResult {
    pub killed: Option<KillReason>,
    pub code: Option<i32>,
    /// The end of what the process wrote to its error output.
    pub stderr_tail: String,
}

pub struct RunView {
    pub killed: Option<KillReason>,
    pub code: Option<i32>,
    pub stderr_tail: Seq<char>,
}

impl View for RunResult {
    type V = RunView;

    open spec fn view(&self) -> RunView {
        RunView { killed: self.killed, code: self.code, stderr_tail: self.stderr_tail@ }
    }
}

/// How many bytes of the error output are kept.
pub const STDERR_TAIL: usize = 4096;

/// The number of bytes of a character in UTF-8.
pub open spec fn width(c: char) -> int {
    if (c as u32) < 0x80 {
        1
    } else if (c as u32) < 0x800 {
        2
    } else if (c as u32) < 0x10000 {
        3
    } else {
        4
    }
}

/// The number of bytes of a text in UTF-8.
pub open spec fn byte_len(s: Seq<char>) -> int
    decreases s.len(),
{
    if s.len() == 0 {
        0
    } else {
        width(s[0]) + byte_len(s.skip(1))
    }
}

/// `r` is the longest end of `s` that has at most `max` bytes.
pub open spec fn is_tail(r: Seq<char>, s: Seq<char>, max: int) -> bool {
    exists|k: int|
        #![trigger s.skip(k)]
        0 <= k <= s.len() && r == s.skip(k) && byte_len(s.skip(k)) <= max && (k > 0 ==> byte_len(
            s.skip(k - 1),
        ) > max)
}

fn char_width(c: char) -> (r: usize)
    ensures
        r == width(c),
        1 <= r <= 4,
{
    if (c as u32) < 0x80 {
        1
    } else if (c as u32) < 0x800 {
        2
    } else if (c as u32) < 0x10000 {
        3
    } else {
        4
    }
}

/// The longest end of `s` that has at most `max` bytes; no character is cut.
pub fn tail_utf8(s: &str, max: usize) -> (r: String)
    ensures
        is_tail(r@, s@, max as int),
{
    let all: Vec<char> = chars_of(s);
    let mut k: usize = all.len();
    let mut used: usize = 0;
    proof {
        assert(s@.skip(k as int) =~= Seq::<char>::empty());
    }
    while k > 0
        invariant
            all@ == s@,
            k <= all@.len(),
            used == byte_len(s@.skip(k as int)),
            used <= max,
        decreases k,
    {
        let w: usize = char_width(all[k - 1]);
        proof {
            assert(s@.skip(k - 1)[0] == s@[k - 1]);
            assert(s@.skip(k - 1).skip(1) =~= s@.skip(k as int));
        }
        if w > max - used {
            let r: String = string_of(slice_subrange(all.as_slice(), k, all.len()));
            proof {
                assert(r@ =~= s@.skip(k as int));
            }
            return r;
        }
        used = used + w;
        k = k - 1;
    }
    let r: String = string_of(slice_subrange(all.as_slice(), k, all.len()));
    proof {
        assert(r@ =~= s@.skip(0));
    }
    r
}

/// A text with few enough bytes is kept whole, and no text grows.
pub proof fn short_text_is_kept(r: Seq<char>, s: Seq<char>, max: int)
    requires
        is_tail(r, s, max),
    ensures
        byte_len(s) <= max ==> r == s,
        byte_len(r) <= max,
        r.is_suffix_of(s),
{
    let k = choose|k: int|
        #![trigger s.skip(k)]
        0 <= k <= s.len() && r == s.skip(k) && byte_len(s.skip(k)) <= max && (k > 0 ==> byte_len(
            s.skip(k - 1),
        ) > max);
    assert(s.skip(0) =~= s);
    if k > 0 {
        skipping_shrinks(s, 0, k - 1);
    }
}

proof fn skipping_shrinks(s: Seq<char>, i: int, j: int)
    requires
        0 <= i <= j <= s.len(),
    ensures
        byte_len(s.skip(j)) <= byte_len(s.skip(i)),
    decreases j - i,
{
    if i < j {
        assert(s.skip(i).skip(1) =~= s.skip(i + 1));
        skipping_shrinks(s, i + 1, j);
    }
}

/// The runner that starts the yt-dlp at this path.
#[derive(Debug)]
pub struct TokioChildRunner {
    pub bin: String,
}

/// What happens to a child process.
#[derive(Debug, Clone, Copy, PartialEq, Eq, Structural)]
pub enum ChildEvent {
    /// It printed a line.
    Line,
    /// Its output has ended or cannot be read.
    Ended,
    /// It is to be killed; without a reason where nobody can give one any more.
    Kill(Option<KillReason>),
}

/// What is to be done with a child process.
#[derive(Debug, Clone, Copy, PartialEq, Eq, Structural)]
pub enum ChildStep {
    /// Hand the line on and go on reading.
    Forward,
    /// Wait for its exit.
    Reap,
    /// Kill it, then wait for its exit.
    KillAndReap,
}

/// A child process while its output is read.
#[derive(Debug, Clone, Copy, PartialEq, Eq, Structural)]
pub struct ChildWatch {
    pub killed: Option<KillReason>,
}

impl ChildWatch {
    pub fn new() -> (r: Self)
        ensures
            r.killed is None,
    {
        ChildWatch { killed: None }
    }

    /// Lines are handed on until the output ends or the process is to be killed.
    pub fn on_event(&mut self, ev: ChildEvent) -> (r: ChildStep)
        ensures
            match ev {
                ChildEvent::Line => r is Forward && *final(self) == *old(self),
                ChildEvent::Ended => r is Reap && *final(self) == *old(self),
                ChildEvent::Kill(why) => r is KillAndReap && final(self).killed == why,
            },
    {
        match ev {
            ChildEvent::Line => ChildStep::Forward,
            ChildEvent::Ended => ChildStep::Reap,
            ChildEvent::Kill(why) => {
                self.killed = why;
                ChildStep::KillAndReap
            },
        }
    }

    /// How the run ended: the reason of a kill, the exit code, and the last bytes of the
    /// error output.
    pub fn finish(&self, code: Option<i32>, stderr: &str) -> (r: RunResult)
        ensures
            r.killed == self.killed,
            r.code == code,
            is_tail(r.stderr_tail@, stderr@, STDERR_TAIL as int),
    {
        RunResult { killed: self.killed, code, stderr_tail: tail_utf8(stderr, STDERR_TAIL) }
    }
}

/// What stands for the result of a run whose supervision was lost.
pub fn lost_run() -> (r: RunResult)
    ensures
        r@ == (RunView { killed: None, code: None, stderr_tail: "runner 任务异常退出"@ }),
{
    RunResult { killed: None, code: None, stderr_tail: "runner 任务异常退出".to_owned() }
}

// ---------------------------------------------------------------------------
// Scripted runs
// ---------------------------------------------------------------------------
/// A step of a scripted run.
#[derive(Debug)]
pub enum ScriptStep {
    /// Print these lines.
    Lines(Vec<String>),
    /// Wait, unless killed.
    Delay(Delay),
    /// Exit with this code.
    Exit(i32),
}

/// A runner that plays scripts instead of starting yt-dlp, and remembers the command lines.
#[derive(Debug)]
pub struct FakeRunner {
    pub scripts: Vec<Vec<ScriptStep>>,
    pub calls: Vec<Vec<String>>,
}

/// A scripted run under way.
#[derive(Debug)]
pub struct ScriptRun {
    /// The steps still to come.
    pub steps: Vec<ScriptStep>,
}

/// What a scripted run does next.
#[derive(Debug)]
pub enum ScriptAction {
    /// Print these lines, then go on.
    Print(Vec<String>),
    /// Wait for this time or for a kill, then go on.
    Sleep(Delay),
    /// The run is over.
    Done(RunResult),
}

/// The result of a scripted run.
pub open spec fn script_result(killed: Option<KillReason>, code: Option<i32>) -> RunView {
    RunView { killed, code, stderr_tail: Seq::empty() }
}

fn make_result(killed: Option<KillReason>, code: Option<i32>) -> (r: RunResult)
    ensures
        r@ == script_result(killed, code),
{
    RunResult { killed, code, stderr_tail: String::new() }
}

impl FakeRunner {
    pub fn new() -> (r: Self)
        ensures
            r.scripts@.len() == 0,
            r.calls@.len() == 0,
    {
        FakeRunner { scripts: Vec::new(), calls: Vec::new() }
    }

    /// Starts the next script, an empty one where none is left, and remembers the command
    /// line.
    pub fn start(&mut self, args: &Vec<String>) -> (r: ScriptRun)
        ensures
            final(self).calls@.len() == old(self).calls@.len() + 1,
            final(self).calls@.drop_last() == old(self).calls@,
            final(self).calls@.last()@ == args@,
            old(self).scripts@.len() == 0 ==> {
                &&& r.steps@.len() == 0
                &&& final(self).scripts@ == old(self).scripts@
            },
            old(self).scripts@.len() > 0 ==> {
                &&& r.steps == old(self).scripts@[0]
                &&& final(self).scripts@ == old(self).scripts@.drop_first()
            },
    {
        let copy: Vec<String> = strings_clone(args);
        let ghost calls = self.calls@;
        self.calls.push(copy);
        proof {
            assert(self.calls@.drop_last() =~= calls);
        }
        if self.scripts.len() == 0 {
            return ScriptRun { steps: Vec::new() };
        }
        let ghost scripts = self.scripts@;
        let steps: Vec<ScriptStep> = self.scripts.remove(0);
        proof {
            assert(self.scripts@ =~= scripts.drop_first());
        }
        ScriptRun { steps }
    }
}

impl ScriptRun {
    /// The next step. `noticed` is the kill that ended a wait: it ends the run. `kill` is
    /// one that has come but has not ended a wait: only an exit looks for it, and then has
    /// no code.
    pub fn next(&mut self, noticed: Option<KillReason>, kill: Option<KillReason>) -> (r:
        ScriptAction)
        ensures
            if noticed is Some || old(self).steps@.len() == 0 {
                &&& r is Done
                &&& r->Done_0@ == script_result(noticed, None)
                &&& final(self).steps@ == old(self).steps@
            } else {
                &&& final(self).steps@ == old(self).steps@.drop_first()
                &&& match old(self).steps@[0] {
                    ScriptStep::Lines(lines) => r == ScriptAction::Print(lines),
                    ScriptStep::Delay(d) => r == ScriptAction::Sleep(d),
                    ScriptStep::Exit(code) => r is Done && r->Done_0@ == if kill is Some {
                        script_result(kill, None)
                    } else {
                        script_result(None, Some(code))
                    },
                }
            },
    {
        if noticed.is_some() {
            return ScriptAction::Done(make_result(noticed, None));
        }
        if self.steps.len() == 0 {
            return ScriptAction::Done(make_result(None, None));
        }
        let ghost steps = self.steps@;
        let step: ScriptStep = self.steps.remove(0);
        proof {
            assert(self.steps@ =~= steps.drop_first());
        }
        match step {
            ScriptStep::Lines(lines) => ScriptAction::Print(lines),
            ScriptStep::Delay(d) => ScriptAction::Sleep(d),
            ScriptStep::Exit(code) => {
                if kill.is_some() {
                    ScriptAction::Done(make_result(kill, None))
                } else {
                    ScriptAction::Done(make_result(None, Some(code)))
                }
            },
        }
    }
}

/// A character takes one byte up to 127, two up to 2047, three up to 65535, and four beyond;
/// a text takes what its characters take. Of the error output 4096 bytes are kept.
pub proof fn bytes_of_a_text(c: char, s: Seq<char>)
    ensures
        width(c) == 1 <==> c as u32 <= 127,
        width(c) == 2 <==> 128 <= c as u32 <= 2047,
        width(c) == 3 <==> 2048 <= c as u32 <= 65535,
        width(c) == 4 <==> c as u32 >= 65536,
        byte_len(Seq::<char>::empty()) == 0,
        byte_len(seq![c] + s) == width(c) + byte_len(s),
        STDERR_TAIL == 4096,
{
    let t = seq![c] + s;
    assert(t.skip(1) =~= s);
}

/// What is kept of a text is its end, as long as the bytes allow: one character more would be
/// too much.
pub proof fn the_end_is_kept(r: Seq<char>, s: Seq<char>, max: int) -> (k: int)
    requires
        is_tail(r, s, max),
    ensures
        0 <= k <= s.len(),
        r == s.skip(k),
        byte_len(r) <= max,
        k > 0 ==> byte_len(s.skip(k - 1)) > max,
{
    choose|k: int|
        #![trigger s.skip(k)]
        0 <= k <= s.len() && r == s.skip(k) && byte_len(s.skip(k)) <= max && (k > 0 ==> byte_len(
            s.skip(k - 1),
        ) > max)
}

/// A scripted run ends as its script says, with no error output.
pub proof fn scripted_runs_end_as_scripted(killed: Option<KillReason>, code: Option<i32>)
    ensures
        script_result(killed, code).killed == killed,
        script_result(killed, code).code == code,
        script_result(killed, code).stderr_tail.len() == 0,
{
}

} // verus!
