//! What the application asks of yt-dlp besides downloads: information on a page, and the
//! cookies of a browser.
use crate::error::cat;
use crate::task::TaskKind;
use crate::text::{
    opt_str_view, opt_view, signed_decimal, signed_decimal_of, strings_view,
};
use crate::video::bin::resolve_ytdlp;
use crate::video::engine::{error_text, extract_error, flag, opt_run_view};
use crate::video::runner::{lost_run, RunResult, RunView, TokioChildRunner};
use vstd::prelude::*;
use vstd::string::StringExecFns;

verus! {

/// The kind of a new task, given its name; HTTP where none is given.
pub fn requested_kind(name: Option<&str>) -> (r: Result<TaskKind, String>)
    ensures
        match r {
            Ok(kind) => Some(kind) == match name {
                Some(n) => TaskKind::named(n@),
                None => Some(TaskKind::Http),
            },
            Err(text) => name is Some && TaskKind::named(name->0@) is None && text@
                == "未知任务类型"@,
        },
{
    let kind: Option<TaskKind> = match name {
        Some(n) => TaskKind::parse(n),
        None => Some(TaskKind::Http),
    };
    match kind {
        Some(k) => Ok(k),
        None => Err("未知任务类型".to_owned()),
    }
}

/// A place where a program may be, and whether it is there.
#[derive(Debug)]
pub struct Candidate {
    pub path: String,
    pub exists: bool,
}

/// The first candidate that is there.
pub open spec fn first_existing(candidates: Seq<Candidate>) -> Option<Seq<char>>
    decreases candidates.len(),
{
    if candidates.len() == 0 {
        None
    } else if candidates[0].exists {
        Some(candidates[0].path@)
    } else {
        first_existing(candidates.drop_first())
    }
}

/// The first candidate that is there.
pub fn find_binary(candidates: &Vec<Candidate>) -> (r: Option<String>)
    ensures
        opt_view(r) == first_existing(candidates@),
{
    let mut i: usize = 0;
    proof {
        assert(candidates@.skip(0) =~= candidates@);
    }
    while i < candidates.len()
        invariant
            i <= candidates@.len(),
            first_existing(candidates@) == first_existing(candidates@.skip(i as int)),
        decreases candidates@.len() - i,
    {
        proof {
            assert(candidates@.skip(i as int)[0] == candidates@[i as int]);
            assert(candidates@.skip(i as int).drop_first() =~= candidates@.skip(i + 1));
        }
        if candidates[i].exists {
            return Some(candidates[i].path.clone());
        }
        i = i + 1;
    }
    None
}

/// The programs and files that video tasks use.
#[derive(Debug)]
pub struct VideoService {
    pub runner: TokioChildRunner,
    pub ffmpeg: Option<String>,
    /// The directory of an updated yt-dlp.
    pub app_bin_dir: String,
    pub packed_ytdlp: Option<String>,
    pub cookie_file: String,
}

impl VideoService {
    /// The yt-dlp in use: the updated copy at `updated` where it is there, else the packed
    /// one, else whatever the system finds under its name.
    pub fn ytdlp(&self, updated: &str, updated_exists: bool) -> (r: String)
        ensures
            r@ == if updated_exists {
                updated@
            } else {
                match self.packed_ytdlp {
                    Some(p) => p@,
                    None => "yt-dlp.exe"@,
                }
            },
    {
        match &self.packed_ytdlp {
            Some(p) => resolve_ytdlp(updated, updated_exists, p.as_str()),
            None => resolve_ytdlp(updated, updated_exists, "yt-dlp.exe"),
        }
    }

    /// The command line that asks for information on a page, with the cookies where their
    /// file is there.
    pub fn probe_command(&self, cookie_exists: bool, url: &str) -> (r: Vec<String>)
        ensures
            strings_view(r@) == probe_line(
                if cookie_exists {
                    Some(self.cookie_file@)
                } else {
                    None
                },
                url@,
            ),
    {
        if cookie_exists {
            probe_args(Some(self.cookie_file.as_str()), url)
        } else {
            probe_args(None, url)
        }
    }
}

/// After so many seconds without an answer, asking for information is given up.
pub const PROBE_TIMEOUT_SECS: u64 = 60;

/// The command line that asks for information on a page, with the cookies of a file where
/// there is one.
pub open spec fn probe_line(cookie: Option<Seq<char>>, url: Seq<char>) -> Seq<Seq<char>> {
    seq!["-J"@, "--flat-playlist"@] + flag("--cookies"@, cookie) + seq![url]
}

/// The command line that asks for information on a page.
pub fn probe_args(cookie: Option<&str>, url: &str) -> (r: Vec<String>)
    ensures
        strings_view(r@) == probe_line(opt_str_view(cookie), url@),
{
    let mut args: Vec<String> = Vec::new();
    args.push("-J".to_owned());
    args.push("--flat-playlist".to_owned());
    if let Some(c) = cookie {
        args.push("--cookies".to_owned());
        args.push(c.to_owned());
    }
    args.push(url.to_owned());
    proof {
        assert(strings_view(args@) =~= probe_line(opt_str_view(cookie), url@));
    }
    args
}

/// How an exit code is written: `Some(1)`, or `None` where there is none.
pub open spec fn code_text(code: Option<i32>) -> Seq<char> {
    match code {
        Some(c) => "Some("@ + signed_decimal(c as int) + ")"@,
        None => "None"@,
    }
}

/// What is said where yt-dlp gave no information: nothing where it succeeded, else what
/// its error output says, or else its exit code.
pub open spec fn probe_failure(res: RunView) -> Option<Seq<char>> {
    let text = error_text(res.stderr_tail);
    if res.code == Some(0i32) {
        None
    } else if text.len() > 0 {
        Some(text)
    } else {
        Some("解析失败（退出码 "@ + code_text(res.code) + "）"@)
    }
}

/// Whether a run that asked for information succeeded, or what to tell the user.
pub fn check_probe(res: &RunResult) -> (r: Result<(), String>)
    ensures
        match r {
            Ok(()) => probe_failure(res@) is None,
            Err(text) => probe_failure(res@) == Some(text@),
        },
{
    if let Some(c) = res.code {
        if c == 0 {
            return Ok(());
        }
    }
    let text: String = extract_error(res.stderr_tail.as_str());
    if !text.as_str().is_empty() {
        return Err(text);
    }
    let code: String = match res.code {
        Some(c) => cat("Some(", signed_decimal_of(c).as_str()).concat(")"),
        None => "None".to_owned(),
    };
    Err(cat("解析失败（退出码 ", code.as_str()).concat("）"))
}

/// The lines of `v`, one behind the other.
pub open spec fn run_together(v: Seq<Seq<char>>) -> Seq<char>
    decreases v.len(),
{
    if v.len() == 0 {
        Seq::empty()
    } else {
        run_together(v.drop_last()) + v.last()
    }
}

/// A run of yt-dlp that asks for information on a page; its output is gathered.
#[derive(Debug)]
pub struct ProbeRun {
    pub out: String,
}

/// What is known of a run whose supervision may have been lost.
pub open spec fn run_or_lost(result: Option<RunView>) -> RunView {
    match result {
        Some(r) => r,
        None => RunView { killed: None, code: None, stderr_tail: "runner 任务异常退出"@ },
    }
}

impl ProbeRun {
    pub fn new() -> (r: Self)
        ensures
            r.out@ == Seq::<char>::empty(),
    {
        ProbeRun { out: String::new() }
    }

    /// Gathers a line of output.
    pub fn on_line(&mut self, line: &str)
        ensures
            final(self).out@ == old(self).out@ + line@,
    {
        self.out.append(line);
    }

    /// The answer, when the process has ended and `rest` are the lines that were still
    /// waiting; or what to tell the user.
    pub fn on_exit(self, result: Option<RunResult>, rest: &Vec<String>) -> (r: Result<
        String,
        String,
    >)
        ensures
            match r {
                Ok(out) => probe_failure(run_or_lost(opt_run_view(result))) is None && out@
                    == self.out@ + run_together(strings_view(rest@)),
                Err(text) => probe_failure(run_or_lost(opt_run_view(result))) == Some(text@),
            },
    {
        let mut out: String = self.out;
        let ghost start = out@;
        let ghost all = strings_view(rest@);
        let mut i: usize = 0;
        proof {
            assert(start + run_together(all.take(0)) =~= start);
        }
        while i < rest.len()
            invariant
                i <= rest@.len(),
                all == strings_view(rest@),
                out@ == start + run_together(all.take(i as int)),
            decreases rest@.len() - i,
        {
            proof {
                assert(all.take(i + 1).drop_last() =~= all.take(i as int));
                assert(all.take(i + 1).last() == rest@[i as int]@);
                assert((start + run_together(all.take(i as int))) + rest@[i as int]@ =~= start + (
                run_together(all.take(i as int)) + rest@[i as int]@));
            }
            out.append(rest[i].as_str());
            i = i + 1;
        }
        proof {
            assert(all.take(i as int) =~= all);
        }
        let res: RunResult = match result {
            Some(res) => res,
            None => lost_run(),
        };
        match check_probe(&res) {
            Ok(()) => Ok(out),
            Err(text) => Err(text),
        }
    }

    /// What the user is told where no answer came in time; the process is to be killed.
    pub fn on_timeout(self) -> (r: String)
        ensures
            r@ == "解析超时（60 秒），请重试"@,
    {
        "解析超时（60 秒），请重试".to_owned()
    }
}

/// The command line that writes the cookies of a browser to a file.
pub open spec fn cookie_line(browser: Seq<char>, file: Seq<char>) -> Seq<Seq<char>> {
    seq![
        "--cookies-from-browser"@,
        browser,
        "--cookies"@,
        file,
        "--simulate"@,
        "https://www.youtube.com"@,
    ]
}

/// The command line that writes the cookies of a browser to a file.
pub fn cookie_args(browser: &str, file: &str) -> (r: Vec<String>)
    ensures
        strings_view(r@) == cookie_line(browser@, file@),
{
    let mut args: Vec<String> = Vec::new();
    args.push("--cookies-from-browser".to_owned());
    args.push(browser.to_owned());
    args.push("--cookies".to_owned());
    args.push(file.to_owned());
    args.push("--simulate".to_owned());
    args.push("https://www.youtube.com".to_owned());
    proof {
        assert(strings_view(args@) =~= cookie_line(browser@, file@));
    }
    args
}

/// What is said where the cookies could not be had: nothing where yt-dlp succeeded, else
/// what its error output says, or else its exit code, -1 where there is none.
pub open spec fn import_failure(success: bool, code: Option<i32>, stderr: Seq<char>) -> Option<
    Seq<char>,
> {
    let text = error_text(stderr);
    if success {
        None
    } else if text.len() > 0 {
        Some(text)
    } else {
        let c = match code {
            Some(c) => c as int,
            None => -1,
        };
        Some("导出 cookie 失败（退出码 "@ + signed_decimal(c) + "）"@)
    }
}

/// Whether the cookies of a browser were written, or what to tell the user: `run` is
/// whether yt-dlp succeeded, its exit code and its error output, or why it could not be
/// run.
pub fn import_cookies(run: Result<(bool, Option<i32>, String), String>) -> (r: Result<(), String>)
    ensures
        match (run, r) {
            (Err(why), Err(text)) => text@ == "运行 yt-dlp 失败: "@ + why@,
            (Ok((success, code, stderr)), Ok(())) => import_failure(success, code, stderr@) is None,
            (Ok((success, code, stderr)), Err(text)) => import_failure(success, code, stderr@)
                == Some(text@),
            _ => false,
        },
{
    match run {
        Err(why) => Err(cat("运行 yt-dlp 失败: ", why.as_str())),
        Ok((success, code, stderr)) => {
            if success {
                return Ok(());
            }
            let text: String = extract_error(stderr.as_str());
            if !text.as_str().is_empty() {
                return Err(text);
            }
            let c: i32 = match code {
                Some(c) => c,
                None => -1,
            };
            Err(cat("导出 cookie 失败（退出码 ", signed_decimal_of(c).as_str()).concat("）"))
        },
    }
}

// ---------------------------------------------------------------------------
// Laws
// ---------------------------------------------------------------------------
/// The program is taken from the first place where it is.
pub proof fn first_place_counts(candidates: Seq<Candidate>, k: int)
    requires
        0 <= k <= candidates.len(),
        forall|j: int| 0 <= j < k ==> !(#[trigger] candidates[j]).exists,
        k < candidates.len() ==> candidates[k].exists,
    ensures
        k < candidates.len() ==> first_existing(candidates) == Some(candidates[k].path@),
        k == candidates.len() ==> first_existing(candidates) is None,
    decreases k,
{
    if k > 0 {
        let rest = candidates.drop_first();
        assert forall|j: int| 0 <= j < k - 1 implies !(#[trigger] rest[j]).exists by {
            assert(rest[j] == candidates[j + 1]);
        }
        assert(!candidates[0].exists);
        if k < candidates.len() {
            assert(rest[k - 1] == candidates[k]);
        }
        first_place_counts(rest, k - 1);
    }
}

/// Information is asked for as JSON, of a playlist only its list, with the cookies where there
/// are any, and of the given page.
pub proof fn information_is_asked_of_the_page(cookie: Option<Seq<char>>, url: Seq<char>)
    ensures
        ({
            let line = probe_line(cookie, url);
            &&& line[0] == "-J"@
            &&& line[1] == "--flat-playlist"@
            &&& line.last() == url
            &&& cookie is None ==> line.len() == 3
            &&& cookie is Some ==> line.len() == 5 && line[2] == "--cookies"@ && line[3]
                == cookie->0
        }),
        PROBE_TIMEOUT_SECS == 60,
{
}

/// The cookies of the given browser are written to the given file, and nothing is downloaded.
pub proof fn cookies_go_to_the_file(browser: Seq<char>, file: Seq<char>)
    ensures
        ({
            let line = cookie_line(browser, file);
            &&& line.len() == 6
            &&& line[0] == "--cookies-from-browser"@
            &&& line[1] == browser
            &&& line[2] == "--cookies"@
            &&& line[3] == file
            &&& line[4] == "--simulate"@
            &&& line[5] == "https://www.youtube.com"@
        }),
{
}

/// A run gave information exactly where it exited with 0. Of any other, killed or not, the
/// user is told what its error output says, or else its exit code.
pub proof fn only_success_gives_information(res: RunView)
    ensures
        probe_failure(res) is None <==> res.code == Some(0i32),
        res.code != Some(0i32) && error_text(res.stderr_tail).len() > 0 ==> probe_failure(res)
            == Some(error_text(res.stderr_tail)),
        res.code != Some(0i32) && error_text(res.stderr_tail).len() == 0 ==> probe_failure(res)
            == Some("解析失败（退出码 "@ + code_text(res.code) + "）"@),
{
}

/// An exit code is written as a number in `Some(..)`, and a missing one as `None`.
pub proof fn exit_codes_are_written_out(c: i32)
    ensures
        ({
            let text = code_text(Some(c));
            let number = signed_decimal(c as int);
            &&& text.take(5) == seq!['S', 'o', 'm', 'e', '(']
            &&& text.subrange(5, 5 + number.len() as int) == number
            &&& text.last() == ')'
            &&& text.len() == 6 + number.len()
        }),
        code_text(None) == seq!['N', 'o', 'n', 'e'],
{
    reveal_strlit("Some(");
    reveal_strlit(")");
    reveal_strlit("None");
    let text = code_text(Some(c));
    let number = signed_decimal(c as int);
    assert(text.take(5) =~= seq!['S', 'o', 'm', 'e', '(']);
    assert(text.subrange(5, 5 + number.len() as int) =~= number);
    assert("None"@ =~= seq!['N', 'o', 'n', 'e']);
}

/// The output is the lines one behind the other, all of them and in their order.
pub proof fn lines_are_run_together(v: Seq<Seq<char>>, line: Seq<char>)
    ensures
        run_together(Seq::<Seq<char>>::empty()) == Seq::<char>::empty(),
        run_together(v.push(line)) == run_together(v) + line,
{
    assert(v.push(line).drop_last() =~= v);
}

/// A run whose supervision was lost has no exit code, so it gave no information; any other
/// counts as it ended.
pub proof fn lost_runs_give_no_information(res: RunView)
    ensures
        run_or_lost(Some(res)) == res,
        run_or_lost(None).code is None,
        run_or_lost(None).killed is None,
        probe_failure(run_or_lost(None)) is Some,
{
}

/// The cookies were written exactly where yt-dlp succeeded. Else the user is told what its
/// error output says, or else its exit code, -1 where there is none.
pub proof fn only_success_gives_cookies(success: bool, code: Option<i32>, stderr: Seq<char>)
    ensures
        import_failure(success, code, stderr) is None <==> success,
        !success && error_text(stderr).len() > 0 ==> import_failure(success, code, stderr) == Some(
            error_text(stderr),
        ),
        !success && error_text(stderr).len() == 0 && code is Some ==> import_failure(
            success,
            code,
            stderr,
        ) == Some("导出 cookie 失败（退出码 "@ + signed_decimal(code->0 as int) + "）"@),
        !success && error_text(stderr).len() == 0 && code is None ==> import_failure(
            success,
            code,
            stderr,
        ) == Some("导出 cookie 失败（退出码 "@ + signed_decimal(-1) + "）"@),
{
}

} // verus!
