//! The yt-dlp program: which of two copies is used, and its versions.
use crate::error::{cat, ErrorView, SparklingError};
use crate::paths::{is_joined, join};
use crate::text::{
    all_digits, chars_of, clean_is_one_piece, clean_text_stays, digits_value, is_digit, is_white,
    only_digits_are_numbers, outer_pieces, parse_number, parsed_number, pieces,
    separator_parts_the_pieces, split, string_of, trim, trimmed,
};
use vstd::prelude::*;

verus! {

/// Where an updated copy of yt-dlp stands, given the directory for programs.
pub fn updated_path(app_bin: &str) -> (r: String)
    ensures
        is_joined(app_bin@, "yt-dlp.exe"@, r@),
{
    join(app_bin, "yt-dlp.exe")
}

/// The yt-dlp that is used: the updated copy where there is one, else the packed one.
pub fn resolve_ytdlp(updated: &str, updated_exists: bool, packed: &str) -> (r: String)
    ensures
        r@ == if updated_exists {
            updated@
        } else {
            packed@
        },
{
    if updated_exists {
        updated.to_owned()
    } else {
        packed.to_owned()
    }
}

/// A version: the first three numbers between dots; what follows does not matter.
pub open spec fn version_of(s: Seq<char>) -> Option<(nat, nat, nat)> {
    let parts = pieces(trimmed(s), '.');
    if parts.len() < 3 {
        None
    } else {
        match (
            parsed_number(parts[0], u32::MAX as nat),
            parsed_number(parts[1], u32::MAX as nat),
            parsed_number(parts[2], u32::MAX as nat),
        ) {
            (Some(a), Some(b), Some(c)) => Some((a, b, c)),
            _ => None,
        }
    }
}

/// A version like `2026.08.29`, also with a fourth part.
pub fn parse_version(s: &str) -> (r: Option<(u32, u32, u32)>)
    ensures
        match r {
            Some(v) => version_of(s@) == Some((v.0 as nat, v.1 as nat, v.2 as nat)),
            None => version_of(s@) is None,
        },
{
    let all: Vec<char> = chars_of(s);
    let parts: Vec<Vec<char>> = split(trim(all.as_slice()), '.');
    if parts.len() < 3 {
        return None;
    }
    let max: u64 = u32::MAX as u64;
    match (
        parse_number(parts[0].as_slice(), max),
        parse_number(parts[1].as_slice(), max),
        parse_number(parts[2].as_slice(), max),
    ) {
        (Some(a), Some(b), Some(c)) => Some((a as u32, b as u32, c as u32)),
        _ => None,
    }
}

/// Versions are compared part by part.
pub open spec fn later(a: (nat, nat, nat), b: (nat, nat, nat)) -> bool {
    a.0 > b.0 || (a.0 == b.0 && (a.1 > b.1 || (a.1 == b.1 && a.2 > b.2)))
}

/// Whether `a` and `b` are versions and `a` is later than `b`.
pub open spec fn version_later(a: Seq<char>, b: Seq<char>) -> bool {
    match (version_of(a), version_of(b)) {
        (Some(x), Some(y)) => later(x, y),
        _ => false,
    }
}

/// Whether version `a` is later than `b`; no where one of them is no version.
pub fn version_gt(a: &str, b: &str) -> (r: bool)
    ensures
        r == version_later(a@, b@),
{
    match (parse_version(a), parse_version(b)) {
        (Some(x), Some(y)) => x.0 > y.0 || (x.0 == y.0 && (x.1 > y.1 || (x.1 == y.1 && x.2
            > y.2))),
        _ => false,
    }
}

/// Being later is a strict order on versions, and of two different versions one is later.
pub proof fn later_is_an_order(a: Seq<char>, b: Seq<char>, c: Seq<char>)
    ensures
        !version_later(a, a),
        version_later(a, b) ==> !version_later(b, a),
        version_later(a, b) && version_later(b, c) ==> version_later(a, c),
        version_of(a) is Some && version_of(b) is Some && version_of(a) != version_of(b)
            ==> version_later(a, b) || version_later(b, a),
{
}

/// The first line of `yt-dlp --version`, trimmed: what the program said, or why it could
/// not be asked.
pub open spec fn first_line(out: Seq<char>) -> Seq<char> {
    trimmed(pieces(out, '\n')[0])
}

/// The version that yt-dlp reports, given what came of running `yt-dlp --version`: an
/// error where it could not be run or did not succeed, else its first line of output.
pub fn ytdlp_version(run: Result<(bool, String), String>) -> (r: Result<String, SparklingError>)
    ensures
        match (run, r) {
            (Err(why), Err(e)) => e@ == ErrorView::Other("运行 yt-dlp 失败: "@ + why@),
            (Ok((success, out)), Ok(v)) => success && v@ == first_line(out@),
            (Ok((success, out)), Err(e)) => !success && e@ == ErrorView::Other(
                "yt-dlp 版本查询失败"@,
            ),
            _ => false,
        },
{
    match run {
        Err(why) => Err(SparklingError::Other(cat("运行 yt-dlp 失败: ", why.as_str()))),
        Ok((success, out)) => {
            if !success {
                return Err(SparklingError::Other("yt-dlp 版本查询失败".to_owned()));
            }
            let lines: Vec<Vec<char>> = split(chars_of(out.as_str()).as_slice(), '\n');
            Ok(string_of(trim(lines[0].as_slice())))
        },
    }
}

/// What came of requesting a new copy of yt-dlp.
#[derive(Debug)]
pub enum Fetched {
    /// The request could not be set up.
    NoClient(String),
    /// No response came.
    NoResponse(String),
    /// A response with this status came, and then its body of this many bytes, or not.
    Response { status: u16, body: Result<usize, String> },
}

/// What keeps a new copy from being installed, if anything.
pub open spec fn fetch_problem(url: Seq<char>, got: Fetched) -> Option<ErrorView> {
    match got {
        Fetched::NoClient(why) => Some(ErrorView::Other("构建 HTTP 客户端失败: "@ + why@)),
        Fetched::NoResponse(why) => Some(ErrorView::Network("下载失败: "@ + why@)),
        Fetched::Response { status, body } => if !(200 <= status < 300) {
            Some(ErrorView::HttpStatus { status, detail: "下载 "@ + url + " 失败"@ })
        } else {
            match body {
                Err(why) => Some(ErrorView::Network("读取响应失败: "@ + why@)),
                Ok(n) => if n == 0 {
                    Some(ErrorView::Other("下载内容为空"@))
                } else {
                    None
                },
            }
        },
    }
}

/// Whether a new copy of yt-dlp can be installed: the request succeeded and brought
/// something.
pub fn check_download(url: &str, got: Fetched) -> (r: Result<(), SparklingError>)
    ensures
        match r {
            Ok(()) => fetch_problem(url@, got) is None,
            Err(e) => fetch_problem(url@, got) == Some(e@),
        },
{
    match got {
        Fetched::NoClient(why) => Err(
            SparklingError::Other(cat("构建 HTTP 客户端失败: ", why.as_str())),
        ),
        Fetched::NoResponse(why) => Err(SparklingError::Network(cat("下载失败: ", why.as_str()))),
        Fetched::Response { status, body } => {
            if !(200 <= status && status < 300) {
                let detail: String = cat(cat("下载 ", url).as_str(), " 失败");
                return Err(SparklingError::HttpStatus { status, detail });
            }
            match body {
                Err(why) => Err(SparklingError::Network(cat("读取响应失败: ", why.as_str()))),
                Ok(n) => {
                    if n == 0 {
                        Err(SparklingError::Other("下载内容为空".to_owned()))
                    } else {
                        Ok(())
                    }
                },
            }
        },
    }
}

/// The steps of installing a new copy.
#[derive(Debug, Clone, Copy, PartialEq, Eq, Structural)]
pub enum InstallStep {
    CreateDir,
    Write,
    Replace,
}

/// What the user is told of a failed step.
pub open spec fn install_prefix(step: InstallStep) -> Seq<char> {
    match step {
        InstallStep::CreateDir => "创建目录失败: "@,
        InstallStep::Write => "写入临时文件失败: "@,
        InstallStep::Replace => "替换二进制失败: "@,
    }
}

/// The error of installing a new copy: which step failed, and why.
pub fn install_error(step: InstallStep, why: &str) -> (r: SparklingError)
    ensures
        r@ == ErrorView::DiskWrite(install_prefix(step) + why@),
{
    let prefix: &str = match step {
        InstallStep::CreateDir => "创建目录失败: ",
        InstallStep::Write => "写入临时文件失败: ",
        InstallStep::Replace => "替换二进制失败: ",
    };
    SparklingError::DiskWrite(cat(prefix, why))
}

/// The state of the yt-dlp installation, as the settings page shows it.
#[derive(Debug)]
pub struct YtdlpStatus {
    pub version: Option<String>,
    /// "app-data" for an updated copy, "bundled" for the packed one, "missing" for none.
    pub source: String,
    pub ffmpeg_available: bool,
}

/// Where the copy in use comes from.
pub open spec fn source_name(in_use_exists: bool, updated_exists: bool) -> Seq<char> {
    if !in_use_exists {
        "missing"@
    } else if updated_exists {
        "app-data"@
    } else {
        "bundled"@
    }
}

/// The state of the installation: the reported version, if any, and where the copy in use
/// comes from.
pub fn ytdlp_status(
    version: Result<String, SparklingError>,
    in_use_exists: bool,
    updated_exists: bool,
    ffmpeg_available: bool,
) -> (r: YtdlpStatus)
    ensures
        crate::text::opt_view(r.version) == match version {
            Ok(v) => Some(v@),
            Err(_) => None,
        },
        r.source@ == source_name(in_use_exists, updated_exists),
        r.ffmpeg_available == ffmpeg_available,
{
    let source: &str = if !in_use_exists {
        "missing"
    } else if updated_exists {
        "app-data"
    } else {
        "bundled"
    };
    YtdlpStatus {
        version: match version {
            Ok(v) => Some(v),
            Err(_) => None,
        },
        source: source.to_owned(),
        ffmpeg_available,
    }
}

proof fn digits_have_no_dot(d: Seq<char>)
    requires
        all_digits(d),
    ensures
        !d.contains('.'),
        forall|i: int| 0 <= i < d.len() ==> !is_white(#[trigger] d[i]),
{
    assert forall|i: int| 0 <= i < d.len() implies d[i] != '.' && !is_white(#[trigger] d[i]) by {
        assert(is_digit(d[i]));
    }
}

/// Three numbers with dots between them are a version, leading zeros or not, and so they are
/// with anything behind a further dot.
pub proof fn versions_are_three_numbers(
    a: Seq<char>,
    b: Seq<char>,
    c: Seq<char>,
    more: Seq<char>,
)
    requires
        a.len() > 0 && all_digits(a) && digits_value(a) <= u32::MAX,
        b.len() > 0 && all_digits(b) && digits_value(b) <= u32::MAX,
        c.len() > 0 && all_digits(c) && digits_value(c) <= u32::MAX,
        more.len() > 0 ==> !is_white(more.last()),
    ensures
        version_of(a.push('.') + (b.push('.') + c)) == Some(
            (digits_value(a), digits_value(b), digits_value(c)),
        ),
        version_of(a.push('.') + (b.push('.') + (c.push('.') + more))) == Some(
            (digits_value(a), digits_value(b), digits_value(c)),
        ),
{
    digits_have_no_dot(a);
    digits_have_no_dot(b);
    digits_have_no_dot(c);
    clean_is_one_piece(a, '.');
    clean_is_one_piece(b, '.');
    clean_is_one_piece(c, '.');
    only_digits_are_numbers(a, a, u32::MAX as nat);
    only_digits_are_numbers(b, b, u32::MAX as nat);
    only_digits_are_numbers(c, c, u32::MAX as nat);
    let bc = b.push('.') + c;
    let s = a.push('.') + bc;
    assert(s[0] == a[0]);
    assert(s.last() == c.last());
    assert(!is_white(a[0]) && !is_white(c[c.len() - 1]));
    clean_text_stays(s);
    separator_parts_the_pieces(a, bc, '.');
    separator_parts_the_pieces(b, c, '.');
    let cm = c.push('.') + more;
    let bcm = b.push('.') + cm;
    let t = a.push('.') + bcm;
    assert(t[0] == a[0]);
    assert(t.last() == if more.len() > 0 {
        more.last()
    } else {
        '.'
    });
    clean_text_stays(t);
    separator_parts_the_pieces(a, bcm, '.');
    separator_parts_the_pieces(b, cm, '.');
    separator_parts_the_pieces(c, more, '.');
}

/// A text without a dot, or with only one, is no version; one with two is a version exactly
/// where its three parts are numbers.
pub proof fn other_texts_are_no_versions(s: Seq<char>, a: Seq<char>, b: Seq<char>, c: Seq<char>)
    requires
        !a.contains('.'),
        !b.contains('.'),
        !c.contains('.'),
    ensures
        trimmed(s) == a ==> version_of(s) is None,
        trimmed(s) == a.push('.') + b ==> version_of(s) is None,
        trimmed(s) == a.push('.') + (b.push('.') + c) ==> (version_of(s) is Some
            <==> parsed_number(a, u32::MAX as nat) is Some && parsed_number(b, u32::MAX as nat)
            is Some && parsed_number(c, u32::MAX as nat) is Some),
{
    clean_is_one_piece(a, '.');
    clean_is_one_piece(b, '.');
    clean_is_one_piece(c, '.');
    separator_parts_the_pieces(a, b, '.');
    separator_parts_the_pieces(b, c, '.');
    separator_parts_the_pieces(a, b.push('.') + c, '.');
}

/// The first number counts most and the third least; what is no version is later than nothing,
/// and nothing is later than it.
pub proof fn earlier_numbers_count_more(a: Seq<char>, b: Seq<char>)
    ensures
        version_later(a, b) ==> version_of(a) is Some && version_of(b) is Some,
        version_of(a) is Some && version_of(b) is Some ==> {
            let x = version_of(a)->0;
            let y = version_of(b)->0;
            version_later(a, b) <==> x.0 * 18446744073709551616 + x.1 * 4294967296 + x.2 > y.0
                * 18446744073709551616 + y.1 * 4294967296 + y.2
        },
{
}

/// The version is the first line of the output, without white space around it.
pub proof fn version_is_the_first_line(line: Seq<char>, rest: Seq<char>)
    requires
        !line.contains('\n'),
    ensures
        first_line(line.push('\n') + rest) == trimmed(line),
        first_line(line) == trimmed(line),
{
    outer_pieces(line, rest, '\n');
}

/// A new copy is installed exactly where a response with a status from 200 to 299 brought at
/// least one byte. Else the error is the client's, the network's or the server's, with its
/// status.
pub proof fn only_a_full_download_is_installed(
    url: Seq<char>,
    why: String,
    status: u16,
    body: Result<usize, String>,
)
    ensures
        ({
            let p = fetch_problem(url, Fetched::Response { status, body });
            let good = 200 <= status <= 299;
            &&& p is None <==> good && body is Ok && body->Ok_0 > 0
            &&& !good ==> p is Some && p->0 is HttpStatus && p->0->status == status
            &&& good && body is Err ==> p is Some && p->0 is Network
                && body->Err_0@.is_suffix_of(p->0->Network_0)
            &&& good && body is Ok && body->Ok_0 == 0 ==> p is Some && p->0 is Other
        }),
        fetch_problem(url, Fetched::NoClient(why)) is Some,
        fetch_problem(url, Fetched::NoClient(why))->0 is Other,
        why@.is_suffix_of(fetch_problem(url, Fetched::NoClient(why))->0->Other_0),
        fetch_problem(url, Fetched::NoResponse(why)) is Some,
        fetch_problem(url, Fetched::NoResponse(why))->0 is Network,
        why@.is_suffix_of(fetch_problem(url, Fetched::NoResponse(why))->0->Network_0),
{
    let a = fetch_problem(url, Fetched::NoClient(why))->0->Other_0;
    assert(a.skip(a.len() - why@.len()) =~= why@);
    let b = fetch_problem(url, Fetched::NoResponse(why))->0->Network_0;
    assert(b.skip(b.len() - why@.len()) =~= why@);
    if body is Err && 200 <= status <= 299 {
        let c = fetch_problem(url, Fetched::Response { status, body })->0->Network_0;
        assert(c.skip(c.len() - body->Err_0@.len()) =~= body->Err_0@);
    }
}

/// The copy in use is missing where it is not there, else an updated one where there is one,
/// and else the packed one.
pub proof fn source_of_the_copy(in_use: bool, updated: bool)
    ensures
        source_name(in_use, updated) == "missing"@ <==> !in_use,
        source_name(in_use, updated) == "app-data"@ <==> in_use && updated,
        source_name(in_use, updated) == "bundled"@ <==> in_use && !updated,
{
    reveal_strlit("missing");
    reveal_strlit("app-data");
    reveal_strlit("bundled");
    assert("missing"@[0] == 'm');
    assert("app-data"@[0] == 'a');
    assert("bundled"@[0] == 'b');
}

/// Every failed step of the installation has a text of its own.
pub proof fn install_errors_name_the_step(a: InstallStep, b: InstallStep)
    ensures
        install_prefix(a) == install_prefix(b) ==> a == b,
{
    reveal_strlit("创建目录失败: ");
    reveal_strlit("写入临时文件失败: ");
    reveal_strlit("替换二进制失败: ");
    assert("创建目录失败: "@[0] == '创');
    assert("写入临时文件失败: "@[0] == '写');
    assert("替换二进制失败: "@[0] == '替');
}

} // verus!
