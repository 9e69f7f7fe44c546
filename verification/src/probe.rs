//! Probing a URL: what the reply to a one-byte range request says of the file.
use crate::error::{cat, ErrorView, SparklingError};
use crate::text::{
    chars_of, decimal, decimal_reads_back, first_of, first_place_is_found, is_digit, opt_clone,
    opt_view, outer_pieces, parse_number, parsed_number, pieces, prefix_comes_off,
    repeated_character_comes_off, split, string_of, strip_prefix, trim, trim_leading,
    trim_trailing, trimmed, without_leading, without_prefix, without_trailing,
};
use percent_encoding::percent_decode_str;
use vstd::prelude::*;

verus! {

/// What is known of a remote file.
#[derive(Debug)]
pub struct ProbeResult {
    pub total: u64,
    pub supports_range: bool,
    pub filename: String,
    pub etag: Option<String>,
    pub last_modified: Option<String>,
    pub content_md5: Option<String>,
}

pub struct ProbeView {
    pub total: u64,
    pub supports_range: bool,
    pub filename: Seq<char>,
    pub etag: Option<Seq<char>>,
    pub last_modified: Option<Seq<char>>,
    pub content_md5: Option<Seq<char>>,
}

impl View for ProbeResult {
    type V = ProbeView;

    open spec fn view(&self) -> ProbeView {
        ProbeView {
            total: self.total,
            supports_range: self.supports_range,
            filename: self.filename@,
            etag: opt_view(self.etag),
            last_modified: opt_view(self.last_modified),
            content_md5: opt_view(self.content_md5),
        }
    }
}

impl Clone for ProbeResult {
    fn clone(&self) -> (r: Self)
        ensures
            r == *self,
    {
        ProbeResult {
            total: self.total,
            supports_range: self.supports_range,
            filename: self.filename.clone(),
            etag: opt_clone(&self.etag),
            last_modified: opt_clone(&self.last_modified),
            content_md5: opt_clone(&self.content_md5),
        }
    }
}

/// What the probe reads of a response: its status, and the headers that are there and
/// are text.
#[derive(Debug)]
pub struct ProbeReply {
    pub status: u16,
    pub content_range: Option<String>,
    pub content_length: Option<String>,
    pub content_disposition: Option<String>,
    pub etag: Option<String>,
    pub last_modified: Option<String>,
    pub content_md5: Option<String>,
}

/// Whether the reply to a range request is to be asked for again without a range: some
/// servers refuse every range.
pub fn wants_plain_request(status: u16) -> (r: bool)
    ensures
        r == (status == 416),
{
    status == 416
}

// ---------------------------------------------------------------------------
// Size
// ---------------------------------------------------------------------------
/// The size that a reply states: behind the last slash of `Content-Range` for a partial
/// reply, in `Content-Length` otherwise.
pub open spec fn stated_size(reply: ProbeReply) -> Option<nat> {
    if reply.status == 206 {
        match reply.content_range {
            Some(cr) => parsed_number(pieces(cr@, '/').last(), u64::MAX as nat),
            None => None,
        }
    } else {
        match reply.content_length {
            Some(cl) => parsed_number(cl@, u64::MAX as nat),
            None => None,
        }
    }
}

/// What is wrong with a reply that states no size.
pub open spec fn size_fault(reply: ProbeReply) -> Seq<char> {
    if reply.status == 206 {
        match reply.content_range {
            Some(cr) => "Content-Range 无法解析: "@ + cr@,
            None => "206 响应缺少 Content-Range"@,
        }
    } else {
        "服务器未提供文件大小，暂不支持"@
    }
}

fn size_of_reply(reply: &ProbeReply) -> (r: Result<u64, SparklingError>)
    ensures
        match r {
            Ok(n) => stated_size(*reply) == Some(n as nat),
            Err(e) => stated_size(*reply) is None && e@ == ErrorView::Network(size_fault(*reply)),
        },
{
    if reply.status == 206 {
        match &reply.content_range {
            None => Err(SparklingError::Network("206 响应缺少 Content-Range".to_owned())),
            Some(cr) => {
                let parts: Vec<Vec<char>> = split(chars_of(cr.as_str()).as_slice(), '/');
                match parse_number(parts[parts.len() - 1].as_slice(), u64::MAX) {
                    Some(n) => Ok(n),
                    None => Err(
                        SparklingError::Network(cat("Content-Range 无法解析: ", cr.as_str())),
                    ),
                }
            },
        }
    } else {
        let size: Option<u64> = match &reply.content_length {
            Some(cl) => parse_number(chars_of(cl.as_str()).as_slice(), u64::MAX),
            None => None,
        };
        match size {
            Some(n) => Ok(n),
            None => Err(SparklingError::Network("服务器未提供文件大小，暂不支持".to_owned())),
        }
    }
}

// ---------------------------------------------------------------------------
// File name
// ---------------------------------------------------------------------------
/// What percent-decoding makes of a text, bytes that are not UTF-8 replaced.
pub uninterp spec fn percent_decoded(s: Seq<char>) -> Seq<char>;

/// `percent_encoding::percent_decode_str` and `PercentDecode::decode_utf8_lossy`: the
/// text that the percent escapes of `s` stand for, which depends on `s` alone. A text
/// without a percent sign stays as it is.
#[verifier::external_body]
fn percent_decode(s: &str) -> (r: String)
    ensures
        r@ == percent_decoded(s@),
        !s@.contains('%') ==> r@ == s@,
{
    percent_decode_str(s).decode_utf8_lossy().into_owned()
}

/// A file name as a `Content-Disposition` header gives it.
pub enum NameView {
    /// In the extended form, still percent-encoded.
    Encoded(Seq<char>),
    /// In the plain form, without its quotes.
    Plain(Seq<char>),
}

/// A file name as a `Content-Disposition` header gives it: percent-encoded in the
/// extended form, or plain.
#[derive(Debug)]
pub enum DispositionName {
    Encoded(String),
    Plain(String),
}

impl View for DispositionName {
    type V = NameView;

    open spec fn view(&self) -> NameView {
        match *self {
            DispositionName::Encoded(s) => NameView::Encoded(s@),
            DispositionName::Plain(s) => NameView::Plain(s@),
        }
    }
}

/// The first of the header's parameters that names a file.
pub open spec fn named_in(params: Seq<Seq<char>>) -> Option<NameView>
    decreases params.len(),
{
    if params.len() == 0 {
        None
    } else {
        let p = trimmed(params[0]);
        match without_prefix(p, "filename*=UTF-8''"@) {
            Some(v) => Some(NameView::Encoded(v)),
            None => match without_prefix(p, "filename="@) {
                Some(v) => Some(
                    NameView::Plain(without_trailing(without_leading(v, '"'), '"')),
                ),
                None => named_in(params.drop_first()),
            },
        }
    }
}

/// The file name in a `Content-Disposition` header, the first one where there are
/// several.
pub fn name_in_disposition(header: &str) -> (r: Option<DispositionName>)
    ensures
        match r {
            Some(n) => named_in(pieces(header@, ';')) == Some(n@),
            None => named_in(pieces(header@, ';')) is None,
        },
{
    let params: Vec<Vec<char>> = split(chars_of(header).as_slice(), ';');
    let ghost all = pieces(header@, ';');
    let mut i: usize = 0;
    proof {
        assert(all.skip(0) =~= all);
    }
    while i < params.len()
        invariant
            i <= params@.len() == all.len(),
            forall|k: int| 0 <= k < params@.len() ==> (#[trigger] params@[k])@ == all[k],
            all == pieces(header@, ';'),
            named_in(all) == named_in(all.skip(i as int)),
        decreases params@.len() - i,
    {
        let p: &[char] = trim(params[i].as_slice());
        proof {
            assert(all.skip(i as int)[0] == all[i as int]);
            assert(all.skip(i as int).drop_first() =~= all.skip(i + 1));
        }
        if let Some(v) = strip_prefix(p, "filename*=UTF-8''") {
            return Some(DispositionName::Encoded(string_of(v)));
        }
        if let Some(v) = strip_prefix(p, "filename=") {
            return Some(
                DispositionName::Plain(string_of(trim_trailing(trim_leading(v, '"'), '"'))),
            );
        }
        i = i + 1;
    }
    None
}

/// The file name that a `Content-Disposition` header gives.
pub open spec fn disposition_filename(header: Option<Seq<char>>) -> Option<Seq<char>> {
    match header {
        None => None,
        Some(h) => match named_in(pieces(h, ';')) {
            None => None,
            Some(NameView::Encoded(v)) => Some(percent_decoded(v)),
            Some(NameView::Plain(v)) => Some(v),
        },
    }
}

/// The file name that a `Content-Disposition` header gives.
pub fn filename_from_headers(header: &Option<String>) -> (r: Option<String>)
    ensures
        opt_view(r) == disposition_filename(opt_view(*header)),
{
    match header {
        None => None,
        Some(h) => match name_in_disposition(h.as_str()) {
            None => None,
            Some(DispositionName::Encoded(v)) => Some(percent_decode(v.as_str())),
            Some(DispositionName::Plain(v)) => Some(v),
        },
    }
}

/// The text behind the last slash of a URL, up to its query or fragment.
pub open spec fn url_tail(url: Seq<char>) -> Seq<char> {
    pieces(pieces(pieces(url, '?')[0], '#')[0], '/').last()
}

/// The text behind the last slash of a URL, up to its query or fragment.
pub fn last_url_segment(url: &str) -> (r: String)
    ensures
        r@ == url_tail(url@),
{
    let by_query: Vec<Vec<char>> = split(chars_of(url).as_slice(), '?');
    let by_fragment: Vec<Vec<char>> = split(by_query[0].as_slice(), '#');
    let by_slash: Vec<Vec<char>> = split(by_fragment[0].as_slice(), '/');
    string_of(by_slash[by_slash.len() - 1].as_slice())
}

/// The name itself, or "download" where it is empty.
pub open spec fn name_or_default(name: Seq<char>) -> Seq<char> {
    if name.len() == 0 {
        "download"@
    } else {
        name
    }
}

/// The name itself, or "download" where it is empty.
pub fn or_default_name(name: String) -> (r: String)
    ensures
        r@ == name_or_default(name@),
{
    if name.as_str().is_empty() {
        "download".to_owned()
    } else {
        name
    }
}

/// The file name that a URL suggests.
pub fn filename_from_url(url: &str) -> (r: String)
    ensures
        r@ == name_or_default(percent_decoded(url_tail(url@))),
        !url_tail(url@).contains('%') ==> r@ == name_or_default(url_tail(url@)),
{
    or_default_name(percent_decode(last_url_segment(url).as_str()))
}

// ---------------------------------------------------------------------------
// The probe
// ---------------------------------------------------------------------------
/// What a probe makes of a reply, once the file name is known.
pub open spec fn probed(url: Seq<char>, reply: ProbeReply, name: Seq<char>) -> Result<
    ProbeView,
    ErrorView,
> {
    if !(200 <= reply.status < 300) {
        Err(ErrorView::HttpStatus { status: reply.status, detail: "探测失败: "@ + url })
    } else {
        match stated_size(reply) {
            None => Err(ErrorView::Network(size_fault(reply))),
            Some(n) => Ok(
                ProbeView {
                    total: n as u64,
                    supports_range: reply.status == 206,
                    filename: name,
                    etag: opt_view(reply.etag),
                    last_modified: opt_view(reply.last_modified),
                    content_md5: opt_view(reply.content_md5),
                },
            ),
        }
    }
}

/// The name that a probe finds: in the headers, else in the URL.
pub open spec fn probed_name(url: Seq<char>, reply: ProbeReply) -> Seq<char> {
    match disposition_filename(opt_view(reply.content_disposition)) {
        Some(name) => name,
        None => name_or_default(percent_decoded(url_tail(url))),
    }
}

/// Whether a probe's outcome is the one described.
pub open spec fn probe_outcome(
    r: Result<ProbeResult, SparklingError>,
    expected: Result<ProbeView, ErrorView>,
) -> bool {
    match (r, expected) {
        (Ok(p), Ok(v)) => p@ == v,
        (Err(e), Err(v)) => e@ == v,
        _ => false,
    }
}

/// What a reply says of the file, with `name` as its name.
pub fn probe_with_name(url: &str, reply: ProbeReply, name: String) -> (r: Result<
    ProbeResult,
    SparklingError,
>)
    ensures
        probe_outcome(r, probed(url@, reply, name@)),
        r is Ok ==> 200 <= reply.status <= 299 && r->Ok_0.filename@ == name@,
        !(200 <= reply.status <= 299) ==> r is Err && r->Err_0 is HttpStatus && r->Err_0->status
            == reply.status,
{
    if !(200 <= reply.status && reply.status < 300) {
        return Err(
            SparklingError::HttpStatus { status: reply.status, detail: cat("探测失败: ", url) },
        );
    }
    match size_of_reply(&reply) {
        Err(e) => Err(e),
        Ok(total) => Ok(
            ProbeResult {
                total,
                supports_range: reply.status == 206,
                filename: name,
                etag: reply.etag,
                last_modified: reply.last_modified,
                content_md5: reply.content_md5,
            },
        ),
    }
}

/// What a reply says of the file at `url`: a partial reply means that ranges are
/// supported; a success without a size is not enough.
pub fn probe(url: &str, reply: ProbeReply) -> (r: Result<ProbeResult, SparklingError>)
    ensures
        probe_outcome(r, probed(url@, reply, probed_name(url@, reply))),
        r is Ok ==> 200 <= reply.status <= 299,
        !(200 <= reply.status <= 299) ==> r is Err && r->Err_0 is HttpStatus && r->Err_0->status
            == reply.status,
{
    let name: String = match filename_from_headers(&reply.content_disposition) {
        Some(n) => n,
        None => filename_from_url(url),
    };
    probe_with_name(url, reply, name)
}

// ---------------------------------------------------------------------------
// Laws
// ---------------------------------------------------------------------------
/// A probe succeeds only with a status from 200 to 299. With any other it fails, with an
/// error that gives the status and the URL, whatever the headers say.
pub proof fn only_success_is_a_file(
    url: Seq<char>,
    reply: ProbeReply,
    name: Seq<char>,
    r: Result<ProbeResult, SparklingError>,
)
    requires
        probe_outcome(r, probed(url, reply, name)),
    ensures
        r is Ok ==> 200 <= reply.status <= 299,
        reply.status < 200 || reply.status > 299 ==> {
            &&& r is Err
            &&& r->Err_0 is HttpStatus
            &&& r->Err_0->status == reply.status
            &&& url.is_suffix_of(r->Err_0->HttpStatus_detail@)
        },
{
    if reply.status < 200 || reply.status > 299 {
        let d = "探测失败: "@ + url;
        assert(d.skip(d.len() - url.len()) =~= url);
        assert(r->Err_0@ is HttpStatus);
    }
}

/// What a probe finds is what the reply says: a partial reply means range support and nothing
/// else does; the validators and the checksum are those of the headers; and the name is the
/// one that was found.
pub proof fn probe_reports_the_reply(
    url: Seq<char>,
    reply: ProbeReply,
    name: Seq<char>,
    r: Result<ProbeResult, SparklingError>,
)
    requires
        probe_outcome(r, probed(url, reply, name)),
        r is Ok,
    ensures
        r->Ok_0.supports_range <==> reply.status == 206,
        r->Ok_0.filename@ == name,
        r->Ok_0.etag is Some <==> reply.etag is Some,
        reply.etag is Some ==> r->Ok_0.etag->0@ == reply.etag->0@,
        r->Ok_0.last_modified is Some <==> reply.last_modified is Some,
        reply.last_modified is Some ==> r->Ok_0.last_modified->0@ == reply.last_modified->0@,
        r->Ok_0.content_md5 is Some <==> reply.content_md5 is Some,
        reply.content_md5 is Some ==> r->Ok_0.content_md5->0@ == reply.content_md5->0@,
{
}

/// The size of a file is the number behind the last slash of `Content-Range` where the reply
/// is partial, and the number in `Content-Length` where it is not; with such a number a
/// successful reply is enough.
pub proof fn size_is_as_stated(
    url: Seq<char>,
    reply: ProbeReply,
    name: Seq<char>,
    r: Result<ProbeResult, SparklingError>,
    n: u64,
    range: Seq<char>,
)
    requires
        probe_outcome(r, probed(url, reply, name)),
        200 <= reply.status <= 299,
        reply.status == 206 ==> reply.content_range is Some && reply.content_range->0@
            == range.push('/') + decimal(n as nat),
        reply.status != 206 ==> reply.content_length is Some && reply.content_length->0@
            == decimal(n as nat),
    ensures
        r is Ok,
        r->Ok_0.total == n,
{
    decimal_reads_back(n as nat, u64::MAX as nat);
    let d = decimal(n as nat);
    assert forall|i: int| 0 <= i < d.len() implies d[i] != '/' by {
        assert(is_digit(d[i]));
    }
    assert(!d.contains('/'));
    outer_pieces(range, d, '/');
}

/// A successful reply without a size is a network error: without the header, or where what
/// stands for the size is no number.
pub proof fn unknown_size_is_an_error(
    url: Seq<char>,
    reply: ProbeReply,
    name: Seq<char>,
    r: Result<ProbeResult, SparklingError>,
    range: Seq<char>,
    size: Seq<char>,
)
    requires
        probe_outcome(r, probed(url, reply, name)),
        200 <= reply.status <= 299,
        !size.contains('/'),
        parsed_number(size, u64::MAX as nat) is None,
        reply.status == 206 && reply.content_range is Some ==> reply.content_range->0@
            == range.push('/') + size,
        reply.status != 206 && reply.content_length is Some ==> reply.content_length->0@ == size,
    ensures
        r is Err,
        r->Err_0 is Network,
{
    outer_pieces(range, size, '/');
    assert(r->Err_0@ is Network);
}

/// A `Content-Disposition` header gives the name of its first parameter that has one: behind
/// `filename*=UTF-8''` as it stands there, still encoded, and behind `filename=` without the
/// quotes around it.
pub proof fn first_named_parameter_counts(params: Seq<Seq<char>>, k: int, name: Seq<char>)
    requires
        0 <= k < params.len(),
        forall|j: int|
            0 <= j < k ==> !"filename*=UTF-8''"@.is_prefix_of(trimmed(#[trigger] params[j]))
                && !"filename="@.is_prefix_of(trimmed(params[j])),
        name.len() > 0 ==> name[0] != '"' && name.last() != '"',
    ensures
        trimmed(params[k]) == "filename*=UTF-8''"@ + name ==> named_in(params) == Some(
            NameView::Encoded(name),
        ),
        trimmed(params[k]) == "filename="@ + name ==> named_in(params) == Some(
            NameView::Plain(name),
        ),
        trimmed(params[k]) == "filename="@ + (seq!['"'] + name).push('"') ==> named_in(params)
            == Some(NameView::Plain(name)),
    decreases k,
{
    let long = "filename*=UTF-8''"@;
    let short = "filename="@;
    if k > 0 {
        let rest = params.drop_first();
        assert forall|j: int| 0 <= j < k - 1 implies !long.is_prefix_of(
            trimmed(#[trigger] rest[j]),
        ) && !short.is_prefix_of(trimmed(rest[j])) by {
            assert(rest[j] == params[j + 1]);
        }
        assert(rest[k - 1] == params[k]);
        assert(!long.is_prefix_of(trimmed(params[0])));
        first_named_parameter_counts(rest, k - 1, name);
    } else {
        let p = trimmed(params[0]);
        let quoted = (seq!['"'] + name).push('"');
        prefix_comes_off(p, long, name);
        prefix_comes_off(p, short, name);
        prefix_comes_off(p, short, quoted);
        reveal_strlit("filename*=UTF-8''");
        reveal_strlit("filename=");
        if p == short + name || p == short + quoted {
            assert(p[8] == '=');
            assert(long[8] == '*');
            assert(!long.is_prefix_of(p));
        }
        repeated_character_comes_off(name, '"');
        repeated_character_comes_off(name.push('"'), '"');
        assert(quoted =~= seq!['"'] + name.push('"'));
        if name.len() > 0 {
            assert(name.push('"')[0] == name[0]);
        } else {
            assert(without_leading(name.push('"'), '"') == without_leading(name, '"')) by {
                assert(name.push('"') =~= seq!['"'] + name);
            }
        }
    }
}

/// Without a parameter that has a name the header gives none.
pub proof fn nameless_header_gives_no_name(params: Seq<Seq<char>>)
    requires
        forall|j: int|
            0 <= j < params.len() ==> !"filename*=UTF-8''"@.is_prefix_of(
                trimmed(#[trigger] params[j]),
            ) && !"filename="@.is_prefix_of(trimmed(params[j])),
    ensures
        named_in(params) is None,
    decreases params.len(),
{
    if params.len() > 0 {
        let rest = params.drop_first();
        assert forall|j: int| 0 <= j < rest.len() implies !"filename*=UTF-8''"@.is_prefix_of(
            trimmed(#[trigger] rest[j]),
        ) && !"filename="@.is_prefix_of(trimmed(rest[j])) by {
            assert(rest[j] == params[j + 1]);
        }
        assert(!"filename="@.is_prefix_of(trimmed(params[0])));
        nameless_header_gives_no_name(rest);
    }
}

/// The name in a URL stands behind its last slash, up to the query or the fragment.
pub proof fn url_name_is_the_last_component(base: Seq<char>, name: Seq<char>, rest: Seq<char>)
    requires
        !base.contains('?'),
        !base.contains('#'),
        !name.contains('/'),
        !name.contains('?'),
        !name.contains('#'),
        rest.len() > 0 ==> rest[0] == '?' || rest[0] == '#',
    ensures
        url_tail(base.push('/') + name + rest) == name,
{
    let path = base.push('/') + name;
    let url = path + rest;
    assert forall|c: char| path.contains(c) implies base.contains(c) || c == '/' || name.contains(
        c,
    ) by {
        let i = choose|i: int| 0 <= i < path.len() && path[i] == c;
        if i < base.len() {
            assert(base[i] == c);
        } else if i > base.len() {
            assert(name[i - base.len() - 1] == c);
        }
    }
    assert(!path.contains('?') && !path.contains('#'));
    outer_pieces(base, name, '/');
    if rest.len() == 0 {
        assert(url =~= path);
        outer_pieces(path, rest, '?');
        outer_pieces(path, rest, '#');
    } else {
        let tail = rest.skip(1);
        assert(url =~= path.push(rest[0]) + tail);
        if rest[0] == '?' {
            outer_pieces(path, tail, '?');
            outer_pieces(path, tail, '#');
        } else {
            let k = first_of(url, '?', '?');
            first_place_is_found(url, '?', '?');
            let cut = url.take(k);
            assert(!cut.contains('?'));
            if k < url.len() {
                assert(url =~= cut.push('?') + url.skip(k + 1));
                outer_pieces(cut, url.skip(k + 1), '?');
                assert forall|i: int| 0 <= i <= path.len() implies url[i] != '?' by {
                    if i < path.len() {
                        assert(url[i] == path[i]);
                        assert(path.contains(path[i]));
                    }
                }
                assert(k > path.len());
            } else {
                assert(cut =~= url);
                outer_pieces(url, rest, '?');
            }
            assert(cut =~= path.push('#') + cut.skip(path.len() as int + 1));
            outer_pieces(path, cut.skip(path.len() as int + 1), '#');
        }
    }
}

/// The name in the headers comes before the one in the URL, the latter decoded; and a file
/// without any name is called "download".
pub proof fn headers_name_the_file_first(url: Seq<char>, reply: ProbeReply, header: String)
    ensures
        reply.content_disposition == Some(header) ==> {
            let found = named_in(pieces(header@, ';'));
            &&& found is Some && found->0 is Plain ==> probed_name(url, reply)
                == found->0->Plain_0
            &&& found is Some && found->0 is Encoded ==> probed_name(url, reply)
                == percent_decoded(found->0->Encoded_0)
            &&& found is None && percent_decoded(url_tail(url)).len() > 0 ==> probed_name(
                url,
                reply,
            ) == percent_decoded(url_tail(url))
        },
        reply.content_disposition is None && percent_decoded(url_tail(url)).len() > 0
            ==> probed_name(url, reply) == percent_decoded(url_tail(url)),
        reply.content_disposition is None && percent_decoded(url_tail(url)).len() == 0
            ==> probed_name(url, reply) == seq!['d', 'o', 'w', 'n', 'l', 'o', 'a', 'd'],
{
    reveal_strlit("download");
    assert("download"@ =~= seq!['d', 'o', 'w', 'n', 'l', 'o', 'a', 'd']);
}

/// A name in a header is seen as it is, and so is what a probe found.
pub proof fn probes_show_every_field(p: ProbeResult, name: DispositionName)
    ensures
        p@.total == p.total,
        p@.supports_range == p.supports_range,
        p@.filename == p.filename@,
        p@.etag is Some <==> p.etag is Some,
        p.etag is Some ==> p@.etag->0 == p.etag->0@,
        p@.last_modified is Some <==> p.last_modified is Some,
        p.last_modified is Some ==> p@.last_modified->0 == p.last_modified->0@,
        p@.content_md5 is Some <==> p.content_md5 is Some,
        p.content_md5 is Some ==> p@.content_md5->0 == p.content_md5->0@,
        name is Encoded ==> name@ == NameView::Encoded(name->Encoded_0@),
        name is Plain ==> name@ == NameView::Plain(name->Plain_0@),
{
}

} // verus!
