//! What yt-dlp says of a page: one video with its formats, or a playlist with its entries.
use crate::error::{cat, ErrorView, SparklingError};
use crate::text::{opt_clone, opt_view, str_eq};
use vstd::prelude::*;

verus! {

/// A video or a playlist.
#[derive(Debug)]
pub struct VideoInfo {
    pub title: String,
    pub duration_sec: Option<u64>,
    pub thumbnail: Option<String>,
    pub uploader: Option<String>,
    pub webpage_url: Option<String>,
    pub formats: Vec<FormatEntry>,
    pub playlist: Option<Vec<PlaylistEntry>>,
}

/// One of the formats in which a video can be had. The frame rate and the bit rate are
/// carried as the bits of IEEE doubles.
#[derive(Debug)]
pub struct FormatEntry {
    pub format_id: String,
    pub ext: String,
    pub height: Option<u32>,
    pub fps: Option<u64>,
    pub vcodec: String,
    pub acodec: String,
    pub filesize: Option<u64>,
    pub tbr: Option<u64>,
}

/// One entry of a playlist.
#[derive(Debug)]
pub struct PlaylistEntry {
    pub url: String,
    pub title: String,
    pub duration_sec: Option<u64>,
}

/// The fields of yt-dlp's answer, any of which may be missing.
#[derive(Debug)]
pub struct RawInfo {
    pub kind: Option<String>,
    pub title: Option<String>,
    /// In whole seconds.
    pub duration: Option<u64>,
    pub thumbnail: Option<String>,
    pub uploader: Option<String>,
    pub webpage_url: Option<String>,
    pub formats: Vec<RawFormat>,
    pub entries: Vec<RawEntry>,
}

/// The fields of a format, any of which may be missing.
#[derive(Debug)]
pub struct RawFormat {
    pub format_id: Option<String>,
    pub ext: Option<String>,
    pub height: Option<u32>,
    pub fps: Option<u64>,
    pub vcodec: Option<String>,
    pub acodec: Option<String>,
    pub filesize: Option<u64>,
    pub tbr: Option<u64>,
}

/// The fields of a playlist entry, any of which may be missing.
#[derive(Debug)]
pub struct RawEntry {
    pub id: Option<String>,
    pub title: Option<String>,
    pub url: Option<String>,
    pub webpage_url: Option<String>,
    /// In whole seconds.
    pub duration: Option<u64>,
}

pub struct InfoView {
    pub title: Seq<char>,
    pub duration_sec: Option<u64>,
    pub thumbnail: Option<Seq<char>>,
    pub uploader: Option<Seq<char>>,
    pub webpage_url: Option<Seq<char>>,
    pub formats: Seq<FormatView>,
    pub playlist: Option<Seq<EntryView>>,
}

pub struct FormatView {
    pub format_id: Seq<char>,
    pub ext: Seq<char>,
    pub height: Option<u32>,
    pub fps: Option<u64>,
    pub vcodec: Seq<char>,
    pub acodec: Seq<char>,
    pub filesize: Option<u64>,
    pub tbr: Option<u64>,
}

pub struct EntryView {
    pub url: Seq<char>,
    pub title: Seq<char>,
    pub duration_sec: Option<u64>,
}

impl View for FormatEntry {
    type V = FormatView;

    open spec fn view(&self) -> FormatView {
        FormatView {
            format_id: self.format_id@,
            ext: self.ext@,
            height: self.height,
            fps: self.fps,
            vcodec: self.vcodec@,
            acodec: self.acodec@,
            filesize: self.filesize,
            tbr: self.tbr,
        }
    }
}

impl View for PlaylistEntry {
    type V = EntryView;

    open spec fn view(&self) -> EntryView {
        EntryView { url: self.url@, title: self.title@, duration_sec: self.duration_sec }
    }
}

impl View for VideoInfo {
    type V = InfoView;

    open spec fn view(&self) -> InfoView {
        InfoView {
            title: self.title@,
            duration_sec: self.duration_sec,
            thumbnail: opt_view(self.thumbnail),
            uploader: opt_view(self.uploader),
            webpage_url: opt_view(self.webpage_url),
            formats: self.formats@.map_values(|f: FormatEntry| f@),
            playlist: match self.playlist {
                Some(v) => Some(v@.map_values(|e: PlaylistEntry| e@)),
                None => None,
            },
        }
    }
}

/// The characters of `s`, or those of `default` where it is missing.
pub open spec fn text_or(s: Option<String>, default: Seq<char>) -> Seq<char> {
    match s {
        Some(t) => t@,
        None => default,
    }
}

/// `s`, or `default` where it is missing.
fn or_text(s: &Option<String>, default: &str) -> (r: String)
    ensures
        r@ == text_or(*s, default@),
{
    match s {
        Some(t) => t.clone(),
        None => default.to_owned(),
    }
}

/// Whether a format can be downloaded: it is no storyboard, and it has a picture or a
/// sound.
pub open spec fn playable(f: RawFormat) -> bool {
    &&& opt_view(f.ext) != Some("mhtml"@)
    &&& !(text_or(f.vcodec, "none"@) == "none"@ && text_or(f.acodec, "none"@) == "none"@)
}

/// A format with its missing names filled in.
pub open spec fn format_view(f: RawFormat) -> FormatView {
    FormatView {
        format_id: text_or(f.format_id, Seq::empty()),
        ext: text_or(f.ext, "unknown"@),
        height: f.height,
        fps: f.fps,
        vcodec: text_or(f.vcodec, "none"@),
        acodec: text_or(f.acodec, "none"@),
        filesize: f.filesize,
        tbr: f.tbr,
    }
}

/// The playable formats, in their order.
pub open spec fn formats_view(raw: Seq<RawFormat>) -> Seq<FormatView>
    decreases raw.len(),
{
    if raw.len() == 0 {
        Seq::empty()
    } else if playable(raw.last()) {
        formats_view(raw.drop_last()).push(format_view(raw.last()))
    } else {
        formats_view(raw.drop_last())
    }
}

/// A playlist entry: at its own URL or else that of its page, under its title or else its
/// id. Without a URL there is none.
pub open spec fn entry_view(e: RawEntry) -> Option<EntryView> {
    let url = if e.url is Some {
        e.url
    } else {
        e.webpage_url
    };
    match url {
        None => None,
        Some(u) => Some(
            EntryView {
                url: u@,
                title: match e.title {
                    Some(t) => t@,
                    None => text_or(e.id, Seq::empty()),
                },
                duration_sec: e.duration,
            },
        ),
    }
}

/// The entries that have a URL, in their order.
pub open spec fn entries_view(raw: Seq<RawEntry>) -> Seq<EntryView>
    decreases raw.len(),
{
    if raw.len() == 0 {
        Seq::empty()
    } else {
        match entry_view(raw.last()) {
            Some(e) => entries_view(raw.drop_last()).push(e),
            None => entries_view(raw.drop_last()),
        }
    }
}

/// Whether the answer describes a playlist.
pub open spec fn is_playlist(raw: RawInfo) -> bool {
    opt_view(raw.kind) == Some("playlist"@) || raw.entries@.len() > 0
}

/// What yt-dlp's answer says.
pub open spec fn info_view(raw: RawInfo) -> InfoView {
    InfoView {
        title: text_or(raw.title, "未知标题"@),
        duration_sec: raw.duration,
        thumbnail: opt_view(raw.thumbnail),
        uploader: opt_view(raw.uploader),
        webpage_url: opt_view(raw.webpage_url),
        formats: if is_playlist(raw) {
            Seq::empty()
        } else {
            formats_view(raw.formats@)
        },
        playlist: if is_playlist(raw) {
            Some(entries_view(raw.entries@))
        } else {
            None
        },
    }
}

fn opt_is(s: &Option<String>, t: &str) -> (r: bool)
    ensures
        r == (opt_view(*s) == Some(t@)),
{
    match s {
        Some(x) => str_eq(x.as_str(), t),
        None => false,
    }
}

fn pick_formats(raw: &Vec<RawFormat>) -> (r: Vec<FormatEntry>)
    ensures
        r@.map_values(|f: FormatEntry| f@) == formats_view(raw@),
{
    let mut out: Vec<FormatEntry> = Vec::new();
    let mut i: usize = 0;
    proof {
        assert(out@.map_values(|f: FormatEntry| f@) =~= formats_view(raw@.take(0)));
    }
    while i < raw.len()
        invariant
            i <= raw@.len(),
            out@.map_values(|f: FormatEntry| f@) == formats_view(raw@.take(i as int)),
        decreases raw@.len() - i,
    {
        let f: &RawFormat = &raw[i];
        let ghost before = out@;
        let vcodec: String = or_text(&f.vcodec, "none");
        let acodec: String = or_text(&f.acodec, "none");
        proof {
            assert(raw@.take(i + 1).drop_last() =~= raw@.take(i as int));
        }
        if !opt_is(&f.ext, "mhtml") && !(str_eq(vcodec.as_str(), "none") && str_eq(
            acodec.as_str(),
            "none",
        )) {
            out.push(
                FormatEntry {
                    format_id: or_text(&f.format_id, ""),
                    ext: or_text(&f.ext, "unknown"),
                    height: f.height,
                    fps: f.fps,
                    vcodec,
                    acodec,
                    filesize: f.filesize,
                    tbr: f.tbr,
                },
            );
            proof {
                reveal_strlit("");
                assert(""@ =~= Seq::<char>::empty());
                assert(out@.map_values(|f: FormatEntry| f@) =~= before.map_values(
                    |f: FormatEntry| f@,
                ).push(format_view(raw@[i as int])));
            }
        }
        i = i + 1;
    }
    proof {
        assert(raw@.take(i as int) =~= raw@);
    }
    out
}

fn pick_entries(raw: &Vec<RawEntry>) -> (r: Vec<PlaylistEntry>)
    ensures
        r@.map_values(|e: PlaylistEntry| e@) == entries_view(raw@),
{
    let mut out: Vec<PlaylistEntry> = Vec::new();
    let mut i: usize = 0;
    proof {
        assert(out@.map_values(|e: PlaylistEntry| e@) =~= entries_view(raw@.take(0)));
    }
    while i < raw.len()
        invariant
            i <= raw@.len(),
            out@.map_values(|e: PlaylistEntry| e@) == entries_view(raw@.take(i as int)),
        decreases raw@.len() - i,
    {
        let e: &RawEntry = &raw[i];
        let ghost before = out@;
        let url: &Option<String> = if e.url.is_some() {
            &e.url
        } else {
            &e.webpage_url
        };
        proof {
            assert(raw@.take(i + 1).drop_last() =~= raw@.take(i as int));
        }
        if let Some(u) = url {
            let title: String = match &e.title {
                Some(t) => t.clone(),
                None => or_text(&e.id, ""),
            };
            out.push(PlaylistEntry { url: u.clone(), title, duration_sec: e.duration });
            proof {
                reveal_strlit("");
                assert(""@ =~= Seq::<char>::empty());
                assert(out@.map_values(|e: PlaylistEntry| e@) =~= before.map_values(
                    |e: PlaylistEntry| e@,
                ).push(entry_view(raw@[i as int])->0));
            }
        }
        i = i + 1;
    }
    proof {
        assert(raw@.take(i as int) =~= raw@);
    }
    out
}

/// What yt-dlp's answer says, given its fields, or why it could not be read.
pub fn parse_info_json(parsed: Result<RawInfo, String>) -> (r: Result<VideoInfo, SparklingError>)
    ensures
        match (parsed, r) {
            (Ok(raw), Ok(info)) => info@ == info_view(raw),
            (Err(why), Err(e)) => e@ == ErrorView::Other("解析视频信息失败: "@ + why@),
            _ => false,
        },
{
    let raw: RawInfo = match parsed {
        Ok(raw) => raw,
        Err(why) => {
            return Err(SparklingError::Other(cat("解析视频信息失败: ", why.as_str())));
        },
    };
    let title: String = or_text(&raw.title, "未知标题");
    if opt_is(&raw.kind, "playlist") || raw.entries.len() > 0 {
        let info: VideoInfo = VideoInfo {
            title,
            duration_sec: raw.duration,
            thumbnail: opt_clone(&raw.thumbnail),
            uploader: opt_clone(&raw.uploader),
            webpage_url: opt_clone(&raw.webpage_url),
            formats: Vec::new(),
            playlist: Some(pick_entries(&raw.entries)),
        };
        proof {
            assert(info@.formats =~= Seq::<FormatView>::empty());
        }
        return Ok(info);
    }
    Ok(
        VideoInfo {
            title,
            duration_sec: raw.duration,
            thumbnail: opt_clone(&raw.thumbnail),
            uploader: opt_clone(&raw.uploader),
            webpage_url: opt_clone(&raw.webpage_url),
            formats: pick_formats(&raw.formats),
            playlist: None,
        },
    )
}

/// Every format that is offered has a picture or a sound.
pub proof fn offered_formats_have_content(raw: Seq<RawFormat>, k: int)
    requires
        0 <= k < formats_view(raw).len(),
    ensures
        formats_view(raw)[k].vcodec != "none"@ || formats_view(raw)[k].acodec != "none"@,
        formats_view(raw)[k].ext != "mhtml"@,
    decreases raw.len(),
{
    if raw.len() > 0 {
        let front = formats_view(raw.drop_last());
        if k < front.len() {
            offered_formats_have_content(raw.drop_last(), k);
        } else {
            reveal_strlit("mhtml");
            reveal_strlit("unknown");
            assert("mhtml"@[0] == 'm');
            assert("unknown"@[0] == 'u');
        }
    }
}

/// Whether a format shows or plays something: it is no storyboard, and yt-dlp names a codec
/// for its picture or for its sound.
pub open spec fn has_content(f: RawFormat) -> bool {
    &&& !(f.ext is Some && f.ext->0@ == seq!['m', 'h', 't', 'm', 'l'])
    &&& {
        ||| f.vcodec is Some && f.vcodec->0@ != seq!['n', 'o', 'n', 'e']
        ||| f.acodec is Some && f.acodec->0@ != seq!['n', 'o', 'n', 'e']
    }
}

/// A text field is the value that was given, or the default where none was.
pub open spec fn given_or(field: Seq<char>, given: Option<String>, default: Seq<char>) -> bool {
    &&& given is Some ==> field == given->0@
    &&& given is None ==> field == default
}

/// The fields of an offered format are those that yt-dlp gave.
pub open spec fn is_format_of(out: FormatView, f: RawFormat) -> bool {
    &&& given_or(out.format_id, f.format_id, Seq::empty())
    &&& given_or(out.ext, f.ext, seq!['u', 'n', 'k', 'n', 'o', 'w', 'n'])
    &&& given_or(out.vcodec, f.vcodec, seq!['n', 'o', 'n', 'e'])
    &&& given_or(out.acodec, f.acodec, seq!['n', 'o', 'n', 'e'])
    &&& out.height == f.height
    &&& out.fps == f.fps
    &&& out.filesize == f.filesize
    &&& out.tbr == f.tbr
}

/// `from` are places in a list of `len` items, in ascending order.
pub open spec fn ascending(from: Seq<int>, len: int) -> bool {
    &&& forall|i: int| 0 <= i < from.len() ==> 0 <= #[trigger] from[i] < len
    &&& forall|i: int, j: int| 0 <= i < j < from.len() ==> #[trigger] from[i] < #[trigger] from[j]
}

proof fn format_literals()
    ensures
        "mhtml"@ == seq!['m', 'h', 't', 'm', 'l'],
        "none"@ == seq!['n', 'o', 'n', 'e'],
        "unknown"@ == seq!['u', 'n', 'k', 'n', 'o', 'w', 'n'],
{
    reveal_strlit("mhtml");
    reveal_strlit("none");
    reveal_strlit("unknown");
    assert("mhtml"@ =~= seq!['m', 'h', 't', 'm', 'l']);
    assert("none"@ =~= seq!['n', 'o', 'n', 'e']);
    assert("unknown"@ =~= seq!['u', 'n', 'k', 'n', 'o', 'w', 'n']);
}

proof fn formats_come_from(raw: Seq<RawFormat>) -> (from: Seq<int>)
    ensures
        from.len() == formats_view(raw).len(),
        ascending(from, raw.len() as int),
        forall|i: int|
            0 <= i < from.len() ==> has_content(raw[#[trigger] from[i]]) && is_format_of(
                formats_view(raw)[i],
                raw[from[i]],
            ),
        forall|k: int| 0 <= k < raw.len() && has_content(#[trigger] raw[k]) ==> from.contains(k),
    decreases raw.len(),
{
    format_literals();
    if raw.len() == 0 {
        Seq::empty()
    } else {
        let front = raw.drop_last();
        let n = raw.len() - 1;
        let before = formats_come_from(front);
        let last = raw.last();
        assert(playable(last) <==> has_content(last));
        let from = if playable(last) {
            before.push(n)
        } else {
            before
        };
        assert forall|i: int| 0 <= i < from.len() implies has_content(raw[#[trigger] from[i]])
            && is_format_of(formats_view(raw)[i], raw[from[i]]) by {
            if i < before.len() {
                assert(from[i] == before[i]);
                assert(front[before[i]] == raw[before[i]]);
                assert(formats_view(raw)[i] == formats_view(front)[i]);
            }
        }
        assert forall|k: int| 0 <= k < raw.len() && has_content(#[trigger] raw[k]) implies
            from.contains(k) by {
            if k < n {
                assert(front[k] == raw[k]);
                assert(before.contains(k));
                let i = choose|i: int| 0 <= i < before.len() && before[i] == k;
                assert(from[i] == k);
            } else {
                assert(from[before.len() as int] == n);
            }
        }
        from
    }
}

/// Every format that is offered is one of yt-dlp's that shows or plays something, and each of
/// those is offered, in yt-dlp's order. Each field is yt-dlp's own wherever it gave one; only
/// what is missing is filled in: the identifier by nothing, the extension by "unknown", a
/// codec by "none".
pub proof fn formats_are_offered_as_given(raw: RawInfo, info: VideoInfo) -> (from: Seq<int>)
    requires
        info@ == info_view(raw),
        raw.entries@.len() == 0,
        raw.kind is None || raw.kind->0@ != "playlist"@,
    ensures
        info.playlist is None,
        from.len() == info.formats@.len(),
        ascending(from, raw.formats@.len() as int),
        forall|k: int|
            0 <= k < raw.formats@.len() && has_content(#[trigger] raw.formats@[k])
                ==> from.contains(k),
        forall|i: int|
            #![trigger from[i]]
            0 <= i < from.len() ==> {
                let f = raw.formats@[from[i]];
                let out = info.formats@[i];
                &&& has_content(f)
                &&& f.format_id is Some ==> out.format_id@ == f.format_id->0@
                &&& f.format_id is None ==> out.format_id@.len() == 0
                &&& f.ext is Some ==> out.ext@ == f.ext->0@
                &&& f.ext is None ==> out.ext@ == seq!['u', 'n', 'k', 'n', 'o', 'w', 'n']
                &&& f.vcodec is Some ==> out.vcodec@ == f.vcodec->0@
                &&& f.vcodec is None ==> out.vcodec@ == seq!['n', 'o', 'n', 'e']
                &&& f.acodec is Some ==> out.acodec@ == f.acodec->0@
                &&& f.acodec is None ==> out.acodec@ == seq!['n', 'o', 'n', 'e']
                &&& out.height == f.height
                &&& out.fps == f.fps
                &&& out.filesize == f.filesize
                &&& out.tbr == f.tbr
            },
{
    let from = formats_come_from(raw.formats@);
    let views = formats_view(raw.formats@);
    assert(info@.formats == views);
    assert(info@.formats.len() == info.formats@.len());
    assert forall|i: int| 0 <= i < from.len() implies info.formats@[i]@ == views[i]
        && is_format_of(views[i], raw.formats@[#[trigger] from[i]]) && has_content(
        raw.formats@[from[i]],
    ) by {
        assert(info@.formats[i] == info.formats@[i]@);
    }
    from
}

/// The fields of an entry are those that yt-dlp gave.
pub open spec fn is_entry_of(out: EntryView, e: RawEntry) -> bool {
    &&& e.url is Some ==> out.url == e.url->0@
    &&& e.url is None ==> e.webpage_url is Some && out.url == e.webpage_url->0@
    &&& e.title is Some ==> out.title == e.title->0@
    &&& e.title is None && e.id is Some ==> out.title == e.id->0@
    &&& e.title is None && e.id is None ==> out.title.len() == 0
    &&& out.duration_sec == e.duration
}

proof fn entries_come_from(raw: Seq<RawEntry>) -> (from: Seq<int>)
    ensures
        from.len() == entries_view(raw).len(),
        ascending(from, raw.len() as int),
        forall|i: int|
            0 <= i < from.len() ==> is_entry_of(
                entries_view(raw)[i],
                raw[#[trigger] from[i]],
            ),
        forall|k: int|
            0 <= k < raw.len() && ((#[trigger] raw[k]).url is Some || raw[k].webpage_url is Some)
                ==> from.contains(k),
    decreases raw.len(),
{
    if raw.len() == 0 {
        Seq::empty()
    } else {
        let front = raw.drop_last();
        let n = raw.len() - 1;
        let before = entries_come_from(front);
        let last = raw.last();
        let from = if entry_view(last) is Some {
            before.push(n)
        } else {
            before
        };
        assert forall|i: int| 0 <= i < from.len() implies is_entry_of(
            entries_view(raw)[i],
            raw[#[trigger] from[i]],
        ) by {
            if i < before.len() {
                assert(from[i] == before[i]);
                assert(front[before[i]] == raw[before[i]]);
                assert(entries_view(raw)[i] == entries_view(front)[i]);
            }
        }
        assert forall|k: int|
            0 <= k < raw.len() && ((#[trigger] raw[k]).url is Some || raw[k].webpage_url
                is Some) implies from.contains(k) by {
            if k < n {
                assert(front[k] == raw[k]);
                assert(before.contains(k));
                let i = choose|i: int| 0 <= i < before.len() && before[i] == k;
                assert(from[i] == k);
            } else {
                assert(from[before.len() as int] == n);
            }
        }
        from
    }
}

/// An answer that says so, or that has entries, is a playlist: it offers no formats, and every
/// entry that has a URL of its own or of its page, in yt-dlp's order, at the former where
/// there are both, under its title or else its identifier.
pub proof fn entries_are_listed_as_given(raw: RawInfo, info: VideoInfo) -> (from: Seq<int>)
    requires
        info@ == info_view(raw),
        raw.entries@.len() > 0 || (raw.kind is Some && raw.kind->0@ == "playlist"@),
    ensures
        info.formats@.len() == 0,
        info.playlist is Some,
        from.len() == info.playlist->0@.len(),
        ascending(from, raw.entries@.len() as int),
        forall|k: int|
            0 <= k < raw.entries@.len() && ((#[trigger] raw.entries@[k]).url is Some
                || raw.entries@[k].webpage_url is Some) ==> from.contains(k),
        forall|i: int|
            #![trigger from[i]]
            0 <= i < from.len() ==> {
                let e = raw.entries@[from[i]];
                let out = info.playlist->0@[i];
                &&& e.url is Some ==> out.url@ == e.url->0@
                &&& e.url is None ==> e.webpage_url is Some && out.url@ == e.webpage_url->0@
                &&& e.title is Some ==> out.title@ == e.title->0@
                &&& e.title is None && e.id is Some ==> out.title@ == e.id->0@
                &&& e.title is None && e.id is None ==> out.title@.len() == 0
                &&& out.duration_sec == e.duration
            },
{
    let from = entries_come_from(raw.entries@);
    let views = entries_view(raw.entries@);
    assert(info@.playlist == Some(views));
    assert(info@.formats.len() == info.formats@.len());
    let list = info.playlist->0@;
    assert(list.map_values(|e: PlaylistEntry| e@) == views);
    assert(list.map_values(|e: PlaylistEntry| e@).len() == list.len());
    assert forall|i: int| 0 <= i < from.len() implies list[i]@ == views[i] && is_entry_of(
        views[i],
        raw.entries@[#[trigger] from[i]],
    ) by {
        assert(list.map_values(|e: PlaylistEntry| e@)[i] == list[i]@);
    }
    from
}

/// The title, the duration, the picture, the uploader and the page are yt-dlp's own; only a
/// missing title is filled in.
pub proof fn page_is_described_as_given(raw: RawInfo, info: VideoInfo)
    requires
        info@ == info_view(raw),
    ensures
        raw.title is Some ==> info.title@ == raw.title->0@,
        raw.title is None ==> info.title@ == "未知标题"@,
        info.duration_sec == raw.duration,
        info.thumbnail is Some <==> raw.thumbnail is Some,
        raw.thumbnail is Some ==> info.thumbnail->0@ == raw.thumbnail->0@,
        info.uploader is Some <==> raw.uploader is Some,
        raw.uploader is Some ==> info.uploader->0@ == raw.uploader->0@,
        info.webpage_url is Some <==> raw.webpage_url is Some,
        raw.webpage_url is Some ==> info.webpage_url->0@ == raw.webpage_url->0@,
{
}

} // verus!
