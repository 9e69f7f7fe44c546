//! The control file `<name>.sparkling`, from which an interrupted download goes on.
use crate::error::{cat, ErrorView, SparklingError};
use crate::segment::{all_wf, Segment};
use crate::text::{decimal, decimal_of, opt_view};
use vstd::prelude::*;
use vstd::string::StringExecFns;

verus! {

/// What a control file records.
#[derive(Debug)]
pub struct ControlFile {
    pub url: String,
    pub etag: Option<String>,
    pub last_modified: Option<String>,
    pub total_size: u64,
    pub supports_range: bool,
    pub filename: String,
    pub segments: Vec<Segment>,
}

pub struct ControlFileView {
    pub url: Seq<char>,
    pub etag: Option<Seq<char>>,
    pub last_modified: Option<Seq<char>>,
    pub total_size: u64,
    pub supports_range: bool,
    pub filename: Seq<char>,
    pub segments: Seq<Segment>,
}

impl View for ControlFile {
    type V = ControlFileView;

    open spec fn view(&self) -> ControlFileView {
        ControlFileView {
            url: self.url@,
            etag: opt_view(self.etag),
            last_modified: opt_view(self.last_modified),
            total_size: self.total_size,
            supports_range: self.supports_range,
            filename: self.filename@,
            segments: self.segments@,
        }
    }
}

/// The control file of the file at `final_path`.
pub fn path_for(final_path: &str) -> (r: String)
    ensures
        r@ == final_path@ + ".sparkling"@,
{
    cat(final_path, ".sparkling")
}

/// Where the control file at `ctl_path` is written before it is renamed into place.
pub fn tmp_path_for(ctl_path: &str) -> (r: String)
    ensures
        r@ == ctl_path@ + ".tmp"@,
{
    cat(ctl_path, ".tmp")
}

/// The steps of saving a control file.
#[derive(Debug, Clone, Copy, PartialEq, Eq, Structural)]
pub enum SaveStep {
    Serialize,
    Write,
    Rename,
}

/// What the user is told of a failed step.
pub open spec fn save_prefix(step: SaveStep) -> Seq<char> {
    match step {
        SaveStep::Serialize => "控制文件序列化失败: "@,
        SaveStep::Write => "控制文件写入失败: "@,
        SaveStep::Rename => "控制文件落盘失败: "@,
    }
}

/// The error of saving a control file: which step failed, and why.
pub fn save_error(step: SaveStep, why: &str) -> (r: SparklingError)
    ensures
        r@ == ErrorView::DiskWrite(save_prefix(step) + why@),
{
    let prefix: &str = match step {
        SaveStep::Serialize => "控制文件序列化失败: ",
        SaveStep::Write => "控制文件写入失败: ",
        SaveStep::Rename => "控制文件落盘失败: ",
    };
    SparklingError::DiskWrite(cat(prefix, why))
}

/// Why no control file came out of a path.
#[derive(Debug)]
pub enum LoadFault {
    /// The file could not be read.
    Read(String),
    /// What was read is not a control file.
    Parse(String),
}

/// What is said of a segment that breaks its invariant.
pub open spec fn broken_text(s: Segment) -> Seq<char> {
    let len = if s.end < s.start {
        1
    } else {
        s.size()
    };
    "分片 "@ + decimal(s.index as nat) + " 不变量破坏: downloaded="@ + decimal(
        s.downloaded as nat,
    ) + " len="@ + decimal(len as nat)
}

/// The segment is not the range of all 2^64 offsets, whose size is no `u64`.
pub open spec fn measurable(s: Segment) -> bool {
    !(s.start == 0 && s.end == u64::MAX)
}

/// `k` is the first segment that breaks its invariant.
pub open spec fn first_broken(segs: Seq<Segment>, k: int) -> bool {
    &&& 0 <= k < segs.len()
    &&& !segs[k].wf()
    &&& forall|j: int| 0 <= j < k ==> (#[trigger] segs[j]).wf()
}

/// A control file is taken only if it could be read, is a control file, and every
/// segment in it is well formed: better to download again than to go on from doubtful
/// offsets.
pub fn load(parsed: Result<ControlFile, LoadFault>) -> (r: Result<ControlFile, SparklingError>)
    requires
        match parsed {
            Ok(cf) => forall|i: int|
                0 <= i < cf.segments@.len() ==> measurable(#[trigger] cf.segments@[i]),
            Err(_) => true,
        },
    ensures
        match parsed {
            Err(LoadFault::Read(why)) => r is Err && r->Err_0@ == ErrorView::CorruptControlFile(
                "读取失败: "@ + why@,
            ),
            Err(LoadFault::Parse(why)) => r is Err && r->Err_0@ == ErrorView::CorruptControlFile(
                "JSON 解析失败: "@ + why@,
            ),
            Ok(cf) => match r {
                Ok(out) => out == cf && all_wf(cf.segments@),
                Err(e) => exists|k: int|
                    #[trigger] first_broken(cf.segments@, k) && e@
                        == ErrorView::CorruptControlFile(broken_text(cf.segments@[k])),
            },
        },
{
    let cf: ControlFile = match parsed {
        Err(LoadFault::Read(why)) => {
            return Err(SparklingError::CorruptControlFile(cat("读取失败: ", why.as_str())));
        },
        Err(LoadFault::Parse(why)) => {
            return Err(SparklingError::CorruptControlFile(cat("JSON 解析失败: ", why.as_str())));
        },
        Ok(cf) => cf,
    };
    let mut i: usize = 0;
    while i < cf.segments.len()
        invariant
            parsed == Ok::<ControlFile, LoadFault>(cf),
            i <= cf.segments@.len(),
            forall|k: int|
                0 <= k < cf.segments@.len() ==> measurable(#[trigger] cf.segments@[k]),
            forall|k: int| 0 <= k < i ==> (#[trigger] cf.segments@[k]).wf(),
        decreases cf.segments@.len() - i,
    {
        let seg: Segment = cf.segments[i];
        proof {
            assert(measurable(cf.segments@[i as int]));
        }
        if seg.end < seg.start || seg.downloaded > seg.len() {
            let span: u64 = if seg.end < seg.start { 0 } else { seg.end - seg.start };
            let text: String = cat("分片 ", decimal_of(seg.index as u64).as_str()).concat(
                " 不变量破坏: downloaded=",
            ).concat(decimal_of(seg.downloaded).as_str()).concat(" len=").concat(
                decimal_of(span + 1).as_str(),
            );
            proof {
                assert(first_broken(cf.segments@, i as int));
            }
            return Err(SparklingError::CorruptControlFile(text));
        }
        i = i + 1;
    }
    Ok(cf)
}

// ---------------------------------------------------------------------------
// Laws
// ---------------------------------------------------------------------------
/// A control file is seen field by field.
pub proof fn control_files_show_every_field(cf: ControlFile)
    ensures
        cf@.url == cf.url@,
        cf@.filename == cf.filename@,
        cf@.total_size == cf.total_size,
        cf@.supports_range == cf.supports_range,
        cf@.segments == cf.segments@,
        cf@.etag is Some <==> cf.etag is Some,
        cf.etag is Some ==> cf@.etag->0 == cf.etag->0@,
        cf@.last_modified is Some <==> cf.last_modified is Some,
        cf.last_modified is Some ==> cf@.last_modified->0 == cf.last_modified->0@,
{
}

/// A segment is broken where it ends before it starts, or where more is downloaded than it
/// holds; the first such one is told of, by its number, with both sizes.
pub proof fn first_broken_segment_is_told_of(segs: Seq<Segment>, k: int)
    requires
        forall|i: int|
            0 <= i < segs.len() ==> !((#[trigger] segs[i]).start == 0 && segs[i].end == u64::MAX),
    ensures
        first_broken(segs, k) <==> {
            &&& 0 <= k < segs.len()
            &&& segs[k].end < segs[k].start || segs[k].downloaded > segs[k].end + 1
                - segs[k].start
            &&& forall|j: int|
                0 <= j < k ==> (#[trigger] segs[j]).start <= segs[j].end && segs[j].downloaded
                    <= segs[j].end + 1 - segs[j].start
        },
        first_broken(segs, k) ==> {
            let number = decimal(segs[k].index as nat);
            let text = broken_text(segs[k]);
            &&& text.len() > 3 + number.len()
            &&& text.subrange(3, 3 + number.len() as int) == number
        },
        forall|i: int| 0 <= i < segs.len() ==> measurable(#[trigger] segs[i]),
{
    assert forall|i: int| 0 <= i < segs.len() implies ((#[trigger] segs[i]).wf() <==> segs[i].start
        <= segs[i].end && segs[i].downloaded <= segs[i].end + 1 - segs[i].start) by {
        assert(!(segs[i].start == 0 && segs[i].end == u64::MAX));
    }
    if first_broken(segs, k) {
        reveal_strlit("分片 ");
        reveal_strlit(" 不变量破坏: downloaded=");
        let number = decimal(segs[k].index as nat);
        let text = broken_text(segs[k]);
        assert(text.subrange(3, 3 + number.len() as int) =~= number);
        assert forall|j: int| 0 <= j < k implies (#[trigger] segs[j]).start <= segs[j].end
            && segs[j].downloaded <= segs[j].end + 1 - segs[j].start by {
            assert(segs[j].wf());
        }
    }
}

/// Every failed step of saving has a text of its own.
pub proof fn save_errors_name_the_step(a: SaveStep, b: SaveStep)
    ensures
        save_prefix(a) == save_prefix(b) ==> a == b,
{
    reveal_strlit("控制文件序列化失败: ");
    reveal_strlit("控制文件写入失败: ");
    reveal_strlit("控制文件落盘失败: ");
    assert("控制文件序列化失败: "@[4] == '序');
    assert("控制文件写入失败: "@[4] == '写');
    assert("控制文件落盘失败: "@[4] == '落');
}

} // verus!
