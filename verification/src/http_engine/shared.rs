//! The state that all workers of one download share: the segment table, the progress
//! derived from it, and the flags.
use crate::control_file::{ControlFile, ControlFileView};
use crate::engine::SegmentProgress;
use crate::error::{ErrorView, SparklingError};
use crate::probe::{ProbeResult, ProbeView};
use crate::segment::{
    all_wf, cut_at, cut_keeps_tiles, progress_keeps_tiles, sum_bounds, sum_downloaded,
    sum_downloaded_prefix, sum_downloaded_update, sum_size, sum_size_update, take_over, tiles,
    Segment,
};
use crate::text::opt_clone;
use vstd::prelude::*;

verus! {

/// Segments with less than this left are not split further.
pub const STEAL_THRESHOLD: u64 = 262144;

/// The place of the first segment with the number `index`.
pub open spec fn place(segs: Seq<Segment>, index: usize) -> Option<int>
    decreases segs.len(),
{
    if segs.len() == 0 {
        None
    } else {
        match place(segs.drop_last(), index) {
            Some(k) => Some(k),
            None => if segs.last().index == index {
                Some(segs.len() - 1)
            } else {
                None
            },
        }
    }
}

/// The segments are numbered from 0 on without a gap, in any order.
pub open spec fn numbered(segs: Seq<Segment>) -> bool {
    &&& forall|i: int| 0 <= i < segs.len() ==> (#[trigger] segs[i]).index < segs.len()
    &&& forall|i: int, j: int|
        0 <= i < segs.len() && 0 <= j < segs.len() && i != j ==> (#[trigger] segs[i]).index != (
        #[trigger] segs[j]).index
}

/// A table that a download can work with: well-formed segments that together hold no
/// more than `u64::MAX` bytes, numbered from 0 on.
pub open spec fn table_ok(segs: Seq<Segment>) -> bool {
    all_wf(segs) && sum_size(segs) <= u64::MAX && numbered(segs)
}

/// The place of the segment with the most bytes left; the last of them where there are
/// several.
pub open spec fn richest(segs: Seq<Segment>) -> int
    decreases segs.len(),
{
    if segs.len() <= 1 {
        0
    } else {
        let r = richest(segs.drop_last());
        if segs.last().left() >= segs[r].left() {
            segs.len() - 1
        } else {
            r
        }
    }
}

/// Where a segment is cut when its second half is handed over.
pub open spec fn half_point(s: Segment) -> int {
    s.start + s.downloaded + s.left() / 2
}

/// Whether some segment has enough left to be split.
pub open spec fn can_steal(segs: Seq<Segment>) -> bool {
    segs.len() > 0 && segs[richest(segs)].left() >= STEAL_THRESHOLD
}

/// The segment that an idle worker gets: the second half of what is left of the richest
/// one, under the next free number.
pub open spec fn stolen(segs: Seq<Segment>) -> Segment {
    let v = richest(segs);
    Segment {
        index: segs.len() as usize,
        start: half_point(segs[v]) as u64,
        end: segs[v].end,
        downloaded: 0,
    }
}

/// The table after that.
pub open spec fn after_steal(segs: Seq<Segment>) -> Seq<Segment> {
    let v = richest(segs);
    cut_at(segs, v, half_point(segs[v]), segs.len() as usize)
}

/// The table after the segment `index` has reported that `downloaded` bytes are there;
/// no more than its size count.
pub open spec fn after_progress(segs: Seq<Segment>, index: usize, downloaded: u64) -> Seq<Segment> {
    match place(segs, index) {
        Some(k) => segs.update(
            k,
            Segment {
                downloaded: if downloaded <= segs[k].size() {
                    downloaded
                } else {
                    segs[k].size() as u64
                },
                ..segs[k]
            },
        ),
        None => segs,
    }
}

/// The progress of each segment of a table.
pub open spec fn progress_of(segs: Seq<Segment>) -> Seq<SegmentProgress> {
    segs.map_values(
        |s: Segment|
            SegmentProgress { index: s.index, downloaded: s.downloaded, len: s.size() as u64 },
    )
}

/// The state that the workers of one download share.
#[derive(Debug)]
pub struct Shared {
    pub url: String,
    pub filename: String,
    pub probe: ProbeResult,
    pub segments: Vec<Segment>,
    /// Bytes downloaded, over all segments.
    pub downloaded: u64,
    pub paused: bool,
    pub cancelled: bool,
    pub failed: Option<SparklingError>,
    /// The next free segment number.
    pub next_index: usize,
    pub finished: bool,
}

pub struct SharedView {
    pub url: Seq<char>,
    pub filename: Seq<char>,
    pub probe: ProbeView,
    pub segments: Seq<Segment>,
    pub downloaded: int,
    pub paused: bool,
    pub cancelled: bool,
    pub failed: Option<ErrorView>,
    pub next_index: int,
    pub finished: bool,
}

/// An optional error seen through its view.
pub open spec fn opt_error_view(e: Option<SparklingError>) -> Option<ErrorView> {
    match e {
        Some(x) => Some(x@),
        None => None,
    }
}

impl View for Shared {
    type V = SharedView;

    open spec fn view(&self) -> SharedView {
        SharedView {
            url: self.url@,
            filename: self.filename@,
            probe: self.probe@,
            segments: self.segments@,
            downloaded: self.downloaded as int,
            paused: self.paused,
            cancelled: self.cancelled,
            failed: opt_error_view(self.failed),
            next_index: self.next_index as int,
            finished: self.finished,
        }
    }
}

impl SharedView {
    /// The state with another table, and the progress derived from it.
    pub open spec fn with_table(self, segs: Seq<Segment>) -> SharedView {
        SharedView { segments: segs, downloaded: sum_downloaded(segs), ..self }
    }

    /// The state after the segment `index` has reported its progress.
    pub open spec fn progressed(self, index: usize, downloaded: u64) -> SharedView {
        self.with_table(after_progress(self.segments, index, downloaded))
    }

    /// The state after an idle worker has been given a segment.
    pub open spec fn after_theft(self) -> SharedView {
        SharedView {
            segments: after_steal(self.segments),
            next_index: self.next_index + 1,
            ..self
        }
    }

    /// The state after a worker has failed.
    pub open spec fn after_failure(self, e: ErrorView) -> SharedView {
        SharedView { failed: Some(e), ..self }
    }

    /// What the control file records of this state.
    pub open spec fn recorded(self) -> ControlFileView {
        ControlFileView {
            url: self.url,
            etag: self.probe.etag,
            last_modified: self.probe.last_modified,
            total_size: self.probe.total,
            supports_range: self.probe.supports_range,
            filename: self.filename,
            segments: self.segments,
        }
    }
}

/// A copy of a segment table.
pub fn segments_clone(v: &Vec<Segment>) -> (r: Vec<Segment>)
    ensures
        r@ == v@,
{
    let mut out: Vec<Segment> = Vec::new();
    let mut i: usize = 0;
    while i < v.len()
        invariant
            i <= v@.len(),
            out@ == v@.take(i as int),
        decreases v@.len() - i,
    {
        out.push(v[i]);
        i = i + 1;
        proof {
            assert(v@.take(i as int) =~= v@.take(i - 1).push(v@[i - 1]));
        }
    }
    proof {
        assert(v@.take(v@.len() as int) =~= v@);
    }
    out
}

/// The place of a segment, or that none has its number.
pub proof fn place_is_first(segs: Seq<Segment>, index: usize)
    ensures
        match place(segs, index) {
            Some(k) => 0 <= k < segs.len() && segs[k].index == index && forall|j: int|
                0 <= j < k ==> (#[trigger] segs[j]).index != index,
            None => forall|j: int| 0 <= j < segs.len() ==> (#[trigger] segs[j]).index != index,
        },
    decreases segs.len(),
{
    if segs.len() > 0 {
        let front = segs.drop_last();
        place_is_first(front, index);
        assert(forall|j: int| 0 <= j < front.len() ==> #[trigger] segs[j] == front[j]);
    }
}

/// A segment stands where its number is found, where the numbers differ.
pub proof fn place_of(segs: Seq<Segment>, k: int)
    requires
        0 <= k < segs.len(),
        numbered(segs),
    ensures
        place(segs, segs[k].index) == Some(k),
{
    place_is_first(segs, segs[k].index);
}

/// No segment has more left than the richest one.
pub proof fn richest_is_max(segs: Seq<Segment>)
    requires
        segs.len() > 0,
    ensures
        0 <= richest(segs) < segs.len(),
        forall|j: int|
            0 <= j < segs.len() ==> (#[trigger] segs[j]).left() <= segs[richest(segs)].left(),
        forall|j: int|
            richest(segs) < j < segs.len() ==> (#[trigger] segs[j]).left()
                < segs[richest(segs)].left(),
    decreases segs.len(),
{
    if segs.len() > 1 {
        let front = segs.drop_last();
        richest_is_max(front);
        assert(forall|j: int| 0 <= j < front.len() ==> #[trigger] segs[j] == front[j]);
    }
}

impl Shared {
    /// The table can be worked with, and its next free number is its length.
    pub open spec fn wf(self) -> bool {
        table_ok(self.segments@) && self.next_index == self.segments@.len()
    }

    /// The progress is the sum of the segments' progress.
    pub open spec fn counted(self) -> bool {
        self.downloaded == sum_downloaded(self.segments@)
    }

    /// A download that starts with the given table.
    pub fn new(url: String, filename: String, probe: ProbeResult, segments: Vec<Segment>) -> (r:
        Self)
        ensures
            r.url == url,
            r.filename == filename,
            r.probe == probe,
            r.segments@ == segments@,
            r.downloaded == 0,
            !r.paused,
            !r.cancelled,
            r.failed is None,
            r.next_index == segments@.len(),
            !r.finished,
            table_ok(segments@) ==> r.wf(),
    {
        let n: usize = segments.len();
        Shared {
            url,
            filename,
            probe,
            segments,
            downloaded: 0,
            paused: false,
            cancelled: false,
            failed: None,
            next_index: n,
            finished: false,
        }
    }

    fn find(&self, index: usize) -> (r: Option<usize>)
        ensures
            match r {
                Some(k) => place(self.segments@, index) == Some(k as int) && k
                    < self.segments@.len(),
                None => place(self.segments@, index) is None,
            },
    {
        let mut i: usize = 0;
        while i < self.segments.len()
            invariant
                i <= self.segments@.len(),
                forall|j: int| 0 <= j < i ==> (#[trigger] self.segments@[j]).index != index,
            decreases self.segments@.len() - i,
        {
            if self.segments[i].index == index {
                proof {
                    place_is_first(self.segments@, index);
                }
                return Some(i);
            }
            i = i + 1;
        }
        proof {
            place_is_first(self.segments@, index);
        }
        None
    }

    /// The segment with the number `index`.
    pub fn segment(&self, index: usize) -> (r: Segment)
        requires
            place(self.segments@, index) is Some,
        ensures
            r == self.segments@[place(self.segments@, index)->0],
            r.index == index,
    {
        match self.find(index) {
            Some(k) => {
                proof {
                    place_is_first(self.segments@, index);
                }
                self.segments[k]
            },
            None => Segment { index, start: 0, end: 0, downloaded: 0 },
        }
    }

    /// The sum of the segments' progress.
    pub fn total_downloaded(&self) -> (r: u64)
        requires
            sum_downloaded(self.segments@) <= u64::MAX,
        ensures
            r == sum_downloaded(self.segments@),
    {
        let mut sum: u64 = 0;
        let mut i: usize = 0;
        while i < self.segments.len()
            invariant
                i <= self.segments@.len(),
                sum == sum_downloaded(self.segments@.take(i as int)),
                sum_downloaded(self.segments@) <= u64::MAX,
            decreases self.segments@.len() - i,
        {
            proof {
                assert(self.segments@.take(i + 1).drop_last() =~= self.segments@.take(i as int));
                sum_downloaded_prefix(self.segments@, i + 1);
            }
            sum = sum + self.segments[i].downloaded;
            i = i + 1;
        }
        proof {
            assert(self.segments@.take(i as int) =~= self.segments@);
        }
        sum
    }

    /// Takes the progress that the segments already have as the progress of the
    /// download.
    pub fn count(&mut self)
        requires
            old(self).wf(),
        ensures
            final(self).wf(),
            final(self).counted(),
            final(self)@ == old(self)@.with_table(old(self)@.segments),
    {
        proof {
            sum_bounds(self.segments@);
        }
        self.downloaded = self.total_downloaded();
    }

    /// Sets the progress of one segment and derives the total anew. More than the
    /// segment's size does not count: it may have been cut while bytes were under way.
    pub fn add_progress(&mut self, index: usize, downloaded: u64)
        requires
            old(self).wf(),
        ensures
            final(self).wf(),
            final(self).counted(),
            final(self)@ == old(self)@.progressed(index, downloaded),
    {
        proof {
            after_progress_ok(self.segments@, index, downloaded);
        }
        if let Some(k) = self.find(index) {
            let s: Segment = self.segments[k];
            proof {
                assert(self.segments@[k as int].wf());
            }
            let d: u64 = if downloaded <= s.len() { downloaded } else { s.len() };
            let upd: Segment = Segment {
                index: s.index,
                start: s.start,
                end: s.end,
                downloaded: d,
            };
            self.segments.set(k, upd);
        }
        proof {
            assert(self.segments@ =~= after_progress(old(self).segments@, index, downloaded));
            sum_bounds(self.segments@);
        }
        self.downloaded = self.total_downloaded();
    }

    /// The size of a segment as it now is, 0 where there is none with that number.
    pub fn segment_len(&self, index: usize) -> (r: u64)
        requires
            self.wf(),
        ensures
            r == match place(self.segments@, index) {
                Some(k) => self.segments@[k].size(),
                None => 0,
            },
    {
        match self.find(index) {
            Some(k) => {
                proof {
                    assert(self.segments@[k as int].wf());
                }
                self.segments[k].len()
            },
            None => 0,
        }
    }

    /// Gives an idle worker the second half of what is left of the richest segment,
    /// unless that has less than `STEAL_THRESHOLD` left. The new segment enters the table.
    pub fn steal_largest(&mut self) -> (r: Option<Segment>)
        requires
            old(self).wf(),
        ensures
            final(self).wf(),
            old(self).counted() ==> final(self).counted(),
            match r {
                None => !can_steal(old(self).segments@) && *final(self) == *old(self),
                Some(s) => {
                    &&& can_steal(old(self).segments@)
                    &&& s == stolen(old(self).segments@)
                    &&& final(self)@ == old(self)@.after_theft()
                },
            },
    {
        if self.segments.len() == 0 {
            return None;
        }
        let mut v: usize = 0;
        let mut i: usize = 1;
        proof {
            assert(self.segments@.take(1).len() == 1);
        }
        while i < self.segments.len()
            invariant
                self.wf(),
                1 <= i <= self.segments@.len(),
                v < i,
                v == richest(self.segments@.take(i as int)),
            decreases self.segments@.len() - i,
        {
            proof {
                assert(self.segments@.take(i + 1).drop_last() =~= self.segments@.take(i as int));
                assert(self.segments@[i as int].wf());
                assert(self.segments@[v as int].wf());
            }
            if self.segments[i].remaining() >= self.segments[v].remaining() {
                v = i;
            }
            i = i + 1;
        }
        proof {
            assert(self.segments@.take(i as int) =~= self.segments@);
            assert(self.segments@[v as int].wf());
        }
        if self.segments[v].remaining() < STEAL_THRESHOLD {
            return None;
        }
        let ghost before = self.segments@;
        let mut victim: Segment = self.segments[v];
        let fresh: usize = self.segments.len();
        match take_over(&mut victim, fresh) {
            Some(new) => {
                self.segments.set(v, victim);
                self.segments.push(new);
                self.next_index = self.segments.len();
                proof {
                    assert(self.segments@ =~= after_steal(before));
                    after_steal_ok(before);
                }
                Some(new)
            },
            None => None,
        }
    }

    /// The progress of each segment.
    pub fn snapshot_segments(&self) -> (r: Vec<SegmentProgress>)
        requires
            self.wf(),
        ensures
            r@ == progress_of(self.segments@),
    {
        let mut out: Vec<SegmentProgress> = Vec::new();
        let mut i: usize = 0;
        while i < self.segments.len()
            invariant
                self.wf(),
                i <= self.segments@.len(),
                out@ == progress_of(self.segments@).take(i as int),
            decreases self.segments@.len() - i,
        {
            let s: Segment = self.segments[i];
            proof {
                assert(self.segments@[i as int].wf());
            }
            out.push(SegmentProgress { index: s.index, downloaded: s.downloaded, len: s.len() });
            i = i + 1;
            proof {
                assert(progress_of(self.segments@).take(i as int) =~= progress_of(
                    self.segments@,
                ).take(i - 1).push(progress_of(self.segments@)[i - 1]));
            }
        }
        proof {
            assert(progress_of(self.segments@).take(i as int) =~= progress_of(self.segments@));
        }
        out
    }

    /// What the control file is to record.
    pub fn build_control_file(&self) -> (r: ControlFile)
        ensures
            r@ == self@.recorded(),
    {
        ControlFile {
            url: self.url.clone(),
            etag: opt_clone(&self.probe.etag),
            last_modified: opt_clone(&self.probe.last_modified),
            total_size: self.probe.total,
            supports_range: self.probe.supports_range,
            filename: self.filename.clone(),
            segments: segments_clone(&self.segments),
        }
    }

    /// Records why the download failed, in place of an earlier reason.
    pub fn fail(&mut self, e: SparklingError)
        ensures
            *final(self) == (Shared { failed: Some(e), ..*old(self) }),
            final(self)@ == old(self)@.after_failure(e@),
    {
        self.failed = Some(e);
    }
}

// ---------------------------------------------------------------------------
// Laws
// ---------------------------------------------------------------------------
/// Progress keeps a table workable.
pub proof fn after_progress_ok(segs: Seq<Segment>, index: usize, downloaded: u64)
    requires
        table_ok(segs),
    ensures
        table_ok(after_progress(segs, index, downloaded)),
        sum_size(after_progress(segs, index, downloaded)) == sum_size(segs),
{
    place_is_first(segs, index);
    let out = after_progress(segs, index, downloaded);
    if let Some(k) = place(segs, index) {
        assert(segs[k].wf());
        sum_size_update(segs, k, out[k]);
        assert forall|i: int| 0 <= i < out.len() implies (#[trigger] out[i]).wf() by {
            assert(segs[i].wf());
        }
        assert forall|i: int| 0 <= i < out.len() implies (#[trigger] out[i]).index
            < out.len() by {
            assert(segs[i].index < segs.len());
        }
        assert forall|i: int, j: int|
            0 <= i < out.len() && 0 <= j < out.len() && i != j implies (#[trigger] out[i]).index
            != (#[trigger] out[j]).index by {
            assert(segs[i].index != segs[j].index);
        }
    }
}

/// Where stealing is possible, it cuts the richest segment behind what it has
/// downloaded, and keeps a table workable and its progress unchanged.
pub proof fn after_steal_ok(segs: Seq<Segment>)
    requires
        table_ok(segs),
        can_steal(segs),
        segs.len() < usize::MAX,
    ensures
        table_ok(after_steal(segs)),
        sum_downloaded(after_steal(segs)) == sum_downloaded(segs),
        sum_size(after_steal(segs)) == sum_size(segs),
        stolen(segs).left() >= STEAL_THRESHOLD / 2,
        after_steal(segs).last() == stolen(segs),
{
    richest_is_max(segs);
    let v = richest(segs);
    assert(segs[v].wf());
    let cut = half_point(segs[v]);
    let out = after_steal(segs);
    let shrunk = out[v];
    let upd = segs.update(v, shrunk);
    assert(out.drop_last() =~= upd);
    sum_size_update(segs, v, shrunk);
    sum_downloaded_update(segs, v, shrunk);
    assert forall|i: int| 0 <= i < out.len() implies (#[trigger] out[i]).wf() by {
        if i < segs.len() && i != v {
            assert(out[i] == segs[i]);
        }
    }
    assert forall|i: int| 0 <= i < out.len() implies (#[trigger] out[i]).index < out.len() by {
        if i < segs.len() {
            assert(segs[i].index < segs.len());
        }
    }
    assert forall|i: int, j: int|
        0 <= i < out.len() && 0 <= j < out.len() && i != j implies (#[trigger] out[i]).index != (
    #[trigger] out[j]).index by {
        if i < segs.len() && j < segs.len() {
            assert(segs[i].index != segs[j].index);
        } else if i < segs.len() {
            assert(segs[i].index < segs.len());
        } else {
            assert(segs[j].index < segs.len());
        }
    }
}

/// Progress reports keep the partition of the file.
pub proof fn progress_keeps_partition(
    segs: Seq<Segment>,
    total: int,
    index: usize,
    downloaded: u64,
)
    requires
        tiles(segs, total),
    ensures
        tiles(after_progress(segs, index, downloaded), total),
{
    place_is_first(segs, index);
    if let Some(k) = place(segs, index) {
        assert(segs[k].wf());
        let d = if downloaded <= segs[k].size() {
            downloaded
        } else {
            segs[k].size() as u64
        };
        progress_keeps_tiles(segs, total, k, d);
    }
}

/// Stealing keeps the partition of the file and the bytes downloaded.
pub proof fn stealing_keeps_partition(segs: Seq<Segment>, total: int)
    requires
        tiles(segs, total),
        can_steal(segs),
    ensures
        tiles(after_steal(segs), total),
        sum_downloaded(after_steal(segs)) == sum_downloaded(segs),
{
    richest_is_max(segs);
    let v = richest(segs);
    assert(segs[v].wf());
    cut_keeps_tiles(segs, total, v, half_point(segs[v]), segs.len() as usize);
}

/// A segment is handed over exactly where some segment has at least 256 KiB left.
pub proof fn stealing_needs_enough(segs: Seq<Segment>)
    ensures
        can_steal(segs) <==> exists|i: int|
            0 <= i < segs.len() && (#[trigger] segs[i]).end + 1 - segs[i].start
                - segs[i].downloaded >= 262144,
{
    if segs.len() > 0 {
        richest_is_max(segs);
        let v = richest(segs);
        if can_steal(segs) {
            assert(segs[v].end + 1 - segs[v].start - segs[v].downloaded >= 262144);
        }
    }
}

/// What is handed over is the second half of what is left of one segment, of which none has
/// more left: that segment keeps its start and its progress and now ends just before the new
/// one, which ends where it ended and has nothing downloaded. The other segments stay. The
/// new one has the next free number, and the new table one segment more.
pub proof fn stealing_halves_the_largest(sh: SharedView) -> (v: int)
    requires
        table_ok(sh.segments),
        can_steal(sh.segments),
        sh.segments.len() < usize::MAX,
    ensures
        0 <= v < sh.segments.len(),
        ({
            let segs = sh.segments;
            let after = sh.after_theft();
            let out = after.segments;
            let new = stolen(segs);
            let left = segs[v].end + 1 - segs[v].start - segs[v].downloaded;
            &&& forall|i: int|
                0 <= i < segs.len() ==> (#[trigger] segs[i]).end + 1 - segs[i].start
                    - segs[i].downloaded <= left
            &&& out.len() == segs.len() + 1
            &&& forall|i: int| 0 <= i < segs.len() && i != v ==> #[trigger] out[i] == segs[i]
            &&& out[v].index == segs[v].index
            &&& out[v].start == segs[v].start
            &&& out[v].downloaded == segs[v].downloaded
            &&& out[v].end + 1 == new.start
            &&& out.last() == new
            &&& new.index == segs.len()
            &&& new.start == segs[v].start + segs[v].downloaded + left / 2
            &&& new.end == segs[v].end
            &&& new.downloaded == 0
            &&& after.next_index == sh.next_index + 1
            &&& after.downloaded == sh.downloaded
            &&& after.failed == sh.failed
            &&& after.paused == sh.paused
            &&& after.cancelled == sh.cancelled
            &&& after.finished == sh.finished
            &&& after.probe == sh.probe
            &&& after.url == sh.url
            &&& after.filename == sh.filename
        }),
{
    richest_is_max(sh.segments);
    let v = richest(sh.segments);
    assert(sh.segments[v].wf());
    v
}

/// A report of progress sets the progress of the segment with that number, to no more than it
/// holds, leaves the others as they are, and makes the progress of the download the sum. A
/// number that no segment has changes no segment.
pub proof fn progress_is_the_reporters(sh: SharedView, index: usize, downloaded: u64, k: int)
    requires
        all_wf(sh.segments),
        0 <= k < sh.segments.len(),
        forall|j: int| 0 <= j < k ==> (#[trigger] sh.segments[j]).index != index,
    ensures
        ({
            let out = sh.progressed(index, downloaded);
            let own = sh.segments[k];
            let size = own.end + 1 - own.start;
            &&& out.segments.len() == sh.segments.len()
            &&& out.segments[k].start == own.start
            &&& out.segments[k].end == own.end
            &&& out.segments[k].index == own.index
            &&& own.index == index ==> out.segments[k].downloaded == if downloaded <= size {
                downloaded as int
            } else {
                size
            }
            &&& own.index != index ==> out.segments[k] == own
            &&& own.index == index ==> forall|j: int|
                0 <= j < sh.segments.len() && j != k ==> #[trigger] out.segments[j]
                    == sh.segments[j]
            &&& out.downloaded == sum_downloaded(out.segments)
            &&& out.failed == sh.failed
            &&& out.paused == sh.paused
            &&& out.cancelled == sh.cancelled
            &&& out.probe == sh.probe
            &&& out.next_index == sh.next_index
        }),
{
    place_is_first(sh.segments, index);
    assert(sh.segments[k].wf());
}

/// What is reported of each segment is its number, its progress and its size, in the order of
/// the table.
pub proof fn reports_show_every_segment(segs: Seq<Segment>, i: int)
    requires
        0 <= i < segs.len(),
        segs[i].wf(),
    ensures
        progress_of(segs).len() == segs.len(),
        progress_of(segs)[i].index == segs[i].index,
        progress_of(segs)[i].downloaded == segs[i].downloaded,
        progress_of(segs)[i].len == segs[i].end + 1 - segs[i].start,
{
}

/// The control file records the URL, the name, the size, the validators and the range support
/// as they were probed, and the table as it is.
pub proof fn control_file_records_the_download(sh: Shared, cf: ControlFile)
    requires
        cf@ == sh@.recorded(),
    ensures
        cf.url@ == sh.url@,
        cf.filename@ == sh.filename@,
        cf.total_size == sh.probe.total,
        cf.supports_range == sh.probe.supports_range,
        cf.segments@ == sh.segments@,
        cf.etag is Some <==> sh.probe.etag is Some,
        cf.etag is Some ==> cf.etag->0@ == sh.probe.etag->0@,
        cf.last_modified is Some <==> sh.probe.last_modified is Some,
        cf.last_modified is Some ==> cf.last_modified->0@ == sh.probe.last_modified->0@,
{
}

/// A failure is recorded as it is, and changes nothing else.
pub proof fn failure_is_recorded(sh: SharedView, e: ErrorView)
    ensures
        sh.after_failure(e).failed == Some(e),
        sh.after_failure(e).segments == sh.segments,
        sh.after_failure(e).downloaded == sh.downloaded,
        sh.after_failure(e).paused == sh.paused,
        sh.after_failure(e).cancelled == sh.cancelled,
        sh.after_failure(e).finished == sh.finished,
        sh.after_failure(e).probe == sh.probe,
        sh.after_failure(e).next_index == sh.next_index,
        sh.after_failure(e).url == sh.url,
        sh.after_failure(e).filename == sh.filename,
{
}

/// A table is workable where its segments are ranges with no more downloaded than they hold,
/// hold together no more than a `u64` counts, and have the numbers from 0 on, each once.
pub proof fn workable_tables(segs: Seq<Segment>)
    ensures
        table_ok(segs) <==> {
            &&& sum_size(segs) <= u64::MAX
            &&& forall|i: int|
                0 <= i < segs.len() ==> (#[trigger] segs[i]).start <= segs[i].end && segs[i].end
                    + 1 - segs[i].start <= u64::MAX && segs[i].downloaded <= segs[i].end + 1
                    - segs[i].start
            &&& forall|i: int| 0 <= i < segs.len() ==> (#[trigger] segs[i]).index < segs.len()
            &&& forall|i: int, j: int|
                0 <= i < j < segs.len() ==> (#[trigger] segs[i]).index != (
                #[trigger] segs[j]).index
        },
{
    if forall|i: int|
        0 <= i < segs.len() ==> (#[trigger] segs[i]).start <= segs[i].end && segs[i].end + 1
            - segs[i].start <= u64::MAX && segs[i].downloaded <= segs[i].end + 1
            - segs[i].start {
        assert(all_wf(segs));
    }
    if table_ok(segs) {
        assert forall|i: int| 0 <= i < segs.len() implies (#[trigger] segs[i]).start
            <= segs[i].end && segs[i].end + 1 - segs[i].start <= u64::MAX && segs[i].downloaded
            <= segs[i].end + 1 - segs[i].start by {
            assert(segs[i].wf());
        }
    }
}

/// The shared state is seen field by field.
pub proof fn shared_state_shows_every_field(sh: Shared)
    ensures
        sh@.url == sh.url@,
        sh@.filename == sh.filename@,
        sh@.segments == sh.segments@,
        sh@.downloaded == sh.downloaded,
        sh@.paused == sh.paused,
        sh@.cancelled == sh.cancelled,
        sh@.finished == sh.finished,
        sh@.next_index == sh.next_index,
        sh@.failed is Some <==> sh.failed is Some,
        sh.failed is Some ==> sh@.failed->0 == sh.failed->0@,
        sh@.probe.total == sh.probe.total,
        sh@.probe.supports_range == sh.probe.supports_range,
        sh@.probe.filename == sh.probe.filename@,
        sh@.probe.etag is Some <==> sh.probe.etag is Some,
        sh.probe.etag is Some ==> sh@.probe.etag->0 == sh.probe.etag->0@,
        sh@.probe.last_modified is Some <==> sh.probe.last_modified is Some,
        sh.probe.last_modified is Some ==> sh@.probe.last_modified->0
            == sh.probe.last_modified->0@,
        sh@.probe.content_md5 is Some <==> sh.probe.content_md5 is Some,
        sh.probe.content_md5 is Some ==> sh@.probe.content_md5->0 == sh.probe.content_md5->0@,
        sh.counted() <==> sh.downloaded == sum_downloaded(sh.segments@),
{
}

/// Another table brings its own progress, and changes nothing else.
pub proof fn tables_bring_their_progress(sh: SharedView, segs: Seq<Segment>)
    ensures
        sh.with_table(segs).segments == segs,
        sh.with_table(segs).downloaded == sum_downloaded(segs),
        sh.with_table(segs).failed == sh.failed,
        sh.with_table(segs).paused == sh.paused,
        sh.with_table(segs).cancelled == sh.cancelled,
        sh.with_table(segs).finished == sh.finished,
        sh.with_table(segs).probe == sh.probe,
        sh.with_table(segs).next_index == sh.next_index,
        sh.with_table(segs).url == sh.url,
        sh.with_table(segs).filename == sh.filename,
{
}

} // verus!
