//! Segments of a file: splitting a file into segments, and handing the second half of
//! what is left of a segment to another worker.
use vstd::prelude::*;

verus! {

/// One segment of a download. `end` is inclusive; `downloaded` counts the bytes that
/// have been written without a gap from `start` on.
#[derive(Debug, Clone, Copy, PartialEq, Eq, Structural)]
pub struct Segment {
    pub index: usize,
    pub start: u64,
    pub end: u64,
    pub downloaded: u64,
}

impl Segment {
    /// The number of bytes in the segment.
    pub open spec fn size(self) -> int {
        self.end - self.start + 1
    }

    /// The number of bytes still to come.
    pub open spec fn left(self) -> int {
        self.size() - self.downloaded
    }

    /// The segment is a range whose size is a `u64`.
    pub open spec fn ranged(self) -> bool {
        self.start <= self.end && self.size() <= u64::MAX
    }

    /// The segment is a range and no more than all of it has been downloaded.
    pub open spec fn wf(self) -> bool {
        self.ranged() && self.downloaded <= self.size()
    }

    /// Whether the byte at `offset` belongs to the segment.
    pub open spec fn holds(self, offset: int) -> bool {
        self.start <= offset <= self.end
    }

    /// Whether the byte at `offset` has been written by this segment.
    pub open spec fn has_written(self, offset: int) -> bool {
        self.start <= offset < self.start + self.downloaded
    }

    pub fn len(&self) -> (r: u64)
        requires
            self.ranged(),
        ensures
            r == self.size(),
    {
        self.end - self.start + 1
    }

    pub fn is_empty(&self) -> (r: bool)
        requires
            self.ranged(),
        ensures
            r == (self.size() == 0),
    {
        self.len() == 0
    }

    pub fn remaining(&self) -> (r: u64)
        requires
            self.wf(),
        ensures
            r == self.left(),
    {
        self.len() - self.downloaded
    }

    /// The offset at which the next range request starts.
    pub fn next_offset(&self) -> (r: u64)
        requires
            self.start + self.downloaded <= u64::MAX,
        ensures
            r == self.start + self.downloaded,
    {
        self.start + self.downloaded
    }
}

/// The number of segments that `total > 0` bytes are split into when `n` are asked for:
/// at least one, and none of them empty.
pub open spec fn split_count(total: int, n: int) -> int {
    if n <= 1 {
        1
    } else if n <= total {
        n
    } else {
        total
    }
}

/// Where segment `i` of `count` starts: the first `total % count` segments are one byte
/// longer than the others.
pub open spec fn split_start(total: int, count: int, i: int) -> int {
    i * (total / count) + if i < total % count {
        i
    } else {
        total % count
    }
}

/// Splits `total` bytes as evenly as possible into `n` segments (one where `n` is 0),
/// fewer where there are fewer bytes than segments. No bytes, no segments.
pub fn split(total: u64, n: u32) -> (r: Vec<Segment>)
    ensures
        total == 0 ==> r@.len() == 0,
        total > 0 ==> r@.len() == split_count(total as int, n as int),
        forall|i: int|
            0 <= i < r@.len() ==> {
                let count = split_count(total as int, n as int);
                &&& (#[trigger] r@[i]).index == i
                &&& r@[i].start == split_start(total as int, count, i)
                &&& r@[i].end == split_start(total as int, count, i + 1) - 1
                &&& r@[i].downloaded == 0
            },
{
    if total == 0 {
        return Vec::new();
    }
    let wanted: u64 = if n == 0 { 1 } else { n as u64 };
    let n: u64 = if wanted < total { wanted } else { total };
    let base: u64 = total / n;
    let rem: u64 = total % n;
    let mut segs: Vec<Segment> = Vec::new();
    let mut start: u64 = 0;
    let mut i: u64 = 0;
    proof {
        assert(split_start(total as int, n as int, 0) == 0);
        assert(base >= 1) by (nonlinear_arith)
            requires
                base == total / n,
                1 <= n <= total,
        ;
    }
    while i < n
        invariant
            i <= n <= u32::MAX,
            1 <= n <= total,
            base == total / n,
            base >= 1,
            rem == total % n,
            start == split_start(total as int, n as int, i as int),
            start <= total,
            segs@.len() == i,
            forall|k: int|
                0 <= k < i ==> {
                    &&& (#[trigger] segs@[k]).index == k
                    &&& segs@[k].start == split_start(total as int, n as int, k)
                    &&& segs@[k].end == split_start(total as int, n as int, k + 1) - 1
                    &&& segs@[k].downloaded == 0
                },
        decreases n - i,
    {
        proof {
            split_start_step(total as int, n as int, i as int);
            split_start_bound(total as int, n as int, i + 1);
        }
        let len: u64 = base + if i < rem { 1 } else { 0 };
        segs.push(Segment { index: i as usize, start, end: start + len - 1, downloaded: 0 });
        start = start + len;
        i = i + 1;
    }
    segs
}

proof fn split_start_step(total: int, count: int, i: int)
    requires
        0 <= i < count <= total,
    ensures
        split_start(total, count, i + 1) == split_start(total, count, i) + total / count + if i
            < total % count {
            1int
        } else {
            0int
        },
{
    assert((i + 1) * (total / count) == i * (total / count) + total / count) by (nonlinear_arith);
}

proof fn split_start_bound(total: int, count: int, i: int)
    requires
        0 <= i <= count <= total,
        count >= 1,
    ensures
        0 <= split_start(total, count, i) <= total,
        split_start(total, count, count) == total,
{
    let base = total / count;
    let rem = total % count;
    assert(total == count * base + rem && 0 <= rem < count && base >= 1) by (nonlinear_arith)
        requires
            base == total / count,
            rem == total % count,
            1 <= count <= total,
    ;
    assert(i * base <= count * base && 0 <= i * base) by (nonlinear_arith)
        requires
            0 <= i <= count,
            base >= 1,
    ;
}

/// Hands the second half of what is left of `from` to a new segment. `None` where fewer
/// than two bytes are left.
pub fn take_over(from: &mut Segment, new_index: usize) -> (r: Option<Segment>)
    requires
        old(from).wf(),
    ensures
        final(from).wf(),
        match r {
            None => old(from).left() < 2 && *final(from) == *old(from),
            Some(new) => {
                let cut = old(from).start + old(from).downloaded + old(from).left() / 2;
                &&& old(from).left() >= 2
                &&& *final(from) == (Segment { end: (cut - 1) as u64, ..*old(from) })
                &&& new == (Segment {
                    index: new_index,
                    start: cut as u64,
                    end: old(from).end,
                    downloaded: 0,
                })
                &&& old(from).start + old(from).downloaded < cut <= old(from).end
            },
        },
{
    let rem: u64 = from.remaining();
    if rem < 2 {
        return None;
    }
    let half: u64 = rem / 2;
    let new_start: u64 = from.next_offset() + half;
    let stolen: Segment = Segment {
        index: new_index,
        start: new_start,
        end: from.end,
        downloaded: 0,
    };
    from.end = new_start - 1;
    Some(stolen)
}

// ---------------------------------------------------------------------------
// Segment tables
// ---------------------------------------------------------------------------
/// Every segment is well formed.
pub open spec fn all_wf(segs: Seq<Segment>) -> bool {
    forall|i: int| 0 <= i < segs.len() ==> (#[trigger] segs[i]).wf()
}

/// The bytes downloaded, over all segments.
pub open spec fn sum_downloaded(segs: Seq<Segment>) -> int
    decreases segs.len(),
{
    if segs.len() == 0 {
        0
    } else {
        sum_downloaded(segs.drop_last()) + segs.last().downloaded
    }
}

/// The sizes of all segments together.
pub open spec fn sum_size(segs: Seq<Segment>) -> int
    decreases segs.len(),
{
    if segs.len() == 0 {
        0
    } else {
        sum_size(segs.drop_last()) + segs.last().size()
    }
}

/// No two segments share a byte.
pub open spec fn disjoint(segs: Seq<Segment>) -> bool {
    forall|i: int, j: int|
        0 <= i < segs.len() && 0 <= j < segs.len() && i != j ==> (#[trigger] segs[i]).end < (
        #[trigger] segs[j]).start || segs[j].end < segs[i].start
}

/// Some segment of the table holds the byte at `b`.
pub open spec fn held(segs: Seq<Segment>, b: int) -> bool {
    exists|i: int| 0 <= i < segs.len() && (#[trigger] segs[i]).holds(b)
}

/// The segments partition the bytes `0 .. total`: well formed, no byte in two of them,
/// every byte in one, and no others.
pub open spec fn tiles(segs: Seq<Segment>, total: int) -> bool {
    &&& all_wf(segs)
    &&& disjoint(segs)
    &&& forall|b: int| #[trigger] held(segs, b) <==> 0 <= b < total
    &&& sum_size(segs) == total
}

/// Replacing one segment changes the sum of sizes by the difference.
pub proof fn sum_size_update(segs: Seq<Segment>, i: int, s: Segment)
    requires
        0 <= i < segs.len(),
    ensures
        sum_size(segs.update(i, s)) == sum_size(segs) - segs[i].size() + s.size(),
    decreases segs.len(),
{
    let upd = segs.update(i, s);
    if i == segs.len() - 1 {
        assert(upd.drop_last() =~= segs.drop_last());
    } else {
        sum_size_update(segs.drop_last(), i, s);
        assert(upd.drop_last() =~= segs.drop_last().update(i, s));
    }
}

/// Replacing one segment changes the sum of downloaded bytes by the difference.
pub proof fn sum_downloaded_update(segs: Seq<Segment>, i: int, s: Segment)
    requires
        0 <= i < segs.len(),
    ensures
        sum_downloaded(segs.update(i, s)) == sum_downloaded(segs) - segs[i].downloaded
            + s.downloaded,
    decreases segs.len(),
{
    let upd = segs.update(i, s);
    if i == segs.len() - 1 {
        assert(upd.drop_last() =~= segs.drop_last());
    } else {
        sum_downloaded_update(segs.drop_last(), i, s);
        assert(upd.drop_last() =~= segs.drop_last().update(i, s));
    }
}

/// No more is downloaded than the segments hold; and where that much is downloaded,
/// every segment is complete.
pub proof fn sum_bounds(segs: Seq<Segment>)
    requires
        all_wf(segs),
    ensures
        0 <= sum_downloaded(segs) <= sum_size(segs),
        sum_downloaded(segs) == sum_size(segs) ==> forall|i: int|
            0 <= i < segs.len() ==> (#[trigger] segs[i]).left() == 0,
    decreases segs.len(),
{
    if segs.len() > 0 {
        let front = segs.drop_last();
        assert forall|i: int| 0 <= i < front.len() implies (#[trigger] front[i]).wf() by {
            assert(front[i] == segs[i]);
        }
        sum_bounds(front);
        assert(segs.last().wf());
        if sum_downloaded(segs) == sum_size(segs) {
            assert forall|i: int| 0 <= i < segs.len() implies (#[trigger] segs[i]).left() == 0 by {
                if i < segs.len() - 1 {
                    assert(front[i] == segs[i]);
                }
            }
        }
    }
}

/// A prefix of the table has downloaded no more than the whole.
pub proof fn sum_downloaded_prefix(segs: Seq<Segment>, n: int)
    requires
        0 <= n <= segs.len(),
    ensures
        0 <= sum_downloaded(segs.take(n)) <= sum_downloaded(segs),
    decreases segs.len(),
{
    if n == segs.len() {
        assert(segs.take(n) =~= segs);
        if n > 0 {
            sum_downloaded_prefix(segs.drop_last(), n - 1);
            assert(segs.drop_last().take(n - 1) =~= segs.drop_last());
        }
    } else {
        sum_downloaded_prefix(segs.drop_last(), n);
        assert(segs.drop_last().take(n) =~= segs.take(n));
    }
}

// ---------------------------------------------------------------------------
// Laws
// ---------------------------------------------------------------------------
/// What `split` makes of `total` bytes: segment `i` as its contract gives it.
pub open spec fn is_split(segs: Seq<Segment>, total: int, n: int) -> bool {
    let count = split_count(total, n);
    &&& segs.len() == count
    &&& forall|i: int|
        0 <= i < segs.len() ==> {
            &&& (#[trigger] segs[i]).index == i
            &&& segs[i].start == split_start(total, count, i)
            &&& segs[i].end == split_start(total, count, i + 1) - 1
            &&& segs[i].downloaded == 0
        }
}

proof fn split_prefix_sum(segs: Seq<Segment>, total: int, n: int, k: int)
    requires
        0 < total,
        is_split(segs, total, n),
        0 <= k <= segs.len(),
    ensures
        sum_size(segs.take(k)) == split_start(total, split_count(total, n), k),
    decreases k,
{
    let count = split_count(total, n);
    if k > 0 {
        split_prefix_sum(segs, total, n, k - 1);
        assert(segs.take(k).drop_last() =~= segs.take(k - 1));
        assert(segs.take(k).last() == segs[k - 1]);
    } else {
        assert(split_start(total, count, 0) == 0);
    }
}

proof fn split_find(segs: Seq<Segment>, total: int, n: int, b: int, k: int) -> (i: int)
    requires
        0 < total <= u64::MAX,
        is_split(segs, total, n),
        0 <= k <= segs.len(),
        0 <= b < split_start(total, split_count(total, n), k),
    ensures
        0 <= i < k,
        segs[i].holds(b),
    decreases k,
{
    let count = split_count(total, n);
    if k == 0 {
        split_start_bound(total, count, 0);
        assert(0 * (total / count) == 0);
        0
    } else if b >= split_start(total, count, k - 1) {
        k - 1
    } else {
        split_find(segs, total, n, b, k - 1)
    }
}

proof fn split_start_order(total: int, count: int, i: int, j: int)
    requires
        0 <= i <= j <= count <= total,
        count >= 1,
    ensures
        split_start(total, count, i) <= split_start(total, count, j),
        i < j ==> split_start(total, count, i) < split_start(total, count, j),
    decreases j - i,
{
    if i < j {
        split_start_order(total, count, i, j - 1);
        split_start_step(total, count, j - 1);
        assert(total / count >= 1) by (nonlinear_arith)
            requires
                1 <= count <= total,
        ;
    }
}

/// The segments of a split partition the file, each starts where the one before it
/// ended, and their sizes differ by at most one byte.
pub proof fn split_tiles(segs: Seq<Segment>, total: u64, n: u32)
    requires
        total > 0,
        is_split(segs, total as int, n as int),
    ensures
        tiles(segs, total as int),
        sum_downloaded(segs) == 0,
        segs[0].start == 0,
        segs.last().end == total - 1,
        forall|i: int|
            0 < i < segs.len() ==> (#[trigger] segs[i]).start == segs[i - 1].end + 1,
        forall|i: int, j: int|
            0 <= i < segs.len() && 0 <= j < segs.len() ==> (#[trigger] segs[i]).size() - (
            #[trigger] segs[j]).size() <= 1,
{
    let t = total as int;
    let count = split_count(t, n as int);
    split_start_bound(t, count, 0);
    assert(split_start(t, count, 0) == 0);
    assert forall|i: int| 0 <= i < segs.len() implies (#[trigger] segs[i]).wf() && segs[i].size()
        == t / count + (if i < t % count {
        1int
    } else {
        0int
    }) by {
        split_start_step(t, count, i);
        split_start_order(t, count, i, i + 1);
        split_start_bound(t, count, i);
        split_start_bound(t, count, i + 1);
    }
    assert forall|i: int, j: int|
        0 <= i < segs.len() && 0 <= j < segs.len() && i != j implies (#[trigger] segs[i]).end < (
    #[trigger] segs[j]).start || segs[j].end < segs[i].start by {
        if i < j {
            split_start_order(t, count, i + 1, j);
        } else {
            split_start_order(t, count, j + 1, i);
        }
    }
    assert forall|b: int| #[trigger] held(segs, b) <==> 0 <= b < t by {
        if 0 <= b < t {
            let i = split_find(segs, t, n as int, b, count);
            assert(segs[i].holds(b));
        }
        if held(segs, b) {
            let i = choose|i: int| 0 <= i < segs.len() && (#[trigger] segs[i]).holds(b);
            split_start_bound(t, count, i);
            split_start_bound(t, count, i + 1);
        }
    }
    split_prefix_sum(segs, t, n as int, count);
    assert(segs.take(count) =~= segs);
    none_downloaded(segs);
}

/// Segments with nothing downloaded have nothing downloaded together.
pub proof fn none_downloaded(segs: Seq<Segment>)
    requires
        forall|i: int| 0 <= i < segs.len() ==> (#[trigger] segs[i]).downloaded == 0,
    ensures
        sum_downloaded(segs) == 0,
    decreases segs.len(),
{
    if segs.len() > 0 {
        let front = segs.drop_last();
        assert forall|i: int| 0 <= i < front.len() implies (#[trigger] front[i]).downloaded
            == 0 by {
            assert(front[i] == segs[i]);
        }
        none_downloaded(front);
    }
}

/// The table after segment `v` has been cut at `cut` and its second part appended under
/// the number `index`.
pub open spec fn cut_at(segs: Seq<Segment>, v: int, cut: int, index: usize) -> Seq<Segment> {
    segs.update(v, Segment { end: (cut - 1) as u64, ..segs[v] }).push(
        Segment { index, start: cut as u64, end: segs[v].end, downloaded: 0 },
    )
}

/// Cutting a segment behind its downloaded part keeps the partition of the file, the
/// bytes downloaded and the bytes still to come.
pub proof fn cut_keeps_tiles(segs: Seq<Segment>, total: int, v: int, cut: int, index: usize)
    requires
        tiles(segs, total),
        0 <= v < segs.len(),
        segs[v].start + segs[v].downloaded < cut <= segs[v].end,
    ensures
        tiles(cut_at(segs, v, cut, index), total),
        sum_downloaded(cut_at(segs, v, cut, index)) == sum_downloaded(segs),
        sum_size(cut_at(segs, v, cut, index)) == sum_size(segs),
{
    let shrunk = Segment { end: (cut - 1) as u64, ..segs[v] };
    let new = Segment { index, start: cut as u64, end: segs[v].end, downloaded: 0 };
    let upd = segs.update(v, shrunk);
    let out = upd.push(new);
    assert(segs[v].wf());
    assert(out.drop_last() =~= upd);
    sum_size_update(segs, v, shrunk);
    sum_downloaded_update(segs, v, shrunk);
    assert forall|i: int| 0 <= i < out.len() implies (#[trigger] out[i]).wf() by {
        if i < segs.len() && i != v {
            assert(out[i] == segs[i]);
        }
    }
    assert forall|i: int, j: int|
        0 <= i < out.len() && 0 <= j < out.len() && i != j implies (#[trigger] out[i]).end < (
    #[trigger] out[j]).start || out[j].end < out[i].start by {
        let oi = if i == segs.len() { v } else { i };
        let oj = if j == segs.len() { v } else { j };
        assert(segs[oi].wf() && segs[oj].wf());
        if oi != oj {
            assert(segs[oi].end < segs[oj].start || segs[oj].end < segs[oi].start);
        }
    }
    assert forall|b: int| #[trigger] held(out, b) <==> 0 <= b < total by {
        assert(held(segs, b) <==> 0 <= b < total);
        if held(segs, b) {
            let i = choose|i: int| 0 <= i < segs.len() && (#[trigger] segs[i]).holds(b);
            if i == v && b >= cut {
                assert(out[segs.len() as int].holds(b));
            } else {
                assert(out[i].holds(b));
            }
        }
        if held(out, b) {
            let i = choose|i: int| 0 <= i < out.len() && (#[trigger] out[i]).holds(b);
            let oi = if i == segs.len() { v } else { i };
            assert(segs[oi].holds(b));
        }
    }
}

/// Handing over half of a segment loses nothing: the two parts hold exactly the bytes of
/// the one, and as many are still to come.
pub proof fn take_over_keeps_bytes(before: Segment, after: Segment, new: Segment)
    requires
        before.wf(),
        before.left() >= 2,
        after == (Segment { end: (new.start - 1) as u64, ..before }),
        new.start == before.start + before.downloaded + before.left() / 2,
        new.end == before.end,
        new.downloaded == 0,
    ensures
        forall|b: int|
            #![trigger before.holds(b)]
            before.holds(b) <==> (after.holds(b) || new.holds(b)),
        forall|b: int| #![trigger before.holds(b)] !(after.holds(b) && new.holds(b)),
        after.left() + new.left() == before.left(),
        after.downloaded + new.downloaded == before.downloaded,
        after.left() <= new.left() <= after.left() + 1,
{
}

/// Setting the progress of one segment, clamped to its size, keeps the partition.
pub proof fn progress_keeps_tiles(segs: Seq<Segment>, total: int, i: int, downloaded: u64)
    requires
        tiles(segs, total),
        0 <= i < segs.len(),
        downloaded <= segs[i].size(),
    ensures
        tiles(segs.update(i, Segment { downloaded, ..segs[i] }), total),
{
    let s = Segment { downloaded, ..segs[i] };
    let out = segs.update(i, s);
    sum_size_update(segs, i, s);
    assert forall|k: int| 0 <= k < out.len() implies (#[trigger] out[k]).wf() by {
        assert(segs[k].wf());
    }
    assert forall|a: int, c: int|
        0 <= a < out.len() && 0 <= c < out.len() && a != c implies (#[trigger] out[a]).end < (
    #[trigger] out[c]).start || out[c].end < out[a].start by {
        assert(segs[a].end < segs[c].start || segs[c].end < segs[a].start);
    }
    assert forall|b: int| #[trigger] held(out, b) <==> 0 <= b < total by {
        assert(held(segs, b) <==> 0 <= b < total);
        if held(segs, b) {
            let k = choose|k: int| 0 <= k < segs.len() && (#[trigger] segs[k]).holds(b);
            assert(out[k].holds(b));
        }
        if held(out, b) {
            let k = choose|k: int| 0 <= k < out.len() && (#[trigger] out[k]).holds(b);
            assert(segs[k].holds(b));
        }
    }
}

/// Where the segments partition the file and as many bytes are downloaded as the file
/// has, every byte of the file has been written by the segment that holds it.
pub proof fn all_counted_means_all_written(segs: Seq<Segment>, total: int, b: int)
    requires
        tiles(segs, total),
        sum_downloaded(segs) == total,
        0 <= b < total,
    ensures
        exists|i: int| 0 <= i < segs.len() && (#[trigger] segs[i]).has_written(b),
{
    sum_bounds(segs);
    assert(held(segs, b));
    let i = choose|i: int| 0 <= i < segs.len() && (#[trigger] segs[i]).holds(b);
    assert(segs[i].left() == 0);
    assert(segs[i].has_written(b));
}

/// A file is split into as many segments as were asked for, where it has that many bytes:
/// into one for each byte where it has fewer, and into one where none were asked for.
pub proof fn split_gives_what_was_asked(segs: Seq<Segment>, total: u64, n: u32)
    requires
        total > 0,
        is_split(segs, total as int, n as int),
    ensures
        1 <= n <= total ==> segs.len() == n,
        n > total ==> segs.len() == total,
        n == 0 ==> segs.len() == 1,
        forall|i: int|
            0 <= i < segs.len() ==> (#[trigger] segs[i]).index == i && segs[i].downloaded == 0,
{
}

/// A segment holds the bytes from its start to its end, both counted; what is left of it is
/// what has not been downloaded; and it is well formed where these numbers make sense.
pub proof fn segments_hold_their_bytes(s: Segment, b: int)
    ensures
        s.holds(b) <==> s.start <= b && b <= s.end,
        s.size() == s.end + 1 - s.start,
        s.left() + s.downloaded == s.end + 1 - s.start,
        s.wf() ==> s.start <= s.end && s.downloaded <= s.end + 1 - s.start,
        s.start <= s.end && s.downloaded <= s.end + 1 - s.start && !(s.start == 0 && s.end
            == u64::MAX) ==> s.wf(),
        s.has_written(b) ==> b >= s.start && b - s.start < s.downloaded,
        b >= s.start && b - s.start < s.downloaded ==> s.has_written(b),
{
}

/// The sums over a table grow by what a further segment has.
pub proof fn sums_add_up(segs: Seq<Segment>, s: Segment)
    ensures
        sum_downloaded(Seq::<Segment>::empty()) == 0,
        sum_size(Seq::<Segment>::empty()) == 0,
        sum_downloaded(segs.push(s)) == sum_downloaded(segs) + s.downloaded,
        sum_size(segs.push(s)) == sum_size(segs) + s.end + 1 - s.start,
{
    assert(segs.push(s).drop_last() =~= segs);
}

/// The bytes that are left over when a file is split go to the first segments: none is larger
/// than one before it.
pub proof fn first_segments_get_the_rest(segs: Seq<Segment>, total: u64, n: u32, i: int, j: int)
    requires
        total > 0,
        is_split(segs, total as int, n as int),
        0 <= i <= j < segs.len(),
    ensures
        segs[i].end - segs[i].start >= segs[j].end - segs[j].start,
{
    let count = split_count(total as int, n as int);
    split_start_step(total as int, count, i);
    split_start_step(total as int, count, j);
}

} // verus!
