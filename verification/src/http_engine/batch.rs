//! Batches: the segments that the next round of workers gets, richest first.
use crate::http_engine::shared::table_ok;
use crate::segment::{all_wf, disjoint, held, sum_downloaded, sum_size, tiles, Segment};
use vstd::prelude::*;

verus! {

/// Where `x` goes in a table in descending order of bytes left: behind all segments that
/// have as much left.
pub open spec fn insert_at(table: Seq<Segment>, x: Segment) -> int
    decreases table.len(),
{
    if table.len() == 0 {
        0
    } else if table.last().left() >= x.left() {
        table.len() as int
    } else {
        insert_at(table.drop_last(), x)
    }
}

/// The table in descending order of bytes left; segments with as much left keep their
/// order.
pub open spec fn by_left(segs: Seq<Segment>) -> Seq<Segment>
    decreases segs.len(),
{
    if segs.len() == 0 {
        segs
    } else {
        let front = by_left(segs.drop_last());
        front.insert(insert_at(front, segs.last()), segs.last())
    }
}

/// Whether something is left to download of a segment.
pub open spec fn unfinished(s: Segment) -> bool {
    s.left() > 0
}

/// The unfinished segments of a table, in their order.
pub open spec fn all_unfinished(segs: Seq<Segment>) -> Seq<Segment> {
    segs.filter(|s: Segment| unfinished(s))
}

/// The first `n` unfinished segments of a table.
pub open spec fn first_unfinished(segs: Seq<Segment>, n: int) -> Seq<Segment> {
    let f = all_unfinished(segs);
    if f.len() <= n {
        f
    } else {
        f.take(n)
    }
}

proof fn insert_at_bounds(table: Seq<Segment>, x: Segment)
    ensures
        0 <= insert_at(table, x) <= table.len(),
        forall|j: int| insert_at(table, x) <= j < table.len() ==> (#[trigger] table[j]).left()
            < x.left(),
        insert_at(table, x) > 0 ==> table[insert_at(table, x) - 1].left() >= x.left(),
    decreases table.len(),
{
    if table.len() > 0 && table.last().left() < x.left() {
        let front = table.drop_last();
        insert_at_bounds(front, x);
        assert forall|j: int| insert_at(table, x) <= j < table.len() implies (
        #[trigger] table[j]).left() < x.left() by {
            if j < front.len() {
                assert(front[j] == table[j]);
            }
        }
    }
}

/// The table is in descending order of bytes left.
pub open spec fn descending(segs: Seq<Segment>) -> bool {
    forall|i: int, j: int|
        0 <= i <= j < segs.len() ==> (#[trigger] segs[i]).left() >= (#[trigger] segs[j]).left()
}

/// Sorting puts the table in descending order of bytes left.
pub proof fn by_left_descends(segs: Seq<Segment>)
    ensures
        descending(by_left(segs)),
        by_left(segs).len() == segs.len(),
    decreases segs.len(),
{
    if segs.len() > 0 {
        let front = by_left(segs.drop_last());
        let x = segs.last();
        by_left_descends(segs.drop_last());
        insert_at_bounds(front, x);
        let p = insert_at(front, x);
        let out = front.insert(p, x);
        assert forall|i: int, j: int| 0 <= i <= j < out.len() implies (#[trigger] out[i]).left()
            >= (#[trigger] out[j]).left() by {
            let fi = if i < p { i } else { i - 1 };
            let fj = if j < p { j } else { j - 1 };
            if i != p && j != p {
                assert(front[fi].left() >= front[fj].left());
            } else if i != p && j == p {
                assert(front[i].left() >= front[p - 1].left());
            }
        }
    }
}

proof fn insert_sums(table: Seq<Segment>, p: int, x: Segment)
    requires
        0 <= p <= table.len(),
    ensures
        sum_size(table.insert(p, x)) == sum_size(table) + x.size(),
        sum_downloaded(table.insert(p, x)) == sum_downloaded(table) + x.downloaded,
    decreases table.len(),
{
    let out = table.insert(p, x);
    if p == table.len() {
        assert(out.drop_last() =~= table);
    } else {
        insert_sums(table.drop_last(), p, x);
        assert(out.drop_last() =~= table.drop_last().insert(p, x));
        assert(out.last() == table.last());
    }
}

proof fn insert_counts(table: Seq<Segment>, p: int, x: Segment)
    requires
        0 <= p <= table.len(),
    ensures
        table.insert(p, x).to_multiset() == table.to_multiset().insert(x),
{
    let out = table.insert(p, x);
    out.to_multiset_ensures();
    assert(out[p] == x);
    assert(out.contains(x));
    assert(out.remove(p) =~= table);
    assert(out.to_multiset() =~= table.to_multiset().insert(x));
}

/// Two tables hold the same segments, each as often; so they agree in what does not depend
/// on the order.
pub open spec fn same_segments(a: Seq<Segment>, b: Seq<Segment>) -> bool {
    &&& a.to_multiset() == b.to_multiset()
    &&& a.len() == b.len()
    &&& forall|s: Segment| #[trigger] a.contains(s) <==> b.contains(s)
    &&& sum_size(a) == sum_size(b)
    &&& sum_downloaded(a) == sum_downloaded(b)
    &&& disjoint(a) <==> disjoint(b)
    &&& numbers_differ(a) <==> numbers_differ(b)
}

/// No two segments have the same number.
pub open spec fn numbers_differ(segs: Seq<Segment>) -> bool {
    forall|i: int, j: int|
        0 <= i < segs.len() && 0 <= j < segs.len() && i != j ==> (#[trigger] segs[i]).index != (
        #[trigger] segs[j]).index
}

proof fn insert_contains(table: Seq<Segment>, p: int, x: Segment)
    requires
        0 <= p <= table.len(),
    ensures
        forall|s: Segment| #[trigger] table.insert(p, x).contains(s) <==> (table.contains(s) || s
            == x),
        disjoint(table.insert(p, x)) <==> (disjoint(table) && forall|i: int|
            0 <= i < table.len() ==> ((#[trigger] table[i]).end < x.start || x.end
                < table[i].start)),
        numbers_differ(table.insert(p, x)) <==> (numbers_differ(table) && forall|i: int|
            0 <= i < table.len() ==> (#[trigger] table[i]).index != x.index),
{
    let out = table.insert(p, x);
    assert forall|s: Segment| #[trigger] out.contains(s) <==> (table.contains(s) || s == x) by {
        if out.contains(s) {
            let i = choose|i: int| 0 <= i < out.len() && out[i] == s;
            if i < p {
                assert(table[i] == s);
            } else if i > p {
                assert(table[i - 1] == s);
            }
        }
        if table.contains(s) {
            let i = choose|i: int| 0 <= i < table.len() && table[i] == s;
            if i < p {
                assert(out[i] == s);
            } else {
                assert(out[i + 1] == s);
            }
        }
        assert(out[p] == x);
    }
    if disjoint(out) {
        assert forall|i: int, j: int|
            0 <= i < table.len() && 0 <= j < table.len() && i != j implies (
        #[trigger] table[i]).end < (#[trigger] table[j]).start || table[j].end
            < table[i].start by {
            let a = if i < p { i } else { i + 1 };
            let b = if j < p { j } else { j + 1 };
            assert(out[a] == table[i] && out[b] == table[j]);
        }
        assert forall|i: int| 0 <= i < table.len() implies ((#[trigger] table[i]).end < x.start
            || x.end < table[i].start) by {
            let a = if i < p { i } else { i + 1 };
            assert(out[a] == table[i] && out[p] == x);
        }
    }
    if disjoint(table) && forall|i: int|
        0 <= i < table.len() ==> ((#[trigger] table[i]).end < x.start || x.end < table[i].start) {
        assert forall|i: int, j: int|
            0 <= i < out.len() && 0 <= j < out.len() && i != j implies (#[trigger] out[i]).end < (
        #[trigger] out[j]).start || out[j].end < out[i].start by {
            let a = if i < p { i } else { i - 1 };
            let b = if j < p { j } else { j - 1 };
            if i == p {
                assert(out[j] == table[b]);
            } else if j == p {
                assert(out[i] == table[a]);
            } else {
                assert(out[i] == table[a] && out[j] == table[b]);
            }
        }
    }
    if numbers_differ(out) {
        assert forall|i: int, j: int|
            0 <= i < table.len() && 0 <= j < table.len() && i != j implies (
        #[trigger] table[i]).index != (#[trigger] table[j]).index by {
            let a = if i < p { i } else { i + 1 };
            let b = if j < p { j } else { j + 1 };
            assert(out[a] == table[i] && out[b] == table[j]);
        }
        assert forall|i: int| 0 <= i < table.len() implies (#[trigger] table[i]).index
            != x.index by {
            let a = if i < p { i } else { i + 1 };
            assert(out[a] == table[i] && out[p] == x);
        }
    }
    if numbers_differ(table) && forall|i: int|
        0 <= i < table.len() ==> (#[trigger] table[i]).index != x.index {
        assert forall|i: int, j: int|
            0 <= i < out.len() && 0 <= j < out.len() && i != j implies (#[trigger] out[i]).index
            != (#[trigger] out[j]).index by {
            let a = if i < p { i } else { i - 1 };
            let b = if j < p { j } else { j - 1 };
            if i == p {
                assert(out[j] == table[b]);
            } else if j == p {
                assert(out[i] == table[a]);
            } else {
                assert(out[i] == table[a] && out[j] == table[b]);
            }
        }
    }
}

/// Sorting loses and adds nothing.
pub proof fn by_left_same(segs: Seq<Segment>)
    ensures
        same_segments(by_left(segs), segs),
    decreases segs.len(),
{
    if segs.len() > 0 {
        let old_front = segs.drop_last();
        let front = by_left(old_front);
        let x = segs.last();
        let p = insert_at(front, x);
        by_left_same(old_front);
        insert_at_bounds(front, x);
        insert_sums(front, p, x);
        insert_contains(front, p, x);
        let n = old_front.len() as int;
        insert_contains(old_front, n, x);
        assert(old_front.insert(n, x) =~= segs);
        insert_counts(front, p, x);
        insert_counts(old_front, n, x);
        let out = by_left(segs);
        assert forall|s: Segment| #[trigger] out.contains(s) <==> segs.contains(s) by {
            assert(front.contains(s) <==> old_front.contains(s));
        }
        assert((forall|i: int|
            0 <= i < front.len() ==> ((#[trigger] front[i]).end < x.start || x.end
                < front[i].start)) <==> (forall|i: int|
            0 <= i < old_front.len() ==> ((#[trigger] old_front[i]).end < x.start || x.end
                < old_front[i].start))) by {
            if forall|i: int|
                0 <= i < front.len() ==> ((#[trigger] front[i]).end < x.start || x.end
                    < front[i].start) {
                assert forall|i: int| 0 <= i < old_front.len() implies ((
                #[trigger] old_front[i]).end < x.start || x.end < old_front[i].start) by {
                    assert(old_front.contains(old_front[i]));
                    assert(front.contains(old_front[i]));
                    let k = choose|k: int| 0 <= k < front.len() && front[k] == old_front[i];
                    assert(front[k] == old_front[i]);
                }
            }
            if forall|i: int|
                0 <= i < old_front.len() ==> ((#[trigger] old_front[i]).end < x.start || x.end
                    < old_front[i].start) {
                assert forall|i: int| 0 <= i < front.len() implies ((#[trigger] front[i]).end
                    < x.start || x.end < front[i].start) by {
                    assert(front.contains(front[i]));
                    assert(old_front.contains(front[i]));
                    let k = choose|k: int| 0 <= k < old_front.len() && old_front[k] == front[i];
                    assert(old_front[k] == front[i]);
                }
            }
        }
        assert((forall|i: int|
            0 <= i < front.len() ==> (#[trigger] front[i]).index != x.index) <==> (forall|i: int|
            0 <= i < old_front.len() ==> (#[trigger] old_front[i]).index != x.index)) by {
            if forall|i: int| 0 <= i < front.len() ==> (#[trigger] front[i]).index != x.index {
                assert forall|i: int| 0 <= i < old_front.len() implies (
                #[trigger] old_front[i]).index != x.index by {
                    assert(old_front.contains(old_front[i]));
                    assert(front.contains(old_front[i]));
                    let k = choose|k: int| 0 <= k < front.len() && front[k] == old_front[i];
                    assert(front[k] == old_front[i]);
                }
            }
            if forall|i: int|
                0 <= i < old_front.len() ==> (#[trigger] old_front[i]).index != x.index {
                assert forall|i: int| 0 <= i < front.len() implies (#[trigger] front[i]).index
                    != x.index by {
                    assert(front.contains(front[i]));
                    assert(old_front.contains(front[i]));
                    let k = choose|k: int| 0 <= k < old_front.len() && old_front[k] == front[i];
                    assert(old_front[k] == front[i]);
                }
            }
        }
    }
}

/// Sorting keeps a table workable and keeps the partition of the file.
pub proof fn by_left_keeps_table(segs: Seq<Segment>, total: int)
    ensures
        table_ok(segs) ==> table_ok(by_left(segs)),
        tiles(segs, total) ==> tiles(by_left(segs), total),
        sum_downloaded(by_left(segs)) == sum_downloaded(segs),
{
    by_left_same(segs);
    let out = by_left(segs);
    assert forall|i: int| 0 <= i < out.len() implies exists|k: int|
        0 <= k < segs.len() && #[trigger] segs[k] == #[trigger] out[i] by {
        assert(out.contains(out[i]));
        assert(segs.contains(out[i]));
    }
    if all_wf(segs) {
        assert forall|i: int| 0 <= i < out.len() implies (#[trigger] out[i]).wf() by {
            let k = choose|k: int| 0 <= k < segs.len() && #[trigger] segs[k] == out[i];
            assert(segs[k].wf());
        }
    }
    if table_ok(segs) {
        assert(numbers_differ(segs));
        assert(numbers_differ(out));
        assert forall|i: int| 0 <= i < out.len() implies (#[trigger] out[i]).index
            < out.len() by {
            let k = choose|k: int| 0 <= k < segs.len() && #[trigger] segs[k] == out[i];
            assert(segs[k].index < segs.len());
        }
    }
    if tiles(segs, total) {
        assert forall|b: int| #[trigger] held(out, b) <==> 0 <= b < total by {
            assert(held(segs, b) <==> 0 <= b < total);
            if held(segs, b) {
                let k = choose|k: int| 0 <= k < segs.len() && (#[trigger] segs[k]).holds(b);
                assert(segs.contains(segs[k]));
                assert(out.contains(segs[k]));
                let i = choose|i: int| 0 <= i < out.len() && out[i] == segs[k];
                assert(out[i].holds(b));
            }
            if held(out, b) {
                let i = choose|i: int| 0 <= i < out.len() && (#[trigger] out[i]).holds(b);
                let k = choose|k: int| 0 <= k < segs.len() && #[trigger] segs[k] == out[i];
                assert(segs[k].holds(b));
            }
        }
    }
}

/// Sorts a table in descending order of bytes left.
pub fn sort_by_left(segs: &Vec<Segment>) -> (r: Vec<Segment>)
    requires
        all_wf(segs@),
    ensures
        r@ == by_left(segs@),
{
    let mut out: Vec<Segment> = Vec::new();
    let mut i: usize = 0;
    proof {
        assert(segs@.take(0) =~= Seq::<Segment>::empty());
    }
    while i < segs.len()
        invariant
            all_wf(segs@),
            i <= segs@.len(),
            out@ == by_left(segs@.take(i as int)),
            all_wf(out@),
        decreases segs@.len() - i,
    {
        let x: Segment = segs[i];
        let mut p: usize = out.len();
        proof {
            assert(segs@[i as int].wf());
            assert(out@.take(p as int) =~= out@);
            insert_at_bounds(out@, x);
        }
        while p > 0 && out[p - 1].remaining() < x.remaining()
            invariant
                p <= out@.len(),
                all_wf(out@),
                x.wf(),
                insert_at(out@, x) == insert_at(out@.take(p as int), x),
            decreases p,
        {
            proof {
                assert(out@.take(p as int).last() == out@[p - 1]);
                assert(out@.take(p as int).drop_last() =~= out@.take(p - 1));
            }
            p = p - 1;
        }
        proof {
            if p > 0 {
                assert(out@.take(p as int).last() == out@[p - 1]);
            }
            assert(p == insert_at(out@, x));
            assert(segs@.take(i + 1).drop_last() =~= segs@.take(i as int));
        }
        let ghost before = out@;
        out.insert(p, x);
        proof {
            assert forall|k: int| 0 <= k < out@.len() implies (#[trigger] out@[k]).wf() by {
                if k < p {
                    assert(before[k].wf());
                } else if k > p {
                    assert(before[k - 1].wf());
                }
            }
        }
        i = i + 1;
    }
    proof {
        assert(segs@.take(i as int) =~= segs@);
    }
    out
}

/// The first `n` unfinished segments of a table.
pub fn take_unfinished(segs: &Vec<Segment>, n: usize) -> (r: Vec<Segment>)
    requires
        all_wf(segs@),
    ensures
        r@ == first_unfinished(segs@, n as int),
{
    let mut out: Vec<Segment> = Vec::new();
    let ghost p = |s: Segment| unfinished(s);
    let mut i: usize = 0;
    proof {
        assert(segs@.take(0) =~= Seq::<Segment>::empty());
        reveal(Seq::filter);
    }
    while i < segs.len()
        invariant
            all_wf(segs@),
            p == (|s: Segment| unfinished(s)),
            i <= segs@.len(),
            out@ == segs@.take(i as int).filter(p),
        decreases segs@.len() - i,
    {
        proof {
            reveal(Seq::filter);
            assert(segs@.take(i + 1).drop_last() =~= segs@.take(i as int));
            assert(segs@[i as int].wf());
        }
        let s: Segment = segs[i];
        if s.remaining() > 0 {
            out.push(s);
        }
        i = i + 1;
    }
    proof {
        assert(segs@.take(i as int) =~= segs@);
    }
    out.truncate(n);
    proof {
        assert(out@ =~= first_unfinished(segs@, n as int));
    }
    out
}

/// The unfinished segments of a table stand in it, and their numbers differ if the
/// table's do.
pub proof fn unfinished_of_table(segs: Seq<Segment>)
    requires
        numbers_differ(segs),
    ensures
        numbers_differ(all_unfinished(segs)),
        forall|i: int|
            0 <= i < all_unfinished(segs).len() ==> segs.contains(
                #[trigger] all_unfinished(segs)[i],
            ) && unfinished(all_unfinished(segs)[i]),
    decreases segs.len(),
{
    reveal(Seq::filter);
    let out = all_unfinished(segs);
    if segs.len() > 0 {
        let front = segs.drop_last();
        let last = segs.last();
        let before = all_unfinished(front);
        assert forall|i: int, j: int|
            0 <= i < front.len() && 0 <= j < front.len() && i != j implies (
        #[trigger] front[i]).index != (#[trigger] front[j]).index by {
            assert(segs[i].index != segs[j].index);
        }
        unfinished_of_table(front);
        assert forall|i: int| 0 <= i < before.len() implies segs.contains(#[trigger] before[i])
            && before[i].index != last.index && unfinished(before[i]) by {
            assert(front.contains(before[i]));
            let k = choose|k: int| 0 <= k < front.len() && front[k] == before[i];
            assert(segs[k] == before[i]);
            assert(segs[k].index != segs[segs.len() - 1].index);
        }
        assert(segs[segs.len() - 1] == last);
        assert(segs.contains(last));
        assert forall|i: int| 0 <= i < out.len() implies segs.contains(#[trigger] out[i])
            && unfinished(out[i]) by {
            if i < before.len() {
                assert(out[i] == before[i]);
            }
        }
        assert forall|i: int, j: int|
            0 <= i < out.len() && 0 <= j < out.len() && i != j implies (#[trigger] out[i]).index
            != (#[trigger] out[j]).index by {
            if i < before.len() {
                assert(out[i] == before[i]);
            }
            if j < before.len() {
                assert(out[j] == before[j]);
            }
        }
    }
}

/// A batch is empty, where batches are not, only when every segment is complete.
pub proof fn empty_batch_means_complete(segs: Seq<Segment>, n: int)
    requires
        all_wf(segs),
        n >= 1,
        first_unfinished(by_left(segs), n).len() == 0,
    ensures
        forall|i: int| 0 <= i < segs.len() ==> (#[trigger] segs[i]).left() == 0,
{
    let p = |s: Segment| unfinished(s);
    let sorted = by_left(segs);
    by_left_same(segs);
    assert(sorted.filter(p).len() == 0);
    assert forall|i: int| 0 <= i < segs.len() implies (#[trigger] segs[i]).left() == 0 by {
        assert(segs[i].wf());
        assert(segs.contains(segs[i]));
        assert(sorted.contains(segs[i]));
        if segs[i].left() > 0 {
            let k = choose|k: int| 0 <= k < sorted.len() && sorted[k] == segs[i];
            assert(p(sorted[k]));
            sorted.lemma_filter_contains(p, k);
        }
    }
}

proof fn unfinished_descend(segs: Seq<Segment>)
    requires
        descending(segs),
    ensures
        descending(all_unfinished(segs)),
        forall|i: int|
            0 <= i < all_unfinished(segs).len() ==> (#[trigger] all_unfinished(segs)[i]).left()
                >= segs.last().left(),
    decreases segs.len(),
{
    reveal(Seq::filter);
    if segs.len() > 0 {
        let front = segs.drop_last();
        assert forall|i: int, j: int| 0 <= i <= j < front.len() implies (
        #[trigger] front[i]).left() >= (#[trigger] front[j]).left() by {
            assert(segs[i].left() >= segs[j].left());
        }
        unfinished_descend(front);
        let f = all_unfinished(segs);
        let g = all_unfinished(front);
        if front.len() > 0 {
            assert(segs[front.len() - 1].left() >= segs[segs.len() - 1].left());
        }
        assert forall|i: int| 0 <= i < f.len() implies (#[trigger] f[i]).left()
            >= segs.last().left() by {
            if i < g.len() {
                assert(f[i] == g[i]);
            }
        }
        assert forall|i: int, j: int| 0 <= i <= j < f.len() implies (#[trigger] f[i]).left() >= (
        #[trigger] f[j]).left() by {
            if j < g.len() {
                assert(f[i] == g[i] && f[j] == g[j]);
            } else {
                assert(f[j] == segs.last());
            }
        }
    }
}

/// A batch has at most as many segments as there are workers. All of them are unfinished
/// segments of the table, the largest first; and one that is unfinished and not among them
/// is left out only because the batch is full of others that have as much left or more.
pub proof fn batches_take_the_largest(segs: Seq<Segment>, n: int, s: Segment)
    requires
        n >= 0,
    ensures
        ({
            let batch = first_unfinished(by_left(segs), n);
            &&& batch.len() <= n
            &&& forall|i: int|
                0 <= i < batch.len() ==> segs.contains(#[trigger] batch[i]) && batch[i].end + 1
                    - batch[i].start - batch[i].downloaded > 0
            &&& forall|i: int, j: int|
                0 <= i <= j < batch.len() ==> (#[trigger] batch[i]).end - batch[i].start
                    - batch[i].downloaded >= (#[trigger] batch[j]).end - batch[j].start
                    - batch[j].downloaded
            &&& segs.contains(s) && s.end + 1 - s.start - s.downloaded > 0 && !batch.contains(s)
                ==> batch.len() == n && forall|i: int|
                0 <= i < batch.len() ==> (#[trigger] batch[i]).end - batch[i].start
                    - batch[i].downloaded >= s.end - s.start - s.downloaded
        }),
{
    let sorted = by_left(segs);
    let p = |x: Segment| unfinished(x);
    let f = all_unfinished(sorted);
    let batch = first_unfinished(sorted, n);
    by_left_same(segs);
    by_left_descends(segs);
    unfinished_descend(sorted);
    assert forall|i: int| 0 <= i < batch.len() implies segs.contains(#[trigger] batch[i])
        && batch[i].left() > 0 by {
        assert(batch[i] == f[i]);
        assert(f.contains(f[i]));
        sorted.lemma_filter_contains_rev(p, f[i]);
        sorted.lemma_filter_pred(p, i);
        assert(p(f[i]));
    }
    assert forall|i: int, j: int| 0 <= i <= j < batch.len() implies (
    #[trigger] batch[i]).left() >= (#[trigger] batch[j]).left() by {
        assert(batch[i] == f[i] && batch[j] == f[j]);
    }
    if segs.contains(s) && s.left() > 0 && !batch.contains(s) {
        assert(sorted.contains(s));
        let k = choose|k: int| 0 <= k < sorted.len() && sorted[k] == s;
        assert(p(sorted[k]));
        sorted.lemma_filter_contains(p, k);
        let j = choose|j: int| 0 <= j < f.len() && f[j] == s;
        if j < batch.len() {
            assert(batch[j] == s);
            assert(false);
        }
        assert forall|i: int| 0 <= i < batch.len() implies (#[trigger] batch[i]).left()
            >= s.left() by {
            assert(batch[i] == f[i]);
            assert(f[i].left() >= f[j].left());
        }
    }
}

/// Segments that have as much left keep their order when the table is sorted.
pub proof fn sorting_is_stable(segs: Seq<Segment>, left: int)
    ensures
        by_left(segs).filter(|s: Segment| s.end + 1 - s.start - s.downloaded == left)
            == segs.filter(|s: Segment| s.end + 1 - s.start - s.downloaded == left),
    decreases segs.len(),
{
    let p = |s: Segment| s.end + 1 - s.start - s.downloaded == left;
    if segs.len() > 0 {
        let before = segs.drop_last();
        let x = segs.last();
        let front = by_left(before);
        let at = insert_at(front, x);
        sorting_is_stable(before, left);
        insert_at_bounds(front, x);
        let head = front.take(at);
        let tail = front.skip(at);
        let one = seq![x];
        assert(front =~= head + tail);
        assert(front.insert(at, x) =~= head + (one + tail));
        assert(segs =~= before + one);
        Seq::filter_distributes_over_add(head, tail, p);
        Seq::filter_distributes_over_add(head, one + tail, p);
        Seq::filter_distributes_over_add(one, tail, p);
        Seq::filter_distributes_over_add(before, one, p);
        if p(x) {
            assert forall|i: int| 0 <= i < tail.len() implies !p(#[trigger] tail[i]) by {
                assert(tail[i] == front[at + i]);
            }
            tail.lemma_all_neg_filter_empty(p);
            assert(tail.filter(p) =~= Seq::<Segment>::empty());
            assert(head.filter(p) + (one.filter(p) + Seq::<Segment>::empty()) =~= head.filter(p)
                + Seq::<Segment>::empty() + one.filter(p));
        } else {
            assert forall|i: int| 0 <= i < one.len() implies !p(#[trigger] one[i]) by {}
            one.lemma_all_neg_filter_empty(p);
            assert(one.filter(p) =~= Seq::<Segment>::empty());
            assert(head.filter(p) + (Seq::<Segment>::empty() + tail.filter(p)) =~= head.filter(p)
                + tail.filter(p) + Seq::<Segment>::empty());
        }
    }
}

} // verus!
