//! A token bucket that limits a byte rate.
//!
//! The bucket counts in byte-nanoseconds: one byte is worth `NANOS` units, and a rate of
//! `r` bytes per second adds `r` units every nanosecond. A request that finds too little
//! in the bucket takes it into debt and waits until the debt has been paid at the rate,
//! so that requests that overlap never share the same allowance.
use vstd::prelude::*;

verus! {

/// Nanoseconds per second.
pub const NANOS: u64 = 1_000_000_000;

/// The shortest wait, one millisecond.
pub const MIN_WAIT: u128 = 1_000_000;

/// What the bucket holds while there is no limit; at least the capacity for every rate.
pub const FULL: i128 = 18446744073709551615000000000;

/// The deepest debt that is kept: 2^126 units, some 8 * 10^28 bytes.
pub const FLOOR: i128 = -85070591730234615865843651857942052864;

/// The state of a token bucket.
#[derive(Debug)]
pub struct TokenBucket {
    /// Bytes per second; 0 means no limit.
    rate: u64,
    /// Units in the bucket; negative while it is in debt.
    tokens: i128,
    /// When the bucket was last brought up to date, in nanoseconds.
    last: u64,
}

pub struct BucketView {
    pub rate: int,
    pub tokens: int,
    pub last: int,
}

/// The larger of two numbers.
pub open spec fn max_of(a: int, b: int) -> int {
    if a >= b {
        a
    } else {
        b
    }
}

/// The smaller of two numbers.
pub open spec fn min_of(a: int, b: int) -> int {
    if a <= b {
        a
    } else {
        b
    }
}

impl BucketView {
    /// The capacity: what the rate gives in one second.
    pub open spec fn capacity(self) -> int {
        self.rate * NANOS
    }

    /// What is in the bucket at `now`: the rate adds to it continuously, up to the
    /// capacity.
    pub open spec fn refilled(self, now: int) -> int {
        min_of(self.tokens + max_of(now - self.last, 0) * self.rate, self.capacity())
    }

    /// The bucket after a request for `amount` bytes at `now`.
    pub open spec fn after(self, amount: int, now: int) -> BucketView {
        BucketView {
            rate: self.rate,
            tokens: if self.rate == 0 {
                self.tokens
            } else {
                max_of(self.refilled(now) - amount * NANOS, FLOOR as int)
            },
            last: now,
        }
    }

    /// How long the request that left the bucket like this waits: not at all without a
    /// limit or without debt, else until the debt is paid at the rate (rounded up to a
    /// whole nanosecond), and at least `MIN_WAIT`.
    pub open spec fn wait(self) -> int {
        if self.rate == 0 || self.tokens >= 0 {
            0
        } else {
            max_of((-self.tokens + self.rate - 1) / self.rate, MIN_WAIT as int)
        }
    }
}

impl View for TokenBucket {
    type V = BucketView;

    closed spec fn view(&self) -> BucketView {
        BucketView { rate: self.rate as int, tokens: self.tokens as int, last: self.last as int }
    }
}

/// The rate that `limit` sets: no limit, or a limit of 0, is rate 0.
pub open spec fn rate_of(limit: Option<u64>) -> int {
    match limit {
        Some(r) => r as int,
        None => 0,
    }
}

impl TokenBucket {
    /// The units in the bucket are within the machine's range.
    pub open spec fn wf(self) -> bool {
        FLOOR <= self@.tokens <= FULL && 0 <= self@.rate <= u64::MAX
    }

    /// A full bucket at the time `now`.
    pub fn new(limit: Option<u64>, now: u64) -> (r: Self)
        ensures
            r.wf(),
            r@ == (BucketView {
                rate: rate_of(limit),
                tokens: if rate_of(limit) == 0 {
                    FULL as int
                } else {
                    rate_of(limit) * NANOS
                },
                last: now as int,
            }),
    {
        let rate: u64 = match limit {
            Some(r) => r,
            None => 0,
        };
        let tokens: i128 = if rate == 0 { FULL } else { rate as i128 * NANOS as i128 };
        TokenBucket { rate, tokens, last: now }
    }

    /// Sets the rate, at once. Lifting the limit fills the bucket.
    pub fn set_rate(&mut self, limit: Option<u64>)
        requires
            old(self).wf(),
        ensures
            final(self).wf(),
            final(self)@ == (BucketView {
                rate: rate_of(limit),
                tokens: if rate_of(limit) == 0 {
                    FULL as int
                } else {
                    old(self)@.tokens
                },
                last: old(self)@.last,
            }),
    {
        let rate: u64 = match limit {
            Some(r) => r,
            None => 0,
        };
        self.rate = rate;
        if rate == 0 {
            self.tokens = FULL;
        }
    }

    /// Takes `amount` bytes at the time `now` and says for how many nanoseconds the
    /// caller is to wait before using them. Every request is served, also one for more
    /// than the capacity.
    pub fn acquire(&mut self, amount: u64, now: u64) -> (r: u128)
        requires
            old(self).wf(),
        ensures
            final(self).wf(),
            final(self)@ == old(self)@.after(amount as int, now as int),
            r == final(self)@.wait(),
    {
        let elapsed: u64 = if now > self.last { now - self.last } else { 0 };
        self.last = now;
        if self.rate == 0 {
            return 0;
        }
        let ghost before = old(self)@;
        let cap: i128 = self.rate as i128 * NANOS as i128;
        proof {
            let e = elapsed as int;
            let q = self.rate as int;
            assert(0 <= e * q <= u64::MAX * u64::MAX) by (nonlinear_arith)
                requires
                    0 <= e <= u64::MAX,
                    0 <= q <= u64::MAX,
            ;
        }
        let refill: u128 = elapsed as u128 * self.rate as u128;
        let filled: i128 = if self.tokens >= cap {
            cap
        } else {
            let room: u128 = (cap - self.tokens) as u128;
            if refill >= room {
                cap
            } else {
                self.tokens + refill as i128
            }
        };
        proof {
            assert(filled == before.refilled(now as int));
        }
        let need: i128 = amount as i128 * NANOS as i128;
        self.tokens = if filled - FLOOR >= need { filled - need } else { FLOOR };
        if self.tokens >= 0 {
            return 0;
        }
        let debt: u128 = (-self.tokens) as u128;
        let paid: u128 = (debt + (self.rate as u128 - 1)) / self.rate as u128;
        if paid >= MIN_WAIT {
            paid
        } else {
            MIN_WAIT
        }
    }
}

// ---------------------------------------------------------------------------
// Laws
// ---------------------------------------------------------------------------
/// A request: when it came and how many bytes it asked for.
pub struct Request {
    pub at: int,
    pub amount: int,
}

/// The bucket after serving `reqs` in order.
pub open spec fn served(b: BucketView, reqs: Seq<Request>) -> BucketView
    decreases reqs.len(),
{
    if reqs.len() == 0 {
        b
    } else {
        served(b, reqs.drop_last()).after(reqs.last().amount, reqs.last().at)
    }
}

/// The bytes that `reqs` ask for together.
pub open spec fn asked(reqs: Seq<Request>) -> int
    decreases reqs.len(),
{
    if reqs.len() == 0 {
        0
    } else {
        asked(reqs.drop_last()) + reqs.last().amount
    }
}

/// The requests come in order of time, none before `start`.
pub open spec fn in_time_order(reqs: Seq<Request>, start: int) -> bool {
    &&& forall|i: int| 0 <= i < reqs.len() ==> (#[trigger] reqs[i]).at >= start && reqs[i].amount >= 0
    &&& forall|i: int, j: int|
        0 <= i <= j < reqs.len() ==> (#[trigger] reqs[i]).at <= (#[trigger] reqs[j]).at
}

proof fn served_keeps_rate(b: BucketView, reqs: Seq<Request>)
    ensures
        served(b, reqs).rate == b.rate,
        reqs.len() > 0 ==> served(b, reqs).last == reqs.last().at,
        reqs.len() == 0 ==> served(b, reqs) == b,
    decreases reqs.len(),
{
    if reqs.len() > 0 {
        served_keeps_rate(b, reqs.drop_last());
    }
}

proof fn no_overspending(b: BucketView, reqs: Seq<Request>)
    requires
        b.rate > 0,
        b.tokens <= b.capacity(),
        in_time_order(reqs, b.last),
        forall|n: int| 0 <= n <= reqs.len() ==> #[trigger] served(b, reqs.take(n)).tokens > FLOOR,
    ensures
        asked(reqs) * NANOS + served(b, reqs).tokens <= b.capacity() + (served(b, reqs).last
            - b.last) * b.rate,
    decreases reqs.len(),
{
    if reqs.len() > 0 {
        let front = reqs.drop_last();
        let prev = served(b, front);
        let now = reqs.last().at;
        assert forall|n: int| 0 <= n <= front.len() implies #[trigger] served(
            b,
            front.take(n),
        ).tokens > FLOOR by {
            assert(front.take(n) =~= reqs.take(n));
        }
        assert forall|i: int| 0 <= i < front.len() implies (#[trigger] front[i]).at >= b.last
            && front[i].amount >= 0 by {
            assert(front[i] == reqs[i]);
        }
        assert forall|i: int, j: int| 0 <= i <= j < front.len() implies (#[trigger] front[i]).at
            <= (#[trigger] front[j]).at by {
            assert(front[i] == reqs[i] && front[j] == reqs[j]);
        }
        no_overspending(b, front);
        served_keeps_rate(b, front);
        assert(reqs.take(reqs.len() as int) =~= reqs);
        assert(served(b, reqs).tokens > FLOOR);
        if front.len() > 0 {
            assert(front.last() == reqs[front.len() - 1]);
            assert(reqs[front.len() - 1].at <= reqs[reqs.len() - 1].at);
        } else {
            assert(reqs[0].at >= b.last);
        }
        assert(prev.last <= now);
        assert((now - prev.last) * prev.rate + (prev.last - b.last) * b.rate == (now - b.last)
            * b.rate) by (nonlinear_arith)
            requires
                prev.rate == b.rate,
        ;
        assert(asked(reqs) * NANOS == asked(front) * NANOS + reqs.last().amount * NANOS)
            by (nonlinear_arith)
            requires
                asked(reqs) == asked(front) + reqs.last().amount,
        ;
    }
}

/// The limit holds: over any requests to a bucket that starts out full, all the bytes
/// asked for up to the moment at which the last request may go on are at most what the
/// rate gives in the time since the start, plus the one second's worth that the bucket
/// started with. (A debt of `FLOOR` is left out: there the machine's range ends.)
pub proof fn rate_is_kept(b: BucketView, reqs: Seq<Request>)
    requires
        b.rate > 0,
        b.tokens == b.capacity(),
        in_time_order(reqs, b.last),
        reqs.len() > 0,
        forall|n: int| 0 <= n <= reqs.len() ==> #[trigger] served(b, reqs.take(n)).tokens > FLOOR,
    ensures
        asked(reqs) * NANOS <= b.rate * NANOS + (reqs.last().at + served(b, reqs).wait() - b.last)
            * b.rate,
{
    no_overspending(b, reqs);
    served_keeps_rate(b, reqs);
    let end = served(b, reqs);
    if end.tokens < 0 {
        let debt = -end.tokens;
        let q = (debt + end.rate - 1) / end.rate;
        assert(q * end.rate >= debt) by (nonlinear_arith)
            requires
                q == (debt + end.rate - 1) / end.rate,
                end.rate > 0,
        ;
        assert(end.wait() * end.rate >= q * end.rate) by (nonlinear_arith)
            requires
                end.wait() >= q,
                end.rate > 0,
        ;
        assert((reqs.last().at + end.wait() - b.last) * b.rate == (reqs.last().at - b.last) * b.rate
            + end.wait() * end.rate) by (nonlinear_arith)
            requires
                end.rate == b.rate,
        ;
    }
}

/// Nobody waits longer than the debt takes to be paid, or the shortest wait: a request
/// for more than the capacity goes on too.
pub proof fn wait_is_bounded(b: BucketView, amount: int, now: int)
    requires
        b.rate > 0,
        b.tokens >= 0,
        now >= b.last,
        amount >= 0,
    ensures
        b.after(amount, now).wait() <= max_of(
            (amount * NANOS + b.rate - 1) / b.rate,
            MIN_WAIT as int,
        ),
{
    let a = b.after(amount, now);
    assert(max_of(now - b.last, 0) * b.rate >= 0) by (nonlinear_arith)
        requires
            max_of(now - b.last, 0) >= 0,
            b.rate > 0,
    ;
    assert(a.tokens >= -(amount * NANOS));
    if a.tokens < 0 {
        let x = -a.tokens + b.rate - 1;
        let y = amount * NANOS + b.rate - 1;
        assert(x / b.rate <= y / b.rate) by (nonlinear_arith)
            requires
                x <= y,
                b.rate > 0,
        ;
    }
}

/// Without a limit nobody waits.
pub proof fn no_limit_no_wait(b: BucketView, amount: int, now: int)
    requires
        b.rate == 0,
    ensures
        b.after(amount, now).wait() == 0,
{
}

/// The two choices between numbers: a bound, and one of the two.
pub proof fn choices_are_bounds(a: int, b: int)
    ensures
        min_of(a, b) <= a && min_of(a, b) <= b && (min_of(a, b) == a || min_of(a, b) == b),
        max_of(a, b) >= a && max_of(a, b) >= b && (max_of(a, b) == a || max_of(a, b) == b),
{
}

/// A limit is the rate itself, and no limit is rate 0. The bucket's range is wide enough for
/// one second of every rate, and for a debt of four thousand million such seconds.
pub proof fn limits_set_the_rate(limit: u64)
    ensures
        rate_of(Some(limit)) == limit,
        rate_of(None) == 0,
        limit * 1_000_000_000 <= FULL,
        FLOOR <= -4_000_000_000 * (limit * 1_000_000_000),
{
}

/// A request is charged exactly what it asks for, out of what the bucket holds by then: what
/// it held, and what the rate has added since, up to one second's worth. What is there is had
/// at once. For what is not there the caller waits until the rate has brought it and no
/// longer, rounded up to a nanosecond, but at least a millisecond.
pub proof fn requests_pay_exactly(b: BucketView, amount: int, now: int)
    requires
        b.rate > 0,
        amount >= 0,
    ensures
        ({
            let since = if now >= b.last {
                now - b.last
            } else {
                0
            };
            let grown = b.tokens + since * b.rate;
            let have = if grown <= b.rate * 1_000_000_000 {
                grown
            } else {
                b.rate * 1_000_000_000
            };
            let a = b.after(amount, now);
            let debt = amount * 1_000_000_000 - have;
            &&& a.rate == b.rate
            &&& a.last == now
            &&& debt <= 0 ==> a.wait() == 0 && a.tokens == have - amount * 1_000_000_000
            &&& 0 < debt <= -FLOOR ==> {
                &&& a.tokens == have - amount * 1_000_000_000
                &&& a.wait() >= 1_000_000
                &&& a.wait() * b.rate >= debt
                &&& a.wait() == 1_000_000 || (a.wait() - 1) * b.rate < debt
            }
        }),
{
    let since = if now >= b.last {
        now - b.last
    } else {
        0
    };
    let a = b.after(amount, now);
    let have = b.refilled(now);
    let debt = amount * 1_000_000_000 - have;
    assert(max_of(now - b.last, 0) == since);
    if 0 < debt <= -FLOOR {
        let q = (debt + b.rate - 1) / b.rate;
        assert(q * b.rate >= debt && (q - 1) * b.rate < debt) by (nonlinear_arith)
            requires
                q == (debt + b.rate - 1) / b.rate,
                b.rate > 0,
        ;
        assert(a.wait() * b.rate >= q * b.rate) by (nonlinear_arith)
            requires
                a.wait() >= q,
                b.rate > 0,
        ;
    }
}

} // verus!
