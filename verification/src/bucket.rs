//! Price points: parsing the API's entries into time-ordered points, and
//! grouping points into consecutive time buckets.

use crate::api::ApiEntry;
use crate::error::{CepError, CepErrorView};
use crate::text::{decimal_text, format_i64, parse_i64, spec_parse_i64};
use crate::time::{
    max_total, utc_from_parts, utc_parts_valid, Span, Timestamp,
};
use vstd::prelude::*;

verus! {

/// A price at an instant. The price is carried as the caller parsed it.
#[derive(Clone, Copy, Debug)]
pub struct PricePoint<P> {
    pub timestamp: Timestamp,
    pub price: P,
}

/// The points of one time window `[start, end)`: their prices, in the order
/// of the points they came from, and how many there are.
#[derive(Clone, Debug)]
pub struct Bucket<P> {
    pub start: Timestamp,
    pub end: Timestamp,
    pub prices: Vec<P>,
    pub count: usize,
}

pub open spec fn time_of<P>(p: PricePoint<P>) -> int {
    p.timestamp.total()
}

pub open spec fn all_valid<P>(s: Seq<PricePoint<P>>) -> bool {
    forall|i: int| 0 <= i < s.len() ==> (#[trigger] s[i]).timestamp.wf()
}

pub open spec fn sorted_by_time<P>(s: Seq<PricePoint<P>>) -> bool {
    forall|i: int, j: int| 0 <= i <= j < s.len() ==> time_of(s[i]) <= time_of(s[j])
}

/// The points of `s` at instant `t`, in their order in `s`.
pub open spec fn at_instant<P>(s: Seq<PricePoint<P>>, t: int) -> Seq<PricePoint<P>> {
    s.filter(|p: PricePoint<P>| time_of(p) == t)
}

/// `out` is `inp` sorted by time, points at the same instant keeping their
/// order (what a stable sort by time gives).
pub open spec fn stable_sorted_of<P>(out: Seq<PricePoint<P>>, inp: Seq<PricePoint<P>>) -> bool {
    &&& sorted_by_time(out)
    &&& forall|t: int| #[trigger] at_instant(out, t) == at_instant(inp, t)
}

proof fn lemma_filter_push<A>(s: Seq<A>, x: A, f: spec_fn(A) -> bool)
    ensures
        s.push(x).filter(f) == (if f(x) {
            s.filter(f).push(x)
        } else {
            s.filter(f)
        }),
{
    reveal(Seq::filter);
    assert(s.push(x).drop_last() =~= s);
}

proof fn lemma_filter_none<A>(s: Seq<A>, f: spec_fn(A) -> bool)
    requires
        forall|i: int| 0 <= i < s.len() ==> !f(#[trigger] s[i]),
    ensures
        s.filter(f) == Seq::<A>::empty(),
    decreases s.len(),
{
    reveal(Seq::filter);
    if s.len() > 0 {
        lemma_filter_none(s.drop_last(), f);
    }
}

/// Inserts `x` after every point that is not later than it.
fn insert_by_time<P: Copy>(out: &mut Vec<PricePoint<P>>, x: PricePoint<P>)
    requires
        sorted_by_time(old(out)@),
        all_valid(old(out)@),
        x.timestamp.wf(),
    ensures
        sorted_by_time(final(out)@),
        all_valid(final(out)@),
        forall|t: int|
            #[trigger] at_instant(final(out)@, t) == at_instant(old(out)@.push(x), t),
{
    let mut pos: usize = 0;
    while pos < out.len() && !x.timestamp.is_before(&out[pos].timestamp)
        invariant
            pos <= out.len(),
            all_valid(out@),
            x.timestamp.wf(),
            forall|k: int| 0 <= k < pos ==> time_of(#[trigger] out@[k]) <= time_of(x),
        decreases out.len() - pos,
    {
        pos = pos + 1;
    }
    let ghost before = out@;
    proof {
        if pos < before.len() {
            assert forall|k: int| pos <= k < before.len() implies time_of(#[trigger] before[k])
                > time_of(x) by {
                assert(time_of(before[pos as int]) <= time_of(before[k]));
            }
        }
    }
    out.insert(pos, x);
    proof {
        let a = before.subrange(0, pos as int);
        let b = before.subrange(pos as int, before.len() as int);
        assert(out@ =~= a.push(x) + b);
        assert(before =~= a + b);
        assert(before.push(x) =~= (a + b).push(x));
        assert forall|t: int| #[trigger] at_instant(out@, t) == at_instant(before.push(x), t) by {
            let f = |p: PricePoint<P>| time_of(p) == t;
            Seq::filter_distributes_over_add(a.push(x), b, f);
            Seq::filter_distributes_over_add(a, b, f);
            lemma_filter_push(a, x, f);
            lemma_filter_push(a + b, x, f);
            if time_of(x) == t {
                assert forall|i: int| 0 <= i < b.len() implies !f(#[trigger] b[i]) by {
                    assert(b[i] == before[pos + i]);
                }
                lemma_filter_none(b, f);
                assert(b.filter(f) + Seq::<PricePoint<P>>::empty() =~= b.filter(f));
                assert(a.filter(f).push(x) + b.filter(f) =~= (a.filter(f) + b.filter(f)).push(x));
            }
        }
        assert forall|i: int, j: int| 0 <= i <= j < out@.len() implies time_of(out@[i])
            <= time_of(out@[j]) by {
            if i < pos && j > pos {
                assert(out@[j] == before[j - 1]);
            } else if i > pos {
                assert(out@[i] == before[i - 1]);
                assert(out@[j] == before[j - 1]);
            } else if i == pos && j > pos {
                assert(out@[j] == before[j - 1]);
            }
        }
        assert(all_valid(out@)) by {
            assert forall|i: int| 0 <= i < out@.len() implies (#[trigger] out@[i]).timestamp.wf() by {
                if i > pos {
                    assert(out@[i] == before[i - 1]);
                }
            }
        }
    }
}

/// Sorts points by time; points at the same instant keep their order
/// (the effect of a stable `sort_by_key` on the timestamp).
pub fn sort_by_time<P: Copy>(points: &Vec<PricePoint<P>>) -> (r: Vec<PricePoint<P>>)
    requires
        all_valid(points@),
    ensures
        stable_sorted_of(r@, points@),
        all_valid(r@),
{
    let mut out: Vec<PricePoint<P>> = Vec::new();
    let mut i: usize = 0;
    while i < points.len()
        invariant
            i <= points.len(),
            all_valid(points@),
            sorted_by_time(out@),
            all_valid(out@),
            forall|t: int| #[trigger] at_instant(out@, t) == at_instant(points@.take(i as int), t),
        decreases points.len() - i,
    {
        let x = points[i];
        let ghost prev = out@;
        insert_by_time(&mut out, x);
        proof {
            assert(points@.take(i + 1) =~= points@.take(i as int).push(x));
            assert forall|t: int| #[trigger] at_instant(out@, t) == at_instant(
                points@.take(i + 1),
                t,
            ) by {
                let f = |p: PricePoint<P>| time_of(p) == t;
                lemma_filter_push(prev, x, f);
                lemma_filter_push(points@.take(i as int), x, f);
                assert(at_instant(prev, t) == at_instant(points@.take(i as int), t));
            }
        }
        i = i + 1;
    }
    assert(points@.take(points.len() as int) =~= points@);
    out
}


/// `millis / 1000` in Rust: division truncated toward zero.
pub open spec fn millis_secs(m: i64) -> int {
    if m >= 0 {
        m as int / 1000
    } else {
        -((-(m as int)) / 1000)
    }
}

/// `((millis % 1000) * 1_000_000) as u32` in Rust: the remainder keeps the
/// sign of `millis`, and a negative product wraps around modulo 2^32.
pub open spec fn millis_nanos(m: i64) -> u32 {
    let rem = m as int - millis_secs(m) * 1000;
    if rem >= 0 {
        (rem * 1_000_000) as u32
    } else {
        (rem * 1_000_000 + 0x1_0000_0000) as u32
    }
}

/// Seconds and nanoseconds of a millisecond timestamp, split as above.
fn split_millis(m: i64) -> (r: (i64, u32))
    ensures
        r.0 as int == millis_secs(m),
        r.1 == millis_nanos(m),
{
    if m >= 0 {
        let a = m as u64;
        let q = a / 1000;
        let rem = a % 1000;
        assert(a == q * 1000 + rem);
        ((q as i64), (rem * 1_000_000) as u32)
    } else {
        let a: u64 = if m == i64::MIN {
            0x8000_0000_0000_0000u64
        } else {
            (-m) as u64
        };
        let q = a / 1000;
        let rem = a % 1000;
        assert(a == q * 1000 + rem);
        let secs: i64 = -(q as i64);
        if rem == 0 {
            (secs, 0)
        } else {
            (secs, (0x1_0000_0000u64 - rem * 1_000_000) as u32)
        }
    }
}

/// The instant an entry's millisecond count names.
pub open spec fn entry_stamp(m: i64) -> Timestamp {
    Timestamp { secs: millis_secs(m) as i64, nanos: millis_nanos(m) }
}

/// Why an entry is refused, if it is: its time is not an `i64`, its price
/// did not parse, or its time is outside the calendar; checked in this
/// order.
pub open spec fn entry_error<P>(e: ApiEntry, price: Option<P>) -> Option<Seq<char>> {
    match spec_parse_i64(e.millis_utc@) {
        None => Some("invalid millisUTC: "@ + e.millis_utc@),
        Some(m) => {
            if price is None {
                Some("invalid price: "@ + e.price@)
            } else if !utc_parts_valid(millis_secs(m) as i64, millis_nanos(m)) {
                Some("invalid timestamp: "@ + decimal_text(m as int))
            } else {
                None
            }
        },
    }
}

/// The point an accepted entry becomes.
pub open spec fn entry_point<P>(e: ApiEntry, price: Option<P>) -> PricePoint<P> {
    PricePoint { timestamp: entry_stamp(spec_parse_i64(e.millis_utc@)->0), price: price->0 }
}

/// The points of the entries, in the order of the entries.
pub open spec fn entry_points<P>(raw: Seq<ApiEntry>, prices: Seq<Option<P>>) -> Seq<PricePoint<P>> {
    Seq::new(raw.len(), |i: int| entry_point(raw[i], prices[i]))
}

/// Turns the API's entries into points sorted by time. `prices[i]` is the
/// price of `raw[i]` as the caller parsed it (`None` where it did not
/// parse). The first refused entry decides the error.
pub fn parse_entries<P: Copy>(raw: Vec<ApiEntry>, prices: Vec<Option<P>>) -> (res: Result<
    Vec<PricePoint<P>>,
    CepError,
>)
    requires
        raw.len() == prices.len(),
    ensures
        res is Ok <==> (forall|j: int|
            0 <= j < raw.len() ==> #[trigger] entry_error(raw@[j], prices@[j]) is None),
        res matches Err(e) ==> exists|i: int|
            0 <= i < raw.len() && (forall|j: int|
                0 <= j < i ==> #[trigger] entry_error(raw@[j], prices@[j]) is None)
                && #[trigger] entry_error(raw@[i], prices@[i]) is Some && e@ == CepErrorView::Api(
                entry_error(raw@[i], prices@[i])->0,
            ),
        res matches Ok(pts) ==> stable_sorted_of(pts@, entry_points(raw@, prices@)) && all_valid(
            pts@,
        ),
{
    let mut pts: Vec<PricePoint<P>> = Vec::new();
    let mut i: usize = 0;
    while i < raw.len()
        invariant
            raw.len() == prices.len(),
            i <= raw.len(),
            pts@ =~= entry_points(raw@, prices@).take(i as int),
            all_valid(pts@),
            forall|j: int| 0 <= j < i ==> #[trigger] entry_error(raw@[j], prices@[j]) is None,
        decreases raw.len() - i,
    {
        let entry = &raw[i];
        let millis = match parse_i64(entry.millis_utc.as_str()) {
            Some(m) => m,
            None => {
                let mut msg = String::from_str("invalid millisUTC: ");
                msg.append(entry.millis_utc.as_str());
                assert(entry_error(raw@[i as int], prices@[i as int]) == Some(msg@));
                return Err(CepError::Api(msg));
            },
        };
        let price = match prices[i] {
            Some(p) => p,
            None => {
                let mut msg = String::from_str("invalid price: ");
                msg.append(entry.price.as_str());
                assert(entry_error(raw@[i as int], prices@[i as int]) == Some(msg@));
                return Err(CepError::Api(msg));
            },
        };
        let (secs, nanos) = split_millis(millis);
        let timestamp = match utc_from_parts(secs, nanos) {
            Some(t) => t,
            None => {
                let mut msg = String::from_str("invalid timestamp: ");
                let digits = format_i64(millis);
                msg.append(digits.as_str());
                assert(entry_error(raw@[i as int], prices@[i as int]) == Some(msg@));
                return Err(CepError::Api(msg));
            },
        };
        assert(timestamp.wf()) by {
            assert(nanos < 1_000_000_000 || nanos >= 2_000_000_000);
        }
        pts.push(PricePoint { timestamp, price });
        i = i + 1;
    }
    assert(entry_points(raw@, prices@).take(i as int) =~= entry_points(raw@, prices@));
    Ok(sort_by_time(&pts))
}


/// How many windows of length `d` it takes to cover `[s, e)`.
pub open spec fn bucket_count(s: int, e: int, d: int) -> int {
    if s >= e {
        0
    } else {
        (e - s - 1) / d + 1
    }
}

/// Start of the `k`-th window.
pub open spec fn bucket_lo(s: int, d: int, k: int) -> int {
    s + k * d
}

/// End of the `k`-th window: one length later, but not past `e`.
pub open spec fn bucket_hi(s: int, e: int, d: int, k: int) -> int {
    if s + (k + 1) * d < e {
        s + (k + 1) * d
    } else {
        e
    }
}

/// The prices of the points in `[lo, hi)`, in the order of the points.
pub open spec fn window_prices<P>(pts: Seq<PricePoint<P>>, lo: int, hi: int) -> Seq<P> {
    pts.filter(|p: PricePoint<P>| lo <= time_of(p) < hi).map_values(|p: PricePoint<P>| p.price)
}

/// The prices of all points, in order.
pub open spec fn all_prices<P>(pts: Seq<PricePoint<P>>) -> Seq<P> {
    pts.map_values(|p: PricePoint<P>| p.price)
}

/// `prices` holds the price of every point, one for one and in order.
pub open spec fn prices_one_for_one<P>(prices: Seq<P>, pts: Seq<PricePoint<P>>) -> bool {
    &&& prices.len() == pts.len()
    &&& forall|i: int| 0 <= i < pts.len() ==> #[trigger] prices[i] == pts[i].price
}

/// The prices of all points are those of each point, in order.
pub proof fn lemma_all_prices<P>(pts: Seq<PricePoint<P>>)
    ensures
        prices_one_for_one(all_prices(pts), pts),
{
}

/// When bucketing finishes without leaving the calendar: a window at least
/// as long as the range gives one bucket; a range that is empty or reversed
/// gives none; otherwise the window must be positive (else the walk never
/// ends) and the end of the last window must stay within `chrono`'s range.
pub open spec fn bucketing_defined(start: Timestamp, end: Timestamp, interval: Span) -> bool {
    let s = start.total();
    let e = end.total();
    let d = interval.total();
    ||| d >= e - s
    ||| s >= e
    ||| (d > 0 && s + bucket_count(s, e, d) * d <= max_total())
}

proof fn lemma_bucket_index(s: int, e: int, d: int, k: int)
    requires
        s < e,
        d > 0,
        k >= 0,
    ensures
        bucket_count(s, e, d) >= 1,
        k < bucket_count(s, e, d) <==> s + k * d < e,
        (k + 1) * d == k * d + d,
{
    let n = bucket_count(s, e, d);
    let q = (e - s - 1) / d;
    let r = (e - s - 1) % d;
    vstd::arithmetic::div_mod::lemma_fundamental_div_mod(e - s - 1, d);
    assert(0 <= r < d);
    assert(q >= 0) by (nonlinear_arith)
        requires
            e - s - 1 == d * q + r,
            0 <= r < d,
            e - s - 1 >= 0,
    ;
    assert(n == q + 1);
    if k < n {
        assert(k * d <= q * d) by (nonlinear_arith)
            requires
                k <= q,
                d > 0,
        ;
        assert(q * d == d * q) by (nonlinear_arith);
    } else {
        assert(k * d >= (q + 1) * d) by (nonlinear_arith)
            requires
                k >= q + 1,
                d > 0,
        ;
        assert((q + 1) * d == d * q + d) by (nonlinear_arith);
    }
    assert((k + 1) * d == k * d + d) by (nonlinear_arith);
}

proof fn lemma_count_monotone(k: int, n: int, d: int)
    requires
        0 <= k <= n,
        d > 0,
    ensures
        k * d <= n * d,
{
    assert(k * d <= n * d) by (nonlinear_arith)
        requires
            0 <= k <= n,
            d > 0,
    ;
}

/// The prices of the points in `[lo, hi)`.
fn prices_between<P: Copy>(points: &Vec<PricePoint<P>>, lo: &Timestamp, hi: &Timestamp) -> (r: Vec<P>)
    requires
        all_valid(points@),
        lo.wf(),
        hi.wf(),
    ensures
        r@ == window_prices(points@, lo.total(), hi.total()),
{
    let ghost f = |p: PricePoint<P>| lo.total() <= time_of(p) < hi.total();
    let ghost g = |p: PricePoint<P>| p.price;
    let mut r: Vec<P> = Vec::new();
    let mut i: usize = 0;
    while i < points.len()
        invariant
            i <= points.len(),
            all_valid(points@),
            lo.wf(),
            hi.wf(),
            f == (|p: PricePoint<P>| lo.total() <= time_of(p) < hi.total()),
            g == (|p: PricePoint<P>| p.price),
            r@ == points@.take(i as int).filter(f).map_values(g),
        decreases points.len() - i,
    {
        let p = points[i];
        proof {
            assert(points@.take(i + 1) =~= points@.take(i as int).push(p));
            lemma_filter_push(points@.take(i as int), p, f);
            points@.take(i as int).filter(f).lemma_push_map_commute(g, p);
        }
        if !p.timestamp.is_before(lo) && p.timestamp.is_before(hi) {
            r.push(p.price);
        }
        i = i + 1;
    }
    assert(points@.take(i as int) =~= points@);
    r
}

/// The prices of all points.
fn prices_of<P: Copy>(points: &Vec<PricePoint<P>>) -> (r: Vec<P>)
    ensures
        r@ == all_prices(points@),
        prices_one_for_one(r@, points@),
{
    proof {
        lemma_all_prices(points@);
    }
    let mut r: Vec<P> = Vec::new();
    let mut i: usize = 0;
    while i < points.len()
        invariant
            i <= points.len(),
            r@ =~= all_prices(points@.take(i as int)),
        decreases points.len() - i,
    {
        r.push(points[i].price);
        i = i + 1;
        assert(all_prices(points@.take(i as int)) =~= all_prices(points@.take(i - 1)).push(
            points@[i - 1].price,
        ));
    }
    assert(points@.take(i as int) =~= points@);
    r
}

/// Groups points into consecutive windows of length `interval`, from
/// `start` up to `end`; the last window ends at `end`. A window at least as
/// long as the range gives a single bucket with every point.
pub fn bucket_by_interval<P: Copy>(
    points: &Vec<PricePoint<P>>,
    start: Timestamp,
    end: Timestamp,
    interval: Span,
) -> (res: Vec<Bucket<P>>)
    requires
        all_valid(points@),
        start.wf(),
        end.wf(),
        interval.wf(),
        bucketing_defined(start, end, interval),
    ensures
        interval.total() >= end.total() - start.total() ==> {
            &&& res@.len() == 1
            &&& res@[0].start == start
            &&& res@[0].end == end
            &&& res@[0].prices@ == all_prices(points@)
            &&& prices_one_for_one(res@[0].prices@, points@)
            &&& res@[0].count == points@.len()
        },
        interval.total() < end.total() - start.total() ==> {
            let s = start.total();
            let e = end.total();
            let d = interval.total();
            &&& res@.len() == bucket_count(s, e, d)
            &&& forall|k: int|
                0 <= k < res@.len() ==> {
                    &&& (#[trigger] res@[k]).start.wf()
                    &&& res@[k].end.wf()
                    &&& res@[k].start.total() == bucket_lo(s, d, k)
                    &&& res@[k].end.total() == bucket_hi(s, e, d, k)
                    &&& res@[k].prices@ == window_prices(
                        points@,
                        bucket_lo(s, d, k),
                        bucket_hi(s, e, d, k),
                    )
                    &&& res@[k].count == res@[k].prices@.len()
                    &&& res@[k].count == count_in(
                        points@,
                        bucket_lo(s, d, k),
                        bucket_hi(s, e, d, k),
                    )
                }
        },
{
    let range = end.since(&start);
    if interval.is_at_least(&range) {
        let prices = prices_of(points);
        let mut res: Vec<Bucket<P>> = Vec::new();
        res.push(Bucket { start, end, count: points.len(), prices });
        return res;
    }
    let ghost s = start.total();
    let ghost e = end.total();
    let ghost d = interval.total();
    let ghost n = bucket_count(s, e, d);
    let mut buckets: Vec<Bucket<P>> = Vec::new();
    if !start.is_before(&end) {
        return buckets;
    }
    proof {
        lemma_bucket_index(s, e, d, 0);
    }
    let mut bstart = start;
    let ghost mut k: int = 0;
    while bstart.is_before(&end)
        invariant
            all_valid(points@),
            start.wf(),
            end.wf(),
            interval.wf(),
            s == start.total(),
            e == end.total(),
            d == interval.total(),
            s < e,
            d > 0,
            n == bucket_count(s, e, d),
            n >= 1,
            s + n * d <= max_total(),
            0 <= k <= n,
            buckets@.len() == k,
            bstart.wf(),
            k < n ==> bstart.total() == s + k * d && bstart.total() < e,
            k == n ==> bstart.total() >= e,
            forall|j: int|
                0 <= j < k ==> {
                    &&& (#[trigger] buckets@[j]).start.wf()
                    &&& buckets@[j].end.wf()
                    &&& buckets@[j].start.total() == bucket_lo(s, d, j)
                    &&& buckets@[j].end.total() == bucket_hi(s, e, d, j)
                    &&& buckets@[j].prices@ == window_prices(
                        points@,
                        bucket_lo(s, d, j),
                        bucket_hi(s, e, d, j),
                    )
                    &&& buckets@[j].count == buckets@[j].prices@.len()
                },
        decreases n - k,
    {
        proof {
            lemma_bucket_index(s, e, d, k);
            lemma_bucket_index(s, e, d, k + 1);
            lemma_count_monotone(k + 1, n, d);
        }
        let next = bstart.add_span(interval);
        let bend = if next.is_before(&end) {
            next
        } else {
            end
        };
        let prices = prices_between(points, &bstart, &bend);
        let count = prices.len();
        buckets.push(Bucket { start: bstart, end: bend, prices, count });
        bstart = bend;
        proof {
            k = k + 1;
        }
    }
    buckets
}


/// The windows tile `[s, e)`: the first starts at `s`, each ends where the
/// next starts, the last ends at `e`, and none is empty or longer than `d`.
pub proof fn lemma_buckets_tile(s: int, e: int, d: int)
    requires
        s < e,
        d > 0,
    ensures
        bucket_count(s, e, d) >= 1,
        bucket_lo(s, d, 0) == s,
        bucket_hi(s, e, d, bucket_count(s, e, d) - 1) == e,
        forall|k: int|
            0 <= k < bucket_count(s, e, d) - 1 ==> #[trigger] bucket_hi(s, e, d, k) == bucket_lo(
                s,
                d,
                k + 1,
            ),
        forall|k: int|
            0 <= k < bucket_count(s, e, d) ==> bucket_lo(s, d, k) < #[trigger] bucket_hi(s, e, d, k)
                <= bucket_lo(s, d, k) + d,
{
    let n = bucket_count(s, e, d);
    lemma_bucket_index(s, e, d, 0);
    lemma_bucket_index(s, e, d, n - 1);
    lemma_bucket_index(s, e, d, n);
    assert(0 * d == 0);
    assert forall|k: int| 0 <= k < n - 1 implies #[trigger] bucket_hi(s, e, d, k) == bucket_lo(
        s,
        d,
        k + 1,
    ) by {
        lemma_bucket_index(s, e, d, k + 1);
    }
    assert forall|k: int| 0 <= k < n implies bucket_lo(s, d, k) < #[trigger] bucket_hi(s, e, d, k)
        <= bucket_lo(s, d, k) + d by {
        lemma_bucket_index(s, e, d, k);
        lemma_bucket_index(s, e, d, k + 1);
    }
}

/// Every instant of `[s, e)` lies in exactly one window, the one numbered
/// `(t - s) / d`.
pub proof fn lemma_instant_in_one_bucket(s: int, e: int, d: int, t: int)
    requires
        s < e,
        d > 0,
        s <= t < e,
    ensures
        0 <= (t - s) / d < bucket_count(s, e, d),
        bucket_lo(s, d, (t - s) / d) <= t < bucket_hi(s, e, d, (t - s) / d),
        forall|j: int|
            0 <= j < bucket_count(s, e, d) && j != (t - s) / d ==> !(bucket_lo(s, d, j) <= t
                < #[trigger] bucket_hi(s, e, d, j)),
{
    let k = (t - s) / d;
    let r = (t - s) % d;
    vstd::arithmetic::div_mod::lemma_fundamental_div_mod(t - s, d);
    assert(0 <= r < d);
    assert(k >= 0) by (nonlinear_arith)
        requires
            t - s == d * k + r,
            0 <= r < d,
            t - s >= 0,
    ;
    assert(d * k == k * d) by (nonlinear_arith);
    lemma_bucket_index(s, e, d, k);
    lemma_bucket_index(s, e, d, k + 1);
    assert forall|j: int|
        0 <= j < bucket_count(s, e, d) && j != k implies !(bucket_lo(s, d, j) <= t
            < #[trigger] bucket_hi(s, e, d, j)) by {
        lemma_bucket_index(s, e, d, j);
        lemma_bucket_index(s, e, d, j + 1);
        if j < k {
            assert((j + 1) * d <= k * d) by (nonlinear_arith)
                requires
                    j + 1 <= k,
                    d > 0,
            ;
        } else {
            assert(j * d >= (k + 1) * d) by (nonlinear_arith)
                requires
                    j >= k + 1,
                    d > 0,
            ;
        }
    }
}

/// Number of points in `[lo, hi)`.
pub open spec fn count_in<P>(pts: Seq<PricePoint<P>>, lo: int, hi: int) -> nat {
    pts.filter(|p: PricePoint<P>| lo <= time_of(p) < hi).len()
}

/// Sum of the counts of the first `k` windows.
pub open spec fn counts_upto<P>(pts: Seq<PricePoint<P>>, s: int, e: int, d: int, k: int) -> nat
    decreases k,
{
    if k <= 0 {
        0
    } else {
        counts_upto(pts, s, e, d, k - 1) + count_in(pts, bucket_lo(s, d, k - 1), bucket_hi(s, e, d, k - 1))
    }
}

proof fn lemma_count_split<P>(pts: Seq<PricePoint<P>>, a: int, b: int, c: int)
    requires
        a <= b <= c,
    ensures
        count_in(pts, a, c) == count_in(pts, a, b) + count_in(pts, b, c),
    decreases pts.len(),
{
    if pts.len() > 0 {
        let q = pts.drop_last();
        lemma_count_split(q, a, b, c);
        assert(pts =~= q.push(pts.last()));
        lemma_filter_push(q, pts.last(), |p: PricePoint<P>| a <= time_of(p) < c);
        lemma_filter_push(q, pts.last(), |p: PricePoint<P>| a <= time_of(p) < b);
        lemma_filter_push(q, pts.last(), |p: PricePoint<P>| b <= time_of(p) < c);
    } else {
        reveal(Seq::filter);
    }
}

proof fn lemma_counts_prefix<P>(pts: Seq<PricePoint<P>>, s: int, e: int, d: int, k: int)
    requires
        s < e,
        d > 0,
        1 <= k <= bucket_count(s, e, d),
    ensures
        counts_upto(pts, s, e, d, k) == count_in(pts, s, bucket_hi(s, e, d, k - 1)),
        s < bucket_hi(s, e, d, k - 1),
    decreases k,
{
    lemma_buckets_tile(s, e, d);
    let hi = bucket_hi(s, e, d, k - 1);
    if k == 1 {
        assert(counts_upto(pts, s, e, d, 0) == 0);
    } else {
        lemma_counts_prefix(pts, s, e, d, k - 1);
        let mid = bucket_hi(s, e, d, k - 2);
        assert(mid == bucket_lo(s, d, k - 1));
        lemma_count_split(pts, s, mid, hi);
    }
}

/// With windows shorter than the range, the bucket counts add up to the
/// number of points in `[s, e)`: each such point is counted once, and
/// points outside the range are not counted.
pub proof fn lemma_counts_add_up<P>(pts: Seq<PricePoint<P>>, s: int, e: int, d: int)
    requires
        s < e,
        d > 0,
    ensures
        counts_upto(pts, s, e, d, bucket_count(s, e, d)) == count_in(pts, s, e),
{
    lemma_buckets_tile(s, e, d);
    lemma_counts_prefix(pts, s, e, d, bucket_count(s, e, d));
}


fn stamp_nanos(t: Timestamp) -> (r: i128)
    requires
        t.wf(),
    ensures
        r as int == t.total(),
{
    t.secs as i128 * 1_000_000_000 + t.nanos as i128
}

/// Whether `bucket_by_interval` finishes on these bounds (see
/// `bucketing_defined`).
pub fn bucketing_is_defined(start: Timestamp, end: Timestamp, interval: Span) -> (r: bool)
    requires
        start.wf(),
        end.wf(),
        interval.wf(),
    ensures
        r == bucketing_defined(start, end, interval),
{
    let range = end.since(&start);
    if interval.is_at_least(&range) {
        return true;
    }
    if !start.is_before(&end) {
        return true;
    }
    let s = stamp_nanos(start);
    let e = stamp_nanos(end);
    let d: i128 = interval.secs as i128 * 1_000_000_000 + interval.nanos as i128;
    if d <= 0 {
        return false;
    }
    let x = (e - s - 1) as u128;
    let q = x / (d as u128);
    proof {
        vstd::arithmetic::div_mod::lemma_fundamental_div_mod(x as int, d as int);
        assert(0 <= x % (d as u128) < d);
        assert(q * d <= x) by (nonlinear_arith)
            requires
                x == d * q + x % (d as u128),
                0 <= x % (d as u128),
        ;
        assert((q + 1) * d == q * d + d) by (nonlinear_arith);
    }
    let n: i128 = q as i128 + 1;
    let last: i128 = s + n * d;
    let max: i128 = crate::time::MAX_SECS as i128 * 1_000_000_000 + 999_999_999;
    last <= max
}

} // verus!
