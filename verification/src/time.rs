//! Instants and lengths of time, held as plain seconds and nanoseconds,
//! and the calls into `chrono` / `chrono-tz` that convert them.

use chrono::{DateTime, TimeZone, Utc};
use chrono_tz::US::Central;
use crate::text::{all_digits, decimal_value, digit_char};
use vstd::prelude::*;

verus! {

pub const NANOS_PER_SEC: u32 = 1_000_000_000;

/// First second of the range that `chrono` can represent
/// (January 1 of year -262143, 00:00:00).
pub const MIN_SECS: i64 = -8_334_601_228_800;

/// Last second of the range that `chrono` can represent
/// (December 31 of year 262142, 23:59:59).
pub const MAX_SECS: i64 = 8_210_266_876_799;

/// Largest magnitude of a span, in seconds (`i64::MAX` milliseconds).
pub const MAX_SPAN_SECS: i64 = 9_223_372_036_854_775;

pub const SECS_PER_MINUTE: i64 = 60;

pub const SECS_PER_HOUR: i64 = 3_600;

pub const SECS_PER_DAY: i64 = 86_400;

pub open spec fn min_total() -> int {
    MIN_SECS as int * 1_000_000_000
}

pub open spec fn max_total() -> int {
    MAX_SECS as int * 1_000_000_000 + 999_999_999
}

pub open spec fn max_span_total() -> int {
    i64::MAX as int * 1_000_000
}

/// A point in time: seconds and nanoseconds since 1970-01-01 00:00:00.
/// It stands for a UTC instant or, where a field says so, for a wall-clock
/// reading taken as if it were UTC.
#[derive(Clone, Copy, Debug, PartialEq, Eq, Structural)]
pub struct Timestamp {
    pub secs: i64,
    pub nanos: u32,
}

/// A signed length of time: `secs` seconds plus `nanos` nanoseconds.
#[derive(Clone, Copy, Debug, PartialEq, Eq, Structural)]
pub struct Span {
    pub secs: i64,
    pub nanos: u32,
}

impl Timestamp {
    /// Within the calendar range of `chrono`, and not a leap second.
    pub open spec fn wf(self) -> bool {
        MIN_SECS <= self.secs <= MAX_SECS && self.nanos < NANOS_PER_SEC
    }

    /// Nanoseconds since the epoch.
    pub open spec fn total(self) -> int {
        self.secs as int * 1_000_000_000 + self.nanos as int
    }

    /// Strictly earlier than `other`.
    pub fn is_before(&self, other: &Timestamp) -> (r: bool)
        requires
            self.wf(),
            other.wf(),
        ensures
            r == (self.total() < other.total()),
    {
        self.secs < other.secs || (self.secs == other.secs && self.nanos < other.nanos)
    }

    /// `self + d`, as `DateTime + TimeDelta` computes it.
    pub fn add_span(&self, d: Span) -> (r: Timestamp)
        requires
            self.wf(),
            d.wf(),
            min_total() <= self.total() + d.total() <= max_total(),
        ensures
            r.wf(),
            r.total() == self.total() + d.total(),
    {
        let n: u32 = self.nanos + d.nanos;
        if n >= NANOS_PER_SEC {
            Timestamp { secs: self.secs + d.secs + 1, nanos: n - NANOS_PER_SEC }
        } else {
            Timestamp { secs: self.secs + d.secs, nanos: n }
        }
    }

    /// `self - d`, as `NaiveDateTime - TimeDelta` computes it.
    pub fn sub_span(&self, d: Span) -> (r: Timestamp)
        requires
            self.wf(),
            d.wf(),
            min_total() <= self.total() - d.total() <= max_total(),
        ensures
            r.wf(),
            r.total() == self.total() - d.total(),
    {
        if self.nanos >= d.nanos {
            Timestamp { secs: self.secs - d.secs, nanos: self.nanos - d.nanos }
        } else {
            Timestamp { secs: self.secs - d.secs - 1, nanos: self.nanos + NANOS_PER_SEC - d.nanos }
        }
    }

    /// The span from `earlier` to `self` (`signed_duration_since`).
    pub fn since(&self, earlier: &Timestamp) -> (r: Span)
        requires
            self.wf(),
            earlier.wf(),
        ensures
            r.wf(),
            r.total() == self.total() - earlier.total(),
    {
        if self.nanos >= earlier.nanos {
            Span { secs: self.secs - earlier.secs, nanos: self.nanos - earlier.nanos }
        } else {
            Span {
                secs: self.secs - earlier.secs - 1,
                nanos: self.nanos + NANOS_PER_SEC - earlier.nanos,
            }
        }
    }
}

impl Span {
    /// Within the range of `chrono::TimeDelta` (at most `i64::MAX`
    /// milliseconds either way), with normalised nanoseconds.
    pub open spec fn wf(self) -> bool {
        &&& self.nanos < NANOS_PER_SEC
        &&& -max_span_total() <= self.total() <= max_span_total()
    }

    pub open spec fn total(self) -> int {
        self.secs as int * 1_000_000_000 + self.nanos as int
    }

    /// Whether `n` units of `unit` seconds make a span (`TimeDelta`
    /// constructors panic otherwise).
    pub open spec fn fits(n: int, unit: int) -> bool {
        -(MAX_SPAN_SECS as int) <= n * unit <= MAX_SPAN_SECS as int
    }

    fn of_units(n: i64, unit: i64) -> (r: Span)
        requires
            1 <= unit <= SECS_PER_DAY,
            Span::fits(n as int, unit as int),
        ensures
            r.wf(),
            r.secs == n * unit,
            r.nanos == 0,
    {
        Span { secs: n * unit, nanos: 0 }
    }

    /// `TimeDelta::minutes(n)`.
    pub fn minutes(n: i64) -> (r: Span)
        requires
            Span::fits(n as int, 60),
        ensures
            r.wf(),
            r.secs == n * 60,
            r.nanos == 0,
    {
        Span::of_units(n, SECS_PER_MINUTE)
    }

    /// `TimeDelta::hours(n)`.
    pub fn hours(n: i64) -> (r: Span)
        requires
            Span::fits(n as int, 3600),
        ensures
            r.wf(),
            r.secs == n * 3600,
            r.nanos == 0,
    {
        Span::of_units(n, SECS_PER_HOUR)
    }

    /// `TimeDelta::days(n)`.
    pub fn days(n: i64) -> (r: Span)
        requires
            Span::fits(n as int, 86400),
        ensures
            r.wf(),
            r.secs == n * 86400,
            r.nanos == 0,
    {
        Span::of_units(n, SECS_PER_DAY)
    }

    /// At least as long as `other` (signed comparison).
    pub fn is_at_least(&self, other: &Span) -> (r: bool)
        requires
            self.wf(),
            other.wf(),
        ensures
            r == (self.total() >= other.total()),
    {
        self.secs > other.secs || (self.secs == other.secs && self.nanos >= other.nanos)
    }
}

/// When `DateTime::<Utc>::from_timestamp(secs, nanos)` gives a value: the
/// day lies in `chrono`'s calendar range and the nanoseconds are below one
/// second, or below two seconds on the last second of a minute (a leap
/// second).
pub open spec fn utc_parts_valid(secs: i64, nanos: u32) -> bool {
    &&& MIN_SECS <= secs <= MAX_SECS
    &&& (nanos < 1_000_000_000 || (nanos < 2_000_000_000 && secs % 60 == 59))
}

/// `Utc.timestamp_opt(secs, nanos).single()`: claimed to give the instant
/// made of exactly these parts when `utc_parts_valid` holds, and nothing
/// otherwise.
#[verifier::external_body]
pub(crate) fn utc_from_parts(secs: i64, nanos: u32) -> (r: Option<Timestamp>)
    ensures
        r == (if utc_parts_valid(secs, nanos) {
            Some(Timestamp { secs, nanos })
        } else {
            None
        }),
{
    match Utc.timestamp_opt(secs, nanos).single() {
        Some(dt) => Some(Timestamp { secs: dt.timestamp(), nanos: dt.timestamp_subsec_nanos() }),
        None => None,
    }
}

/// `Utc::now()`: claimed only to be a valid, non-negative instant (the
/// clock is read as a duration since the epoch; `chrono` panics when the
/// system clock is set before 1970, which no clause can exclude).
#[verifier::external_body]
pub(crate) fn now_utc() -> (r: Timestamp)
    ensures
        r.wf(),
        r.secs >= 0,
{
    let now = Utc::now();
    Timestamp { secs: now.timestamp(), nanos: now.timestamp_subsec_nanos() }
}

/// The US Central wall-clock second at a given UTC second, as `chrono-tz`'s
/// tables give it.
pub uninterp spec fn central_wall_secs(utc_secs: i64) -> i64;

/// The UTC second of the earliest instant whose US Central wall clock reads
/// the given second, if there is one.
pub uninterp spec fn central_utc_secs(wall_secs: i64) -> Option<i64>;

/// `dt.with_timezone(&Central).naive_local()`: the wall-clock reading at
/// `t`, named by `central_wall_secs`. The offset is added in whole seconds,
/// so the nanoseconds stay; every offset in the US/Central table of
/// `chrono-tz` lies between -6 and -5 hours, so the reading is behind `t`
/// by less than a day.
#[verifier::external_body]
pub(crate) fn central_wall_clock(t: Timestamp) -> (r: Timestamp)
    requires
        t.wf(),
        t.secs >= MIN_SECS + SECS_PER_DAY,
    ensures
        r.secs == central_wall_secs(t.secs),
        r.nanos == t.nanos,
        t.secs - SECS_PER_DAY < r.secs <= t.secs,
{
    let local = DateTime::from_timestamp(t.secs, t.nanos).unwrap().with_timezone(&Central).naive_local();
    Timestamp { secs: local.and_utc().timestamp(), nanos: local.and_utc().timestamp_subsec_nanos() }
}

/// `Central.from_local_datetime(&naive).earliest()` converted to UTC: named
/// by `central_utc_secs`; the offset is whole seconds, so the nanoseconds
/// stay, any result is a valid instant, and its Central wall clock reads
/// the given reading again (the offset chosen is the one in force at the
/// result).
#[verifier::external_body]
pub(crate) fn central_to_utc(wall: Timestamp) -> (r: Option<Timestamp>)
    requires
        wall.wf(),
    ensures
        match r {
            Some(u) => central_utc_secs(wall.secs) == Some(u.secs) && u.nanos == wall.nanos
                && u.wf() && central_wall_secs(u.secs) == wall.secs,
            None => central_utc_secs(wall.secs) is None,
        },
{
    let naive = DateTime::from_timestamp(wall.secs, wall.nanos).unwrap().naive_utc();
    match Central.from_local_datetime(&naive).earliest() {
        Some(dt) => Some(Timestamp { secs: dt.timestamp(), nanos: dt.timestamp_subsec_nanos() }),
        None => None,
    }
}

} // verus!

verus! {

/// The layout of dates on the price API: `YYYYMMDDhhmm`, wall-clock time.
pub const DATE_FMT: &'static str = "%Y%m%d%H%M";

pub open spec fn is_leap_year(y: int) -> bool {
    y % 4 == 0 && (y % 100 != 0 || y % 400 == 0)
}

pub open spec fn month_len(y: int, mo: int) -> int {
    if mo == 2 {
        if is_leap_year(y) {
            29
        } else {
            28
        }
    } else if mo == 4 || mo == 6 || mo == 9 || mo == 11 {
        30
    } else {
        31
    }
}

/// A real date and time of day, to the minute, in the proleptic Gregorian
/// calendar.
pub open spec fn civil_valid(y: int, mo: int, d: int, h: int, mi: int) -> bool {
    &&& 1 <= mo <= 12
    &&& 1 <= d <= month_len(y, mo)
    &&& 0 <= h <= 23
    &&& 0 <= mi <= 59
}

/// Days from 1970-01-01 to the given date (proleptic Gregorian).
pub open spec fn days_from_civil(y: int, mo: int, d: int) -> int {
    let yy = if mo <= 2 {
        y - 1
    } else {
        y
    };
    let era = yy / 400;
    let yoe = yy - era * 400;
    let mp = if mo > 2 {
        mo - 3
    } else {
        mo + 9
    };
    let doy = (153 * mp + 2) / 5 + d - 1;
    let doe = yoe * 365 + yoe / 4 - yoe / 100 + doy;
    era * 146097 + doe - 719468
}

/// Seconds from 1970-01-01 00:00 to the given date and time.
pub open spec fn civil_secs(y: int, mo: int, d: int, h: int, mi: int) -> int {
    days_from_civil(y, mo, d) * 86400 + h * 3600 + mi * 60
}

/// The last `width` decimal digits of `n`, zero-padded.
pub open spec fn padded_digits(n: int, width: nat) -> Seq<char>
    decreases width,
{
    if width == 0 {
        Seq::empty()
    } else {
        padded_digits(n / 10, (width - 1) as nat).push(digit_char(n % 10))
    }
}

/// A date and time written as the API takes it: `YYYYMMDDhhmm`.
pub open spec fn api_date_text(y: int, mo: int, d: int, h: int, mi: int) -> Seq<char> {
    padded_digits(y, 4) + padded_digits(mo, 2) + padded_digits(d, 2) + padded_digits(h, 2)
        + padded_digits(mi, 2)
}

/// Twelve ASCII digits, the shape of an API date.
pub open spec fn is_api_date_shape(s: Seq<char>) -> bool {
    s.len() == 12 && all_digits(s)
}

pub open spec fn api_year(s: Seq<char>) -> int {
    decimal_value(s.subrange(0, 4))
}

pub open spec fn api_month(s: Seq<char>) -> int {
    decimal_value(s.subrange(4, 6))
}

pub open spec fn api_day(s: Seq<char>) -> int {
    decimal_value(s.subrange(6, 8))
}

pub open spec fn api_hour(s: Seq<char>) -> int {
    decimal_value(s.subrange(8, 10))
}

pub open spec fn api_minute(s: Seq<char>) -> int {
    decimal_value(s.subrange(10, 12))
}

/// The fields of an API date are a real date and time.
pub open spec fn api_date_valid(s: Seq<char>) -> bool {
    civil_valid(api_year(s), api_month(s), api_day(s), api_hour(s), api_minute(s))
}

/// Seconds since 1970-01-01 00:00 of the reading an API date names.
pub open spec fn api_date_secs(s: Seq<char>) -> int {
    civil_secs(api_year(s), api_month(s), api_day(s), api_hour(s), api_minute(s))
}

proof fn lemma_padded_digits_of_text(t: Seq<char>)
    requires
        all_digits(t),
    ensures
        padded_digits(decimal_value(t), t.len()) == t,
        0 <= decimal_value(t),
    decreases t.len(),
{
    if t.len() > 0 {
        let p = t.drop_last();
        let c = t.last();
        assert(all_digits(p));
        lemma_padded_digits_of_text(p);
        let v = decimal_value(t);
        let dv = decimal_value(p);
        let dig = (c as int) - ('0' as int);
        assert(crate::text::is_digit(t[t.len() - 1]));
        assert(0 <= dig < 10);
        assert(v == dv * 10 + dig);
        assert(v / 10 == dv && v % 10 == dig) by (nonlinear_arith)
            requires
                v == dv * 10 + dig,
                0 <= dig < 10,
                dv >= 0,
        ;
        assert(digit_char(dig) == c);
        assert(t =~= p.push(c));
    }
}

/// An API date's fields, written back, give the same text; its year has
/// four digits, and the reading it names starts its minute.
pub proof fn lemma_api_date_fields_round_trip(s: Seq<char>)
    requires
        is_api_date_shape(s),
    ensures
        api_date_text(api_year(s), api_month(s), api_day(s), api_hour(s), api_minute(s)) == s,
        0 <= api_year(s) <= 9999,
{
    let parts = seq![
        s.subrange(0, 4),
        s.subrange(4, 6),
        s.subrange(6, 8),
        s.subrange(8, 10),
        s.subrange(10, 12),
    ];
    assert forall|k: int| 0 <= k < 5 implies all_digits(#[trigger] parts[k]) by {
        assert forall|i: int| 0 <= i < parts[k].len() implies crate::text::is_digit(
            #[trigger] parts[k][i],
        ) by {
            let off = if k == 0 {
                0int
            } else {
                2 * k
                    + 2
            };
            assert(parts[k][i] == s[off + i]);
        }
    }
    lemma_padded_digits_of_text(parts[0]);
    lemma_padded_digits_of_text(parts[1]);
    lemma_padded_digits_of_text(parts[2]);
    lemma_padded_digits_of_text(parts[3]);
    lemma_padded_digits_of_text(parts[4]);
    assert(s =~= parts[0] + parts[1] + parts[2] + parts[3] + parts[4]);
    lemma_four_digits_bound(parts[0]);
}

proof fn lemma_four_digits_bound(t: Seq<char>)
    requires
        all_digits(t),
        t.len() == 4,
    ensures
        decimal_value(t) <= 9999,
{
    let t3 = t.drop_last();
    let t2 = t3.drop_last();
    let t1 = t2.drop_last();
    let t0 = t1.drop_last();
    assert(t0.len() == 0);
    assert(decimal_value(t0) == 0);
    assert(crate::text::is_digit(t[3]) && crate::text::is_digit(t[2]) && crate::text::is_digit(t[1])
        && crate::text::is_digit(t[0]));
    assert(t3[2] == t[2] && t2[1] == t[1] && t1[0] == t[0]);
    assert(decimal_value(t1) <= 9);
    assert(decimal_value(t2) <= 99);
    assert(decimal_value(t3) <= 999);
}

/// The day after a date.
pub open spec fn next_date(y: int, mo: int, d: int) -> (int, int, int) {
    if d < month_len(y, mo) {
        (y, mo, d + 1)
    } else if mo < 12 {
        (y, mo + 1, 1)
    } else {
        (y + 1, 1, 1)
    }
}

proof fn lemma_next_date(y: int, mo: int, d: int)
    requires
        civil_valid(y, mo, d, 0, 0),
    ensures
        civil_valid(next_date(y, mo, d).0, next_date(y, mo, d).1, next_date(y, mo, d).2, 0, 0),
        days_from_civil(next_date(y, mo, d).0, next_date(y, mo, d).1, next_date(y, mo, d).2)
            == days_from_civil(y, mo, d) + 1,
{
    if d < month_len(y, mo) {
    } else if mo == 2 {
        let e1 = (y - 1) / 400;
        let o1 = (y - 1) - e1 * 400;
        let e2 = y / 400;
        let o2 = y - e2 * 400;
        assert(0 <= o1 < 400 && 0 <= o2 < 400);
        assert(y == e2 * 400 + o2);
        assert(y % 4 == o2 % 4 && y % 100 == o2 % 100 && (y % 400 == 0 <==> o2 == 0)) by (nonlinear_arith)
            requires
                y == e2 * 400 + o2,
                0 <= o2 < 400,
        ;
        if o2 >= 1 {
            assert(e1 == e2) by (nonlinear_arith)
                requires
                    y - 1 == e1 * 400 + o1,
                    y == e2 * 400 + o2,
                    0 <= o1 < 400,
                    1 <= o2 < 400,
            ;
            assert(o1 == o2 - 1);
        } else {
            assert(e1 == e2 - 1) by (nonlinear_arith)
                requires
                    y - 1 == e1 * 400 + o1,
                    y == e2 * 400 + o2,
                    0 <= o1 < 400,
                    o2 == 0,
            ;
            assert(o1 == 399);
        }
    } else if mo < 12 {
        assert((153 * 1 + 2) / 5 == 31);
        assert((153 * 2 + 2) / 5 == 61);
        assert((153 * 3 + 2) / 5 == 92);
        assert((153 * 4 + 2) / 5 == 122);
        assert((153 * 5 + 2) / 5 == 153);
        assert((153 * 6 + 2) / 5 == 184);
        assert((153 * 7 + 2) / 5 == 214);
        assert((153 * 8 + 2) / 5 == 245);
        assert((153 * 9 + 2) / 5 == 275);
        assert((153 * 10 + 2) / 5 == 306);
        assert((153 * 11 + 2) / 5 == 337);
        assert((153 * 0 + 2) / 5 == 0);
    } else {
        assert((153 * 9 + 2) / 5 == 275);
        assert((153 * 10 + 2) / 5 == 306);
    }
}

pub open spec fn first_api_day() -> int {
    days_from_civil(0, 1, 1)
}

pub open spec fn last_api_day() -> int {
    days_from_civil(9999, 12, 31)
}

/// Every day from 0000-01-01 to 9999-12-31 has a date.
proof fn date_of_day(z: int) -> (r: (int, int, int))
    requires
        first_api_day() <= z <= last_api_day(),
    ensures
        0 <= r.0 <= 9999,
        civil_valid(r.0, r.1, r.2, 0, 0),
        days_from_civil(r.0, r.1, r.2) == z,
    decreases z - first_api_day(),
{
    if z == first_api_day() {
        (0, 1, 1)
    } else {
        let p = date_of_day(z - 1);
        lemma_next_date(p.0, p.1, p.2);
        let q = next_date(p.0, p.1, p.2);
        if p.0 == 9999 && p.1 == 12 && p.2 == 31 {
            assert(false);
        }
        q
    }
}

/// First second of year 0 and last second of year 9999, the readings whose
/// years the API layout writes with four digits.
pub open spec fn first_api_secs() -> int {
    first_api_day() * 86400
}

pub open spec fn last_api_secs() -> int {
    last_api_day() * 86400 + 86399
}

/// The date and time, to the minute, of a reading between years 0 and 9999.
pub proof fn minute_of(secs: int) -> (r: (int, int, int, int, int))
    requires
        first_api_secs() <= secs <= last_api_secs(),
    ensures
        0 <= r.0 <= 9999,
        civil_valid(r.0, r.1, r.2, r.3, r.4),
        civil_secs(r.0, r.1, r.2, r.3, r.4) <= secs < civil_secs(r.0, r.1, r.2, r.3, r.4) + 60,
{
    let z = secs / 86400;
    let tod = secs % 86400;
    assert(secs == z * 86400 + tod && 0 <= tod < 86400) by {
        vstd::arithmetic::div_mod::lemma_fundamental_div_mod(secs, 86400);
    }
    assert(first_api_day() <= z <= last_api_day()) by (nonlinear_arith)
        requires
            secs == z * 86400 + tod,
            0 <= tod < 86400,
            first_api_day() * 86400 <= secs <= last_api_day() * 86400 + 86399,
    ;
    let dt = date_of_day(z);
    let h = tod / 3600;
    let rest = tod % 3600;
    let mi = rest / 60;
    assert(tod == h * 3600 + rest && 0 <= rest < 3600) by {
        vstd::arithmetic::div_mod::lemma_fundamental_div_mod(tod, 3600);
    }
    assert(rest == mi * 60 + rest % 60 && 0 <= rest % 60 < 60) by {
        vstd::arithmetic::div_mod::lemma_fundamental_div_mod(rest, 60);
    }
    (dt.0, dt.1, dt.2, h, mi)
}

pub open spec fn pow10(w: nat) -> int
    decreases w,
{
    if w == 0 {
        1
    } else {
        10 * pow10((w - 1) as nat)
    }
}

proof fn lemma_padded_digits_value(n: int, w: nat)
    requires
        0 <= n < pow10(w),
    ensures
        padded_digits(n, w).len() == w,
        all_digits(padded_digits(n, w)),
        decimal_value(padded_digits(n, w)) == n,
    decreases w,
{
    if w > 0 {
        let q = n / 10;
        let r = n % 10;
        assert(n == q * 10 + r && 0 <= r < 10) by {
            vstd::arithmetic::div_mod::lemma_fundamental_div_mod(n, 10);
        }
        assert(0 <= q < pow10((w - 1) as nat)) by (nonlinear_arith)
            requires
                n == q * 10 + r,
                0 <= r < 10,
                0 <= n < 10 * pow10((w - 1) as nat),
        ;
        lemma_padded_digits_value(q, (w - 1) as nat);
        let p = padded_digits(q, (w - 1) as nat);
        assert(padded_digits(n, w) == p.push(digit_char(r)));
        assert(padded_digits(n, w).drop_last() =~= p);
        assert(crate::text::is_digit(digit_char(r)));
        assert(digit_char(r) as int - ('0' as int) == r);
    }
}

/// The API text of a date and time between years 0 and 9999 has the API's
/// shape and reads back as the same fields.
pub proof fn lemma_api_date_text_fields(y: int, mo: int, d: int, h: int, mi: int)
    requires
        0 <= y <= 9999,
        civil_valid(y, mo, d, h, mi),
    ensures
        is_api_date_shape(api_date_text(y, mo, d, h, mi)),
        api_year(api_date_text(y, mo, d, h, mi)) == y,
        api_month(api_date_text(y, mo, d, h, mi)) == mo,
        api_day(api_date_text(y, mo, d, h, mi)) == d,
        api_hour(api_date_text(y, mo, d, h, mi)) == h,
        api_minute(api_date_text(y, mo, d, h, mi)) == mi,
        api_date_valid(api_date_text(y, mo, d, h, mi)),
        api_date_secs(api_date_text(y, mo, d, h, mi)) == civil_secs(y, mo, d, h, mi),
{
    reveal_with_fuel(pow10, 5);
    assert(month_len(y, mo) <= 31);
    lemma_padded_digits_value(y, 4);
    lemma_padded_digits_value(mo, 2);
    lemma_padded_digits_value(d, 2);
    lemma_padded_digits_value(h, 2);
    lemma_padded_digits_value(mi, 2);
    let a = padded_digits(y, 4);
    let b = padded_digits(mo, 2);
    let c = padded_digits(d, 2);
    let e = padded_digits(h, 2);
    let f = padded_digits(mi, 2);
    let t = api_date_text(y, mo, d, h, mi);
    assert(t.subrange(0, 4) =~= a);
    assert(t.subrange(4, 6) =~= b);
    assert(t.subrange(6, 8) =~= c);
    assert(t.subrange(8, 10) =~= e);
    assert(t.subrange(10, 12) =~= f);
    assert(all_digits(t)) by {
        assert forall|i: int| 0 <= i < t.len() implies crate::text::is_digit(#[trigger] t[i]) by {
            if i < 4 {
                assert(t[i] == a[i]);
            } else if i < 6 {
                assert(t[i] == b[i - 4]);
            } else if i < 8 {
                assert(t[i] == c[i - 6]);
            } else if i < 10 {
                assert(t[i] == e[i - 8]);
            } else {
                assert(t[i] == f[i - 10]);
            }
        }
    }
}

/// What `NaiveDateTime::parse_from_str(text, fmt)` gives, as seconds and
/// nanoseconds of the wall-clock reading.
pub uninterp spec fn naive_parse(text: Seq<char>, fmt: Seq<char>) -> Option<(i64, u32)>;

/// What `naive.format(fmt).to_string()` writes for the reading made of
/// these seconds and nanoseconds.
pub uninterp spec fn naive_format(secs: i64, nanos: u32, fmt: Seq<char>) -> Seq<char>;

/// `NaiveDateTime::parse_from_str(text, fmt)`: named by `naive_parse`; a
/// parsed value is within `chrono`'s range, and with `DATE_FMT`, which
/// reads no seconds, it is never a leap second. On twelve digits, `%Y`,
/// `%m`, `%d`, `%H` and `%M` take four, two, two, two and two of them; the
/// result is that date and time when it exists (month 1-12, a day of that
/// month, hour 0-23, minute 0-59), and nothing otherwise.
#[verifier::external_body]
pub(crate) fn parse_wall_clock(text: &str, fmt: &str) -> (r: Option<Timestamp>)
    requires
        fmt@ == DATE_FMT@,
    ensures
        match r {
            Some(t) => naive_parse(text@, fmt@) == Some((t.secs, t.nanos)) && t.wf(),
            None => naive_parse(text@, fmt@) is None,
        },
        is_api_date_shape(text@) ==> r == (if api_date_valid(text@) {
            Some(Timestamp { secs: api_date_secs(text@) as i64, nanos: 0 })
        } else {
            None
        }),
{
    match chrono::NaiveDateTime::parse_from_str(text, fmt) {
        Ok(dt) => Some(Timestamp { secs: dt.and_utc().timestamp(), nanos: dt.and_utc().timestamp_subsec_nanos() }),
        Err(_) => None,
    }
}

/// `naive.format(fmt).to_string()`: named by `naive_format`. For a year
/// from 0 to 9999, `%Y` writes four zero-padded digits and `%m`, `%d`, `%H`,
/// `%M` two each; seconds and nanoseconds are not written.
#[verifier::external_body]
pub(crate) fn format_wall_clock(t: Timestamp, fmt: &str) -> (r: String)
    requires
        t.wf(),
        fmt@ == DATE_FMT@,
    ensures
        r@ == naive_format(t.secs, t.nanos, fmt@),
        forall|y: int, mo: int, d: int, h: int, mi: int|
            civil_valid(y, mo, d, h, mi) && 0 <= y <= 9999 && #[trigger] civil_secs(y, mo, d, h, mi)
                <= t.secs < civil_secs(y, mo, d, h, mi) + 60 ==> r@ == api_date_text(
                y,
                mo,
                d,
                h,
                mi,
            ),
{
    DateTime::from_timestamp(t.secs, t.nanos).unwrap().naive_utc().format(fmt).to_string()
}

} // verus!
