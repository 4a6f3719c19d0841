//! Command-line options: validating them into a configuration, parsing
//! bucket intervals, and writing dates the way the API reads them.

use crate::error::{CepError, CepErrorView};
use crate::text::{chars_of, parse_u64, spec_parse_u64};
use crate::time::{
    central_to_utc, central_utc_secs, central_wall_clock, central_wall_secs, format_wall_clock,
    naive_format, naive_parse, now_utc, parse_wall_clock, Span, Timestamp, DATE_FMT, MIN_SECS,
    SECS_PER_DAY, api_date_secs, api_date_text, api_date_valid, civil_secs, civil_valid,
    is_api_date_shape, lemma_api_date_fields_round_trip, first_api_secs, last_api_secs,
    minute_of, lemma_api_date_text_fields, days_from_civil,
};
use vstd::prelude::*;

verus! {

/// Which price the user asks for.
#[derive(Clone, Copy, Debug, PartialEq, Eq, Structural)]
pub enum QueryType {
    Current,
    Range,
}

/// How the answer is written.
#[derive(Clone, Copy, Debug, PartialEq, Eq, Structural)]
pub enum OutputFormat {
    Text,
    Json,
    Yaml,
    Csv,
}

/// The options as the user gave them.
#[derive(Clone, Debug)]
pub struct Config {
    pub base_url: String,
    pub query_type: String,
    pub start: Option<String>,
    pub end: Option<String>,
    pub average: String,
    pub interval: String,
    pub format: String,
}

/// The options once checked. `start_naive` and `end_naive` are US Central
/// wall-clock readings, as the API takes them; `start_utc` and `end_utc`
/// are the instants they stand for.
#[derive(Clone, Debug)]
pub struct ValidatedConfig {
    pub base_url: String,
    pub query_type: QueryType,
    pub start_naive: Timestamp,
    pub end_naive: Timestamp,
    pub start_utc: Timestamp,
    pub end_utc: Timestamp,
    pub average: bool,
    pub interval: Span,
    pub format: OutputFormat,
}

/// A `ValidatedConfig` with its text as a character sequence.
pub struct ValidatedView {
    pub base_url: Seq<char>,
    pub query_type: QueryType,
    pub start_naive: Timestamp,
    pub end_naive: Timestamp,
    pub start_utc: Timestamp,
    pub end_utc: Timestamp,
    pub average: bool,
    pub interval: Span,
    pub format: OutputFormat,
}

impl View for ValidatedConfig {
    type V = ValidatedView;

    open spec fn view(&self) -> ValidatedView {
        ValidatedView {
            base_url: self.base_url@,
            query_type: self.query_type,
            start_naive: self.start_naive,
            end_naive: self.end_naive,
            start_utc: self.start_utc,
            end_utc: self.end_utc,
            average: self.average,
            interval: self.interval,
            format: self.format,
        }
    }
}

/// The lowercase form of a text, as `str::to_lowercase` gives it (full
/// Unicode lowercasing).
pub uninterp spec fn lowercase(s: Seq<char>) -> Seq<char>;

/// ASCII lowercasing of one character: `A`-`Z` become `a`-`z`.
pub open spec fn ascii_lower(c: char) -> char {
    if 'A' <= c && c <= 'Z' {
        ((c as u32) + 32) as char
    } else {
        c
    }
}

pub open spec fn is_ascii_text(s: Seq<char>) -> bool {
    forall|i: int| 0 <= i < s.len() ==> (#[trigger] s[i] as u32) < 128
}

/// How an option's text is lowercased: character by character for ASCII
/// text, by Unicode's rules (`lowercase`) otherwise.
pub open spec fn option_lower(s: Seq<char>) -> Seq<char> {
    if is_ascii_text(s) {
        s.map_values(|c: char| ascii_lower(c))
    } else {
        lowercase(s)
    }
}

/// `str::to_lowercase`: named by `lowercase`; on ASCII text it maps `A`-`Z`
/// to `a`-`z` and keeps every other character (as std documents for ASCII).
#[verifier::external_body]
fn to_lowercase(s: &str) -> (r: String)
    ensures
        r@ == lowercase(s@),
        is_ascii_text(s@) ==> r@ == s@.map_values(|c: char| ascii_lower(c)),
{
    s.to_lowercase()
}

fn text_is(s: &String, word: &str) -> (r: bool)
    ensures
        r == (s@ == word@),
{
    let w = String::from_str(word);
    s.eq(&w)
}

pub open spec fn query_type_of(lower: Seq<char>) -> Option<QueryType> {
    if lower == "cur"@ || lower == "current"@ {
        Some(QueryType::Current)
    } else if lower == "range"@ {
        Some(QueryType::Range)
    } else {
        None
    }
}

pub open spec fn average_of(lower: Seq<char>) -> Option<bool> {
    if lower == "y"@ || lower == "yes"@ {
        Some(true)
    } else if lower == "n"@ || lower == "no"@ {
        Some(false)
    } else {
        None
    }
}

pub open spec fn format_of(lower: Seq<char>) -> Option<OutputFormat> {
    if lower == "text"@ {
        Some(OutputFormat::Text)
    } else if lower == "json"@ {
        Some(OutputFormat::Json)
    } else if lower == "yaml"@ {
        Some(OutputFormat::Yaml)
    } else if lower == "csv"@ {
        Some(OutputFormat::Csv)
    } else {
        None
    }
}

fn invalid_option(option: &str, value: String, possible: &str) -> (e: CepError)
    ensures
        e@ == (CepErrorView::InvalidOptionValue {
            option: option@,
            value: value@,
            possible: possible@,
        }),
{
    CepError::InvalidOptionValue {
        option: String::from_str(option),
        value,
        possible: String::from_str(possible),
    }
}

fn choose_query_type(s: &str) -> (r: Result<QueryType, CepError>)
    ensures
        match r {
            Ok(q) => query_type_of(option_lower(s@)) == Some(q),
            Err(e) => query_type_of(option_lower(s@)) is None && e@ == (
            CepErrorView::InvalidOptionValue {
                option: "type"@,
                value: option_lower(s@),
                possible: "current, cur, range"@,
            }),
        },
{
    let v = to_lowercase(s);
    if text_is(&v, "cur") || text_is(&v, "current") {
        Ok(QueryType::Current)
    } else if text_is(&v, "range") {
        Ok(QueryType::Range)
    } else {
        Err(invalid_option("type", v, "current, cur, range"))
    }
}

fn choose_average(s: &str) -> (r: Result<bool, CepError>)
    ensures
        match r {
            Ok(a) => average_of(option_lower(s@)) == Some(a),
            Err(e) => average_of(option_lower(s@)) is None && e@ == (
            CepErrorView::InvalidOptionValue {
                option: "average"@,
                value: option_lower(s@),
                possible: "y, n"@,
            }),
        },
{
    let v = to_lowercase(s);
    if text_is(&v, "y") || text_is(&v, "yes") {
        Ok(true)
    } else if text_is(&v, "n") || text_is(&v, "no") {
        Ok(false)
    } else {
        Err(invalid_option("average", v, "y, n"))
    }
}

fn choose_format(s: &str) -> (r: Result<OutputFormat, CepError>)
    ensures
        match r {
            Ok(f) => format_of(option_lower(s@)) == Some(f),
            Err(e) => format_of(option_lower(s@)) is None && e@ == (
            CepErrorView::InvalidOptionValue {
                option: "format"@,
                value: option_lower(s@),
                possible: "text, json, yaml, csv"@,
            }),
        },
{
    let v = to_lowercase(s);
    if text_is(&v, "text") {
        Ok(OutputFormat::Text)
    } else if text_is(&v, "json") {
        Ok(OutputFormat::Json)
    } else if text_is(&v, "yaml") {
        Ok(OutputFormat::Yaml)
    } else if text_is(&v, "csv") {
        Ok(OutputFormat::Csv)
    } else {
        Err(invalid_option("format", v, "text, json, yaml, csv"))
    }
}


/// Seconds per interval unit: minutes, hours, days; 0 for anything else.
pub open spec fn unit_secs(c: char) -> int {
    if c == 'm' {
        60
    } else if c == 'h' {
        3600
    } else if c == 'd' {
        86400
    } else {
        0
    }
}

/// Seven days, the longest interval.
pub open spec fn max_interval_secs() -> int {
    604800int
}

/// Five minutes, the shortest interval.
pub open spec fn min_interval_secs() -> int {
    300int
}

/// The length in seconds that an interval text such as `5m`, `2h` or `1d`
/// names: a count (an optional `+`, then digits) followed by a unit `m`,
/// `h` or `d`; `None` where it is refused (empty, no count, zero, unknown
/// unit, fewer than five minutes, more than seven days).
pub open spec fn spec_interval_secs(s: Seq<char>) -> Option<int> {
    if s.len() == 0 {
        None
    } else {
        let unit = s.last();
        match spec_parse_u64(s.drop_last()) {
            None => None,
            Some(n) => {
                if n == 0 || unit_secs(unit) == 0 || (unit == 'm' && n < 5) || n * unit_secs(unit)
                    > max_interval_secs() {
                    None
                } else {
                    Some(n * unit_secs(unit))
                }
            },
        }
    }
}

/// `secs` is the interval's count (the text before its last character)
/// times the length of its unit: 60 s for `m`, 3600 s for `h`, 86400 s for
/// `d`.
pub open spec fn interval_is_count_times_unit(s: Seq<char>, secs: int) -> bool {
    &&& s.len() > 0
    &&& match spec_parse_u64(s.drop_last()) {
        Some(n) => (s.last() == 'm' && secs == 60 * n) || (s.last() == 'h' && secs == 3600 * n) || (
        s.last() == 'd' && secs == 86400 * n),
        None => false,
    }
}

/// The interval's count lies in the allowed range for its unit: 5 to 10080
/// minutes, 1 to 168 hours, 1 to 7 days.
pub open spec fn interval_count_allowed(s: Seq<char>) -> bool {
    &&& s.len() > 0
    &&& match spec_parse_u64(s.drop_last()) {
        Some(n) => (s.last() == 'm' && 5 <= n <= 10080) || (s.last() == 'h' && 1 <= n <= 168) || (
        s.last() == 'd' && 1 <= n <= 7),
        None => false,
    }
}

/// An interval is accepted exactly when its count is allowed for its unit,
/// and then it lasts the count times the unit.
pub proof fn lemma_interval_law(s: Seq<char>)
    ensures
        spec_interval_secs(s) is Some <==> interval_count_allowed(s),
        spec_interval_secs(s) matches Some(secs) ==> interval_is_count_times_unit(s, secs),
{
}

/// Parses a bucket interval such as `5m`, `2h` or `1d`: at least five
/// minutes, at most seven days; anything else is an `InvalidInterval`.
pub fn parse_interval(s: &str) -> (r: Result<Span, CepError>)
    ensures
        match r {
            Ok(d) => spec_interval_secs(s@) == Some(d.secs as int) && d.nanos == 0 && d.wf(),
            Err(e) => spec_interval_secs(s@) is None && e@ == (CepErrorView::InvalidInterval {
                input: s@,
            }),
        },
        r matches Ok(d) ==> min_interval_secs() * 1_000_000_000 <= d.total()
            <= max_interval_secs() * 1_000_000_000,
        r is Ok <==> interval_count_allowed(s@),
        r matches Ok(d) ==> interval_is_count_times_unit(s@, d.secs as int),
{
    proof {
        lemma_interval_law(s@);
    }
    let cs = chars_of(s);
    let len = cs.len();
    if len == 0 {
        return Err(CepError::InvalidInterval { input: String::from_str(s) });
    }
    let unit = cs[len - 1];
    let digits = s.substring_char(0, len - 1);
    assert(digits@ =~= s@.drop_last());
    let n = match parse_u64(digits) {
        Some(n) => n,
        None => {
            return Err(CepError::InvalidInterval { input: String::from_str(s) });
        },
    };
    if n == 0 {
        return Err(CepError::InvalidInterval { input: String::from_str(s) });
    }
    let duration = if unit == 'm' {
        if n < 5 || n > 10080 {
            return Err(CepError::InvalidInterval { input: String::from_str(s) });
        }
        Span::minutes(n as i64)
    } else if unit == 'h' {
        if n > 168 {
            return Err(CepError::InvalidInterval { input: String::from_str(s) });
        }
        Span::hours(n as i64)
    } else if unit == 'd' {
        if n > 7 {
            return Err(CepError::InvalidInterval { input: String::from_str(s) });
        }
        Span::days(n as i64)
    } else {
        return Err(CepError::InvalidInterval { input: String::from_str(s) });
    };
    Ok(duration)
}

/// A text without the `/` characters at its end.
pub open spec fn trim_end_slashes(s: Seq<char>) -> Seq<char>
    decreases s.len(),
{
    if s.len() > 0 && s.last() == '/' {
        trim_end_slashes(s.drop_last())
    } else {
        s
    }
}

/// `s.trim_end_matches('/')`.
fn trim_trailing_slashes(s: &str) -> (r: String)
    ensures
        r@ == trim_end_slashes(s@),
{
    let cs = chars_of(s);
    let mut k = cs.len();
    assert(s@.take(k as int) =~= s@);
    while k > 0 && cs[k - 1] == '/'
        invariant
            k <= cs.len(),
            cs@ == s@,
            trim_end_slashes(s@) == trim_end_slashes(s@.take(k as int)),
        decreases k,
    {
        assert(s@.take(k as int).drop_last() =~= s@.take(k - 1));
        k = k - 1;
    }
    let kept = s.substring_char(0, k);
    assert(kept@ =~= s@.take(k as int));
    String::from_str(kept)
}

/// Writes a wall-clock reading the way the API takes dates
/// (`YYYYMMDDhhmm`).
pub fn format_api_date(dt: Timestamp) -> (r: String)
    requires
        dt.wf(),
    ensures
        r@ == naive_format(dt.secs, dt.nanos, DATE_FMT@),
        forall|y: int, mo: int, d: int, h: int, mi: int|
            civil_valid(y, mo, d, h, mi) && 0 <= y <= 9999 && #[trigger] civil_secs(y, mo, d, h, mi)
                <= dt.secs < civil_secs(y, mo, d, h, mi) + 60 ==> r@ == api_date_text(
                y,
                mo,
                d,
                h,
                mi,
            ),
        forall|s: Seq<char>|
            is_api_date_shape(s) && api_date_valid(s) && dt.secs == #[trigger] api_date_secs(s)
                ==> r@ == s,
        first_api_secs() <= dt.secs <= last_api_secs() ==> is_api_date_shape(r@) && api_date_valid(
            r@,
        ) && api_date_secs(r@) <= dt.secs < api_date_secs(r@) + 60,
        first_api_secs() <= dt.secs <= last_api_secs() && dt.secs % 60 == 0 ==> api_date_secs(r@)
            == dt.secs,
{
    let r = format_wall_clock(dt, DATE_FMT);
    proof {
        if first_api_secs() <= dt.secs <= last_api_secs() {
            let m = minute_of(dt.secs as int);
            lemma_api_date_text_fields(m.0, m.1, m.2, m.3, m.4);
            assert(r@ == api_date_text(m.0, m.1, m.2, m.3, m.4));
            let c = civil_secs(m.0, m.1, m.2, m.3, m.4);
            let k = days_from_civil(m.0, m.1, m.2) * 1440 + m.3 * 60 + m.4;
            assert(c == k * 60);
            if dt.secs % 60 == 0 {
                assert(dt.secs == c) by (nonlinear_arith)
                    requires
                        c == k * 60,
                        c <= dt.secs < c + 60,
                        dt.secs % 60 == 0,
                ;
            }
        }
    }
    assert forall|s: Seq<char>|
        is_api_date_shape(s) && api_date_valid(s) && dt.secs == #[trigger] api_date_secs(s)
            implies r@ == s by {
        lemma_api_date_fields_round_trip(s);
    }
    r
}

/// The US Central wall-clock reading at the instant `now`.
pub open spec fn wall_clock_at(now: Timestamp) -> Timestamp {
    Timestamp { secs: central_wall_secs(now.secs), nanos: now.nanos }
}

/// The reading one day earlier.
pub open spec fn day_before(t: Timestamp) -> Timestamp {
    Timestamp { secs: (t.secs - 86400) as i64, nanos: t.nanos }
}

/// The reading a date option stands for: the parsed date when one is
/// given (`None` if it does not parse), else the default.
pub open spec fn given_wall_clock(given: Option<String>, default: Timestamp) -> Option<Timestamp> {
    match given {
        None => Some(default),
        Some(text) => match naive_parse(text@, DATE_FMT@) {
            Some(p) => Some(Timestamp { secs: p.0, nanos: p.1 }),
            None => None,
        },
    }
}

/// The instant of a Central wall-clock reading (the earliest, where the
/// reading occurs twice), or `fallback` where the reading never occurs.
pub open spec fn utc_of_wall(w: Timestamp, fallback: Timestamp) -> Timestamp {
    match central_utc_secs(w.secs) {
        Some(u) => Timestamp { secs: u, nanos: w.nanos },
        None => fallback,
    }
}

/// Whether every check before the interval's passes.
pub open spec fn reaches_interval(cfg: Config, now: Timestamp) -> bool {
    let wall = wall_clock_at(now);
    &&& query_type_of(option_lower(cfg.query_type@)) is Some
    &&& average_of(option_lower(cfg.average@)) is Some
    &&& format_of(option_lower(cfg.format@)) is Some
    &&& given_wall_clock(cfg.start, day_before(wall)) matches Some(st)
    &&& given_wall_clock(cfg.end, wall) matches Some(en)
    &&& st.total() < en.total()
}

/// What validating the options gives, when the clock reads `now` and,
/// where a date has no UTC instant, reads `fallback`. The checks run in
/// this order: type, average, format, start, end, their order, interval.
pub open spec fn spec_validate(cfg: Config, now: Timestamp, fallback: Timestamp) -> Result<
    ValidatedView,
    CepErrorView,
> {
    let wall = wall_clock_at(now);
    let qt = option_lower(cfg.query_type@);
    let av = option_lower(cfg.average@);
    let fm = option_lower(cfg.format@);
    if query_type_of(qt) is None {
        Err(
            CepErrorView::InvalidOptionValue {
                option: "type"@,
                value: qt,
                possible: "current, cur, range"@,
            },
        )
    } else if average_of(av) is None {
        Err(CepErrorView::InvalidOptionValue { option: "average"@, value: av, possible: "y, n"@ })
    } else if format_of(fm) is None {
        Err(
            CepErrorView::InvalidOptionValue {
                option: "format"@,
                value: fm,
                possible: "text, json, yaml, csv"@,
            },
        )
    } else {
        match given_wall_clock(cfg.start, day_before(wall)) {
            None => Err(CepErrorView::InvalidDateFormat { input: cfg.start->0@ }),
            Some(st) => match given_wall_clock(cfg.end, wall) {
                None => Err(CepErrorView::InvalidDateFormat { input: cfg.end->0@ }),
                Some(en) => {
                    if st.total() >= en.total() {
                        Err(CepErrorView::StartNotBeforeEnd)
                    } else {
                        match spec_interval_secs(cfg.interval@) {
                            None => Err(CepErrorView::InvalidInterval { input: cfg.interval@ }),
                            Some(secs) => Ok(
                                ValidatedView {
                                    base_url: trim_end_slashes(cfg.base_url@),
                                    query_type: query_type_of(qt)->0,
                                    start_naive: st,
                                    end_naive: en,
                                    start_utc: utc_of_wall(st, fallback),
                                    end_utc: utc_of_wall(en, fallback),
                                    average: average_of(av)->0,
                                    interval: Span { secs: secs as i64, nanos: 0 },
                                    format: format_of(fm)->0,
                                },
                            ),
                        }
                    }
                },
            },
        }
    }
}

fn wall_clock_or(given: &Option<String>, default: Timestamp) -> (r: Result<Timestamp, CepError>)
    requires
        default.wf(),
    ensures
        match r {
            Ok(t) => given_wall_clock(*given, default) == Some(t) && t.wf(),
            Err(e) => given_wall_clock(*given, default) is None && e@ == (
            CepErrorView::InvalidDateFormat { input: given->0@ }),
        },
        given matches Some(text) ==> (is_api_date_shape(text@) ==> (r is Ok <==> api_date_valid(
            text@,
        ))),
        given matches Some(text) ==> (is_api_date_shape(text@) ==> (r matches Ok(t) ==> t == (
        Timestamp { secs: api_date_secs(text@) as i64, nanos: 0 }))),
{
    match given {
        None => Ok(default),
        Some(text) => match parse_wall_clock(text.as_str(), DATE_FMT) {
            Some(t) => Ok(t),
            None => Err(CepError::InvalidDateFormat { input: text.clone() }),
        },
    }
}

fn utc_or(wall: Timestamp, fallback: Timestamp) -> (r: Timestamp)
    requires
        wall.wf(),
        fallback.wf(),
    ensures
        r == utc_of_wall(wall, fallback),
        r.wf(),
        central_utc_secs(wall.secs) is Some ==> central_wall_secs(r.secs) == wall.secs,
{
    match central_to_utc(wall) {
        Some(u) => u,
        None => fallback,
    }
}

/// The type, average and format options are accepted.
pub open spec fn options_accepted(cfg: Config) -> bool {
    &&& query_type_of(option_lower(cfg.query_type@)) is Some
    &&& average_of(option_lower(cfg.average@)) is Some
    &&& format_of(option_lower(cfg.format@)) is Some
}

/// A date option that is either absent or a valid twelve-digit API date.
pub open spec fn date_option_fine(given: Option<String>) -> bool {
    given matches Some(t) ==> (is_api_date_shape(t@) && api_date_valid(t@))
}

/// Every option that does not depend on the clock is accepted: type,
/// average, format and interval.
pub open spec fn choices_accepted(cfg: Config) -> bool {
    &&& query_type_of(option_lower(cfg.query_type@)) is Some
    &&& average_of(option_lower(cfg.average@)) is Some
    &&& format_of(option_lower(cfg.format@)) is Some
    &&& spec_interval_secs(cfg.interval@) is Some
}

/// A validation outcome as views.
pub open spec fn result_view(r: Result<ValidatedConfig, CepError>) -> Result<
    ValidatedView,
    CepErrorView,
> {
    match r {
        Ok(v) => Ok(v@),
        Err(e) => Err(e@),
    }
}

/// The option words mean what they say, whatever their case: `cur` and
/// `current` ask for the current price and `range` for a range; `y`/`yes`
/// ask for an average and `n`/`no` for buckets; `text`, `json`, `yaml` and
/// `csv` name their formats. An option is refused, with its own error,
/// exactly when its word is none of these and the options before it were
/// accepted.
pub open spec fn option_words_respected(cfg: Config, r: Result<ValidatedView, CepErrorView>) -> bool {
    let t = option_lower(cfg.query_type@);
    let a = option_lower(cfg.average@);
    let f = option_lower(cfg.format@);
    let type_ok = t == "cur"@ || t == "current"@ || t == "range"@;
    let average_ok = a == "y"@ || a == "yes"@ || a == "n"@ || a == "no"@;
    let format_ok = f == "text"@ || f == "json"@ || f == "yaml"@ || f == "csv"@;
    &&& (r == Err::<ValidatedView, CepErrorView>(
        CepErrorView::InvalidOptionValue {
            option: "type"@,
            value: t,
            possible: "current, cur, range"@,
        },
    )) <==> !type_ok
    &&& (r == Err::<ValidatedView, CepErrorView>(
        CepErrorView::InvalidOptionValue { option: "average"@, value: a, possible: "y, n"@ },
    )) <==> (type_ok && !average_ok)
    &&& (r == Err::<ValidatedView, CepErrorView>(
        CepErrorView::InvalidOptionValue {
            option: "format"@,
            value: f,
            possible: "text, json, yaml, csv"@,
        },
    )) <==> (type_ok && average_ok && !format_ok)
    &&& r matches Ok(v) ==> {
        &&& (v.query_type == QueryType::Current <==> (t == "cur"@ || t == "current"@))
        &&& (v.query_type == QueryType::Range <==> t == "range"@)
        &&& (v.average <==> (a == "y"@ || a == "yes"@))
        &&& (!v.average <==> (a == "n"@ || a == "no"@))
        &&& (v.format == OutputFormat::Text <==> f == "text"@)
        &&& (v.format == OutputFormat::Json <==> f == "json"@)
        &&& (v.format == OutputFormat::Yaml <==> f == "yaml"@)
        &&& (v.format == OutputFormat::Csv <==> f == "csv"@)
    }
}

/// Validation follows the meaning of the option words.
pub proof fn lemma_option_words(cfg: Config, now: Timestamp, fallback: Timestamp)
    ensures
        option_words_respected(cfg, spec_validate(cfg, now, fallback)),
{
    reveal_strlit("cur");
    reveal_strlit("current");
    reveal_strlit("range");
    reveal_strlit("y");
    reveal_strlit("yes");
    reveal_strlit("n");
    reveal_strlit("no");
    reveal_strlit("text");
    reveal_strlit("json");
    reveal_strlit("yaml");
    reveal_strlit("csv");
    reveal_strlit("type");
    reveal_strlit("average");
    reveal_strlit("format");
    let t = option_lower(cfg.query_type@);
    let a = option_lower(cfg.average@);
    let f = option_lower(cfg.format@);
    assert("cur"@.len() == 3 && "current"@.len() == 7 && "range"@.len() == 5);
    assert("y"@.len() == 1 && "yes"@.len() == 3 && "n"@.len() == 1 && "no"@.len() == 2);
    assert("y"@[0] != "n"@[0]);
    assert("text"@.len() == 4 && "json"@.len() == 4 && "yaml"@.len() == 4 && "csv"@.len() == 3);
    assert("text"@[0] != "json"@[0] && "text"@[0] != "yaml"@[0] && "json"@[0] != "yaml"@[0]);
    assert("type"@.len() == 4 && "average"@.len() == 7 && "format"@.len() == 6);
    assert("cur"@ != "current"@ && "cur"@ != "range"@ && "current"@ != "range"@);
    assert("y"@ != "yes"@ && "y"@ != "n"@ && "y"@ != "no"@ && "yes"@ != "n"@ && "yes"@ != "no"@ && "n"@ != "no"@);
    assert("text"@ != "json"@ && "text"@ != "yaml"@ && "text"@ != "csv"@ && "json"@ != "yaml"@ && "json"@ != "csv"@ && "yaml"@ != "csv"@);
    assert("type"@ != "average"@ && "type"@ != "format"@ && "average"@ != "format"@);
    assert(query_type_of(t) is Some <==> (t == "cur"@ || t == "current"@ || t == "range"@));
    assert(average_of(a) is Some <==> (a == "y"@ || a == "yes"@ || a == "n"@ || a == "no"@));
    assert(format_of(f) is Some <==> (f == "text"@ || f == "json"@ || f == "yaml"@ || f == "csv"@));
}

/// With no dates given, the range is the last 24 hours up to the Central
/// wall clock at `now`.
pub open spec fn default_range_respected(cfg: Config, now: Timestamp, r: Result<
    ValidatedView,
    CepErrorView,
>) -> bool {
    &&& cfg.end is None ==> (r matches Ok(v) ==> v.end_naive.secs == central_wall_secs(now.secs)
        && v.end_naive.nanos == now.nanos)
    &&& cfg.start is None ==> (r matches Ok(v) ==> v.start_naive.secs == central_wall_secs(now.secs)
        - 86400 && v.start_naive.nanos == now.nanos)
}

impl Config {
    /// Checks the options, with the clock reading `now` and, where a date
    /// has no UTC instant (it falls in a daylight-saving gap), `fallback`.
    pub fn validate_at(&self, now: Timestamp, fallback: Timestamp) -> (res: Result<
        ValidatedConfig,
        CepError,
    >)
        requires
            now.wf(),
            now.secs >= 0,
            fallback.wf(),
        ensures
            match res {
                Ok(v) => spec_validate(*self, now, fallback) == Ok::<ValidatedView, CepErrorView>(
                    v@,
                ),
                Err(e) => spec_validate(*self, now, fallback) == Err::<ValidatedView, CepErrorView>(
                    e@,
                ),
            },
            res matches Ok(v) ==> v.start_naive.total() < v.end_naive.total(),
            res matches Ok(v) ==> !(v.base_url@.len() > 0 && v.base_url@.last() == '/'),
            res matches Ok(v) ==> spec_interval_secs(self.interval@) == Some(v.interval.secs as int)
                && v.interval.nanos == 0,
            reaches_interval(*self, now) ==> (res is Ok <==> spec_interval_secs(self.interval@) is Some),
            self.start is None && self.end is None && choices_accepted(*self) ==> res is Ok,
            res is Ok ==> (self.start matches Some(t) ==> (is_api_date_shape(t@) ==> api_date_valid(t@))),
            res is Ok ==> (self.end matches Some(t) ==> (is_api_date_shape(t@) ==> api_date_valid(t@))),
            self.start matches Some(t) ==> (options_accepted(*self) && is_api_date_shape(t@)
                && !api_date_valid(t@) ==> (res matches Err(e) && e@ == (
            CepErrorView::InvalidDateFormat { input: t@ }))),
            self.end matches Some(t) ==> (options_accepted(*self) && date_option_fine(self.start)
                && is_api_date_shape(t@) && !api_date_valid(t@) ==> (res matches Err(e) && e@ == (
            CepErrorView::InvalidDateFormat { input: t@ }))),
            (res is Ok || res matches Err(CepError::InvalidDateFormat { .. }) || res matches Err(
                CepError::StartNotBeforeEnd,
            ) || res matches Err(CepError::InvalidInterval { .. })) ==> now.secs - 86400
                < central_wall_secs(now.secs) <= now.secs,
            res matches Ok(v) ==> (self.start matches Some(t) ==> (is_api_date_shape(t@) ==> v.start_naive
                == (Timestamp { secs: api_date_secs(t@) as i64, nanos: 0 }))),
            res matches Ok(v) ==> (self.end matches Some(t) ==> (is_api_date_shape(t@) ==> v.end_naive
                == (Timestamp { secs: api_date_secs(t@) as i64, nanos: 0 }))),
            res matches Ok(v) ==> (central_utc_secs(v.start_naive.secs) is Some ==> central_wall_secs(
                v.start_utc.secs,
            ) == v.start_naive.secs),
            res matches Ok(v) ==> (central_utc_secs(v.end_naive.secs) is Some ==> central_wall_secs(
                v.end_utc.secs,
            ) == v.end_naive.secs),
            option_words_respected(*self, result_view(res)),
            default_range_respected(*self, now, result_view(res)),
    {
        proof {
            lemma_option_words(*self, now, fallback);
        }
        let query_type = match choose_query_type(self.query_type.as_str()) {
            Ok(q) => q,
            Err(e) => return Err(e),
        };
        let average = match choose_average(self.average.as_str()) {
            Ok(a) => a,
            Err(e) => return Err(e),
        };
        let format = match choose_format(self.format.as_str()) {
            Ok(f) => f,
            Err(e) => return Err(e),
        };
        assert(now.secs >= MIN_SECS + SECS_PER_DAY);
        let wall = central_wall_clock(now);
        let earlier = wall.sub_span(Span::hours(24));
        assert(earlier == day_before(wall));
        let start_naive = match wall_clock_or(&self.start, earlier) {
            Ok(t) => t,
            Err(e) => return Err(e),
        };
        let end_naive = match wall_clock_or(&self.end, wall) {
            Ok(t) => t,
            Err(e) => return Err(e),
        };
        if !start_naive.is_before(&end_naive) {
            return Err(CepError::StartNotBeforeEnd);
        }
        let start_utc = utc_or(start_naive, fallback);
        let end_utc = utc_or(end_naive, fallback);
        let interval = match parse_interval(self.interval.as_str()) {
            Ok(d) => d,
            Err(e) => return Err(e),
        };
        let base_url = trim_trailing_slashes(self.base_url.as_str());
        proof {
            lemma_trim_end_slashes(self.base_url@);
        }
        Ok(
            ValidatedConfig {
                base_url,
                query_type,
                start_naive,
                end_naive,
                start_utc,
                end_utc,
                average,
                interval,
                format,
            },
        )
    }

    /// Checks the options against the current time, read once from the
    /// clock; a date with no UTC instant (a daylight-saving gap) falls back
    /// to that same reading.
    pub fn validate(&self) -> (res: Result<ValidatedConfig, CepError>)
        ensures
            exists|now: Timestamp, fallback: Timestamp|
                {
                    &&& now.wf()
                    &&& now.secs >= 0
                    &&& fallback.wf()
                    &&& fallback.secs >= 0
                    &&& fallback == now
                    &&& default_range_respected(*self, now, result_view(res))
                    &&& (res is Ok || res matches Err(CepError::InvalidDateFormat { .. })
                        || res matches Err(CepError::StartNotBeforeEnd) || res matches Err(
                        CepError::InvalidInterval { .. },
                    )) ==> now.secs - 86400 < central_wall_secs(now.secs) <= now.secs
                    &&& match res {
                        Ok(v) => spec_validate(*self, now, fallback) == Ok::<
                            ValidatedView,
                            CepErrorView,
                        >(v@),
                        Err(e) => spec_validate(*self, now, fallback) == Err::<
                            ValidatedView,
                            CepErrorView,
                        >(e@),
                    }
                },
            res matches Ok(v) ==> v.start_naive.total() < v.end_naive.total(),
            res matches Ok(v) ==> !(v.base_url@.len() > 0 && v.base_url@.last() == '/'),
            res matches Ok(v) ==> spec_interval_secs(self.interval@) == Some(v.interval.secs as int)
                && v.interval.nanos == 0,
            (forall|t: Timestamp| #[trigger] reaches_interval(*self, t)) ==> (res is Ok
                <==> spec_interval_secs(self.interval@) is Some),
            self.start is None && self.end is None && choices_accepted(*self) ==> res is Ok,
            res is Ok ==> (self.start matches Some(t) ==> (is_api_date_shape(t@) ==> api_date_valid(t@))),
            res is Ok ==> (self.end matches Some(t) ==> (is_api_date_shape(t@) ==> api_date_valid(t@))),
            self.start matches Some(t) ==> (options_accepted(*self) && is_api_date_shape(t@)
                && !api_date_valid(t@) ==> (res matches Err(e) && e@ == (
            CepErrorView::InvalidDateFormat { input: t@ }))),
            self.end matches Some(t) ==> (options_accepted(*self) && date_option_fine(self.start)
                && is_api_date_shape(t@) && !api_date_valid(t@) ==> (res matches Err(e) && e@ == (
            CepErrorView::InvalidDateFormat { input: t@ }))),
            res matches Ok(v) ==> (self.start matches Some(t) ==> (is_api_date_shape(t@) ==> v.start_naive
                == (Timestamp { secs: api_date_secs(t@) as i64, nanos: 0 }))),
            res matches Ok(v) ==> (self.end matches Some(t) ==> (is_api_date_shape(t@) ==> v.end_naive
                == (Timestamp { secs: api_date_secs(t@) as i64, nanos: 0 }))),
            option_words_respected(*self, result_view(res)),
            self.start is None && self.end is None ==> (res matches Ok(v) ==> v.start_naive.total()
                == v.end_naive.total() - 86400 * 1_000_000_000),
    {
        let now = now_utc();
        let fallback = now;
        let res = self.validate_at(now, fallback);
        assert(reaches_interval(*self, now) ==> (res is Ok <==> spec_interval_secs(self.interval@) is Some));
        res
    }
}

proof fn lemma_trim_end_slashes(s: Seq<char>)
    ensures
        !(trim_end_slashes(s).len() > 0 && trim_end_slashes(s).last() == '/'),
    decreases s.len(),
{
    if s.len() > 0 && s.last() == '/' {
        lemma_trim_end_slashes(s.drop_last());
    }
}

} // verus!
