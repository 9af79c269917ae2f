//! Time series of cluster use from Prometheus: the queries sent for them, the time range they
//! cover, and the series made of the answer, one per group, a point for every step.
use vstd::prelude::*;
use std::collections::HashMap;
use chrono::Datelike;
use crate::text::{chars_of, concat, parse_nat, parse_unsigned, string_of};
use crate::tres_map::NameMap;

verus! {

/// What the series are grouped by.
#[derive(Debug, Clone, Copy, PartialEq, Eq)]
pub enum Grouping {
    Account,
    Nodes,
    GpuType,
}

/// The label Prometheus knows a grouping by.
pub open spec fn grouping_text(g: Grouping) -> Seq<char> {
    match g {
        Grouping::Account => "account"@,
        Grouping::Nodes => "nodes"@,
        Grouping::GpuType => "gputype"@,
    }
}

impl Grouping {
    /// The label Prometheus knows this grouping by.
    pub fn label(&self) -> (s: String)
        ensures
            s@ == grouping_text(*self),
    {
        let t = match self {
            Grouping::Account => chars_of("account"),
            Grouping::Nodes => chars_of("nodes"),
            Grouping::GpuType => chars_of("gputype"),
        };
        string_of(&t)
    }
}

/// The resource a series counts.
#[derive(Debug, Clone, Copy, PartialEq, Eq)]
pub enum Resource {
    Cpus,
    Bytes,
    Gpus,
}

pub open spec fn resource_text(r: Resource) -> Seq<char> {
    match r {
        Resource::Cpus => "cpus"@,
        Resource::Bytes => "bytes"@,
        Resource::Gpus => "gpus"@,
    }
}

impl Resource {
    /// The name the metrics give this resource.
    pub fn label(&self) -> (s: String)
        ensures
            s@ == resource_text(*self),
    {
        let t = match self {
            Resource::Cpus => chars_of("cpus"),
            Resource::Bytes => chars_of("bytes"),
            Resource::Gpus => chars_of("gpus"),
        };
        string_of(&t)
    }
}

/// The step between the points of a series.
#[derive(Clone, Copy, Debug, PartialEq, Eq)]
pub enum PrometheusTimeScale {
    Minutes,
    Hours,
    Days,
    Weeks,
    Years,
}

impl Default for PrometheusTimeScale {
    fn default() -> (s: PrometheusTimeScale)
        ensures
            s == PrometheusTimeScale::Days,
    {
        PrometheusTimeScale::Days
    }
}

/// How Prometheus writes a step.
pub open spec fn scale_text(s: PrometheusTimeScale) -> Seq<char> {
    match s {
        PrometheusTimeScale::Minutes => "1m"@,
        PrometheusTimeScale::Hours => "1h"@,
        PrometheusTimeScale::Days => "1d"@,
        PrometheusTimeScale::Weeks => "1w"@,
        PrometheusTimeScale::Years => "1y"@,
    }
}

/// The next longer step, the shortest following the longest.
pub open spec fn scale_next(s: PrometheusTimeScale) -> PrometheusTimeScale {
    match s {
        PrometheusTimeScale::Minutes => PrometheusTimeScale::Hours,
        PrometheusTimeScale::Hours => PrometheusTimeScale::Days,
        PrometheusTimeScale::Days => PrometheusTimeScale::Weeks,
        PrometheusTimeScale::Weeks => PrometheusTimeScale::Years,
        PrometheusTimeScale::Years => PrometheusTimeScale::Minutes,
    }
}

/// The next shorter step, the longest following the shortest.
pub open spec fn scale_prev(s: PrometheusTimeScale) -> PrometheusTimeScale {
    match s {
        PrometheusTimeScale::Minutes => PrometheusTimeScale::Years,
        PrometheusTimeScale::Hours => PrometheusTimeScale::Minutes,
        PrometheusTimeScale::Days => PrometheusTimeScale::Hours,
        PrometheusTimeScale::Weeks => PrometheusTimeScale::Days,
        PrometheusTimeScale::Years => PrometheusTimeScale::Weeks,
    }
}

impl PrometheusTimeScale {
    /// How Prometheus writes this step.
    pub fn label(&self) -> (s: String)
        ensures
            s@ == scale_text(*self),
    {
        let t = match self {
            PrometheusTimeScale::Minutes => chars_of("1m"),
            PrometheusTimeScale::Hours => chars_of("1h"),
            PrometheusTimeScale::Days => chars_of("1d"),
            PrometheusTimeScale::Weeks => chars_of("1w"),
            PrometheusTimeScale::Years => chars_of("1y"),
        };
        string_of(&t)
    }

    /// The next longer step, wrapping round to the shortest.
    pub fn next(&self) -> (s: PrometheusTimeScale)
        ensures
            s == scale_next(*self),
    {
        match self {
            PrometheusTimeScale::Minutes => PrometheusTimeScale::Hours,
            PrometheusTimeScale::Hours => PrometheusTimeScale::Days,
            PrometheusTimeScale::Days => PrometheusTimeScale::Weeks,
            PrometheusTimeScale::Weeks => PrometheusTimeScale::Years,
            PrometheusTimeScale::Years => PrometheusTimeScale::Minutes,
        }
    }

    /// The next shorter step, wrapping round to the longest.
    pub fn prev(&self) -> (s: PrometheusTimeScale)
        ensures
            s == scale_prev(*self),
    {
        match self {
            PrometheusTimeScale::Minutes => PrometheusTimeScale::Years,
            PrometheusTimeScale::Hours => PrometheusTimeScale::Minutes,
            PrometheusTimeScale::Days => PrometheusTimeScale::Hours,
            PrometheusTimeScale::Weeks => PrometheusTimeScale::Days,
            PrometheusTimeScale::Years => PrometheusTimeScale::Weeks,
        }
    }
}

/// Stepping back undoes stepping forward, and stepping forward undoes stepping back.
pub proof fn lemma_scale_next_prev(s: PrometheusTimeScale)
    ensures
        scale_prev(scale_next(s)) == s,
        scale_next(scale_prev(s)) == s,
{
}

/// Stepping forward five times comes back to where it started: every step is reached.
pub proof fn lemma_scale_cycle(s: PrometheusTimeScale)
    ensures
        scale_next(scale_next(scale_next(scale_next(scale_next(s))))) == s,
        scale_next(s) != s,
{
}

/// The query for what running jobs use, summed per group.
pub open spec fn usage_query_text(g: Grouping, r: Resource) -> Seq<char> {
    "sum by("@ + grouping_text(g) + ") (slurm_job_"@ + resource_text(r) + "{state=\"running\",job=\"slurm\"})"@
}

/// The query for what the nodes that are neither drained nor down hold, summed per group or
/// over all of them.
pub open spec fn capacity_query_text(g: Option<Grouping>, r: Resource) -> Seq<char> {
    let by_clause = match g {
        Some(g) => "by("@ + grouping_text(g) + ")"@,
        None => Seq::empty(),
    };
    "sum "@ + by_clause + " (slurm_node_"@ + resource_text(r) + "{state!=\"drain\",state!=\"down\"})"@
}

/// The query for what running jobs use of `resource`, summed per group.
pub fn usage_query(grouping: Grouping, resource: Resource) -> (q: String)
    ensures
        q@ == usage_query_text(grouping, resource),
{
    let g = chars_of(grouping.label().as_str());
    let r = chars_of(resource.label().as_str());
    let a = concat(&chars_of("sum by("), &g);
    let b = concat(&a, &chars_of(") (slurm_job_"));
    let c = concat(&b, &r);
    let d = concat(&c, &chars_of("{state=\"running\",job=\"slurm\"})"));
    string_of(&d)
}

/// The query for what the available nodes hold of `resource`, summed per group or, without
/// a grouping, over all of them.
pub fn capacity_query(grouping: Option<Grouping>, resource: Resource) -> (q: String)
    ensures
        q@ == capacity_query_text(grouping, resource),
{
    let by_clause = match grouping {
        Some(g) => {
            let gl = chars_of(g.label().as_str());
            let a = concat(&chars_of("by("), &gl);
            concat(&a, &chars_of(")"))
        },
        None => Vec::new(),
    };
    let r = chars_of(resource.label().as_str());
    let a = concat(&chars_of("sum "), &by_clause);
    let b = concat(&a, &chars_of(" (slurm_node_"));
    let c = concat(&b, &r);
    let d = concat(&c, &chars_of("{state!=\"drain\",state!=\"down\"})"));
    assert(by_clause@ == match grouping {
        Some(g) => "by("@ + grouping_text(g) + ")"@,
        None => Seq::<char>::empty(),
    });
    string_of(&d)
}

/// The seconds a step spans; a year is taken as 365 days.
pub open spec fn step_secs(s: PrometheusTimeScale) -> i64 {
    match s {
        PrometheusTimeScale::Minutes => 60,
        PrometheusTimeScale::Hours => 3600,
        PrometheusTimeScale::Days => 86400,
        PrometheusTimeScale::Weeks => 604800,
        PrometheusTimeScale::Years => 31536000,
    }
}

/// The seconds a step spans (see `step_secs`).
pub fn step_seconds(step: PrometheusTimeScale) -> (n: i64)
    ensures
        n == step_secs(step),
{
    match step {
        PrometheusTimeScale::Minutes => 60,
        PrometheusTimeScale::Hours => 3600,
        PrometheusTimeScale::Days => 86400,
        PrometheusTimeScale::Weeks => 86400 * 7,
        PrometheusTimeScale::Years => 86400 * 365,
    }
}

/// Whether the timestamp `t` lies between the start of year 1 and the end of year 9999,
/// UTC: well inside the range of dates `chrono` represents.
pub open spec fn in_calendar(t: int) -> bool {
    -62_135_596_800 <= t <= 253_402_300_799
}

/// What `chrono` gives for the time `secs` seconds before the timestamp `now`, in seconds
/// since the epoch; nothing where that time, or the span, is out of its range.
pub uninterp spec fn seconds_before_of(now: i64, secs: i64) -> Option<i64>;

/// `DateTime::checked_sub_signed` on the UTC time `now`, taking away `TimeDelta::try_seconds
/// (secs)`. Stated: the result is `seconds_before_of(now, secs)`, and where there is one it
/// lies `secs` seconds before `now`, as the documentation says; between years 1 and 9999
/// there always is one. Not stated: the exact bounds of chrono's range.
#[verifier::external_body]
fn seconds_before(now: i64, secs: i64) -> (r: Option<i64>)
    ensures
        r == seconds_before_of(now, secs),
        r matches Some(t) ==> t == now - secs,
        in_calendar(now as int) && in_calendar(now - secs) ==> r == Some((now - secs) as i64),
{
    let t = chrono::DateTime::from_timestamp(now, 0)?;
    let d = chrono::TimeDelta::try_seconds(secs)?;
    t.checked_sub_signed(d).map(|x| x.timestamp())
}

/// What `chrono` gives for the UTC time `days` days before the timestamp `now`; nothing
/// where that is out of its range.
pub uninterp spec fn days_before_of(now: i64, days: u64) -> Option<i64>;

/// `DateTime::checked_sub_days` on the UTC time `now`. Stated: the result is
/// `days_before_of(now, days)`, and where there is one it is `days` whole days of 86400
/// seconds before `now`, a UTC day having no daylight-saving shift; between years 1 and
/// 9999 there always is one. Not stated: the exact bounds of chrono's range.
#[verifier::external_body]
fn days_before(now: i64, days: u64) -> (r: Option<i64>)
    ensures
        r == days_before_of(now, days),
        r matches Some(t) ==> t == now - 86400 * days,
        in_calendar(now as int) && in_calendar(now - 86400 * days) ==> r == Some((now - 86400 * days) as i64),
{
    let t = chrono::DateTime::from_timestamp(now, 0)?;
    t.checked_sub_days(chrono::Days::new(days)).map(|x| x.timestamp())
}

/// The calendar year of the UTC time `now`, where `chrono` can represent it.
pub uninterp spec fn year_of_ts(now: i64) -> Option<i32>;

/// `Datelike::year` of the UTC time `now`. Stated: the result is `year_of_ts(now)`, and
/// between years 1 and 9999 there is one, a year in that span. Not stated: the calendar
/// arithmetic that gives it.
#[verifier::external_body]
fn year_of(now: i64) -> (r: Option<i32>)
    ensures
        r == year_of_ts(now),
        in_calendar(now as int) ==> r is Some && 1 <= r->0 <= 9999,
{
    chrono::DateTime::from_timestamp(now, 0).map(|t| t.year())
}

/// The UTC time `now` moved into the year `year`, keeping its month, day and time of day,
/// where that date exists and is in range.
pub uninterp spec fn with_year_of(now: i64, year: i32) -> Option<i64>;

/// `Datelike::with_year` on the UTC time `now`. Stated: the result is `with_year_of(now,
/// year)`, and moving a time into its own year leaves it as it is. Not stated: the calendar
/// arithmetic, nor when the date does not exist (29 February in a year that is not a leap
/// year).
#[verifier::external_body]
fn with_year(now: i64, year: i32) -> (r: Option<i64>)
    ensures
        r == with_year_of(now, year),
        year_of_ts(now) == Some(year) ==> r == Some(now),
{
    let t = chrono::DateTime::from_timestamp(now, 0)?;
    t.with_year(year).map(|x| x.timestamp())
}

/// The start of a range of `increments` steps ending at `now`: so many minutes, hours, days
/// or weeks before it, or the same date so many years before. Nothing where the step count
/// does not fit the arithmetic or `chrono` has no such time; there the range cannot be made.
pub open spec fn range_start(now: i64, increments: i64, step: PrometheusTimeScale) -> Option<i64> {
    match step {
        PrometheusTimeScale::Minutes => if i64::MIN <= increments * 60 <= i64::MAX {
            seconds_before_of(now, (increments * 60) as i64)
        } else {
            None
        },
        PrometheusTimeScale::Hours => if i64::MIN <= increments * 3600 <= i64::MAX {
            seconds_before_of(now, (increments * 3600) as i64)
        } else {
            None
        },
        PrometheusTimeScale::Days => days_before_of(now, increments as u64),
        PrometheusTimeScale::Weeks => if (increments as u64) * 7 <= u64::MAX {
            days_before_of(now, ((increments as u64) * 7) as u64)
        } else {
            None
        },
        PrometheusTimeScale::Years => match year_of_ts(now) {
            Some(y) => if i32::MIN <= y - (increments as i32) <= i32::MAX {
                with_year_of(now, (y - (increments as i32)) as i32)
            } else {
                None
            },
            None => None,
        },
    }
}

/// The time range a query covers.
#[derive(Debug, Clone, Copy, PartialEq, Eq)]
pub struct TimeRange {
    /// The end of the range, the time it was made, in seconds since the epoch
    pub now: i64,
    /// Its start (see `range_start`); none where it cannot be made
    pub start_time: Option<i64>,
}

/// The range of `increments` steps of `step` that ends at `now` (see `range_start`).
pub fn get_time_range(now: i64, increments: i64, step: PrometheusTimeScale) -> (r: TimeRange)
    ensures
        r.now == now,
        r.start_time == range_start(now, increments, step),
        step != PrometheusTimeScale::Years && 0 <= increments && in_calendar(now as int) && in_calendar(
            now - increments * step_secs(step),
        ) ==> r.start_time == Some((now - increments * step_secs(step)) as i64),
        step == PrometheusTimeScale::Years && increments == 0 && in_calendar(now as int)
            ==> r.start_time == Some(now),
{
    proof {
        assert(86400 * (increments * 7) == increments * 604800) by (nonlinear_arith);
        assert(86400 * increments == increments * 86400) by (nonlinear_arith);
    }
    let start_time = match step {
        PrometheusTimeScale::Minutes => match increments.checked_mul(60) {
            Some(secs) => seconds_before(now, secs),
            None => None,
        },
        PrometheusTimeScale::Hours => match increments.checked_mul(3600) {
            Some(secs) => seconds_before(now, secs),
            None => None,
        },
        PrometheusTimeScale::Days => days_before(now, increments as u64),
        PrometheusTimeScale::Weeks => match (increments as u64).checked_mul(7) {
            Some(days) => days_before(now, days),
            None => None,
        },
        PrometheusTimeScale::Years => match year_of(now) {
            Some(y) => match y.checked_sub(increments as i32) {
                Some(target) => with_year(now, target),
                None => None,
            },
            None => None,
        },
    };
    TimeRange { now, start_time }
}

/// Whether a series of `increments + 1` points, `step` apart from `start`, ends at a time
/// that a timestamp can hold.
pub open spec fn series_fits(start: i64, increments: i64, step: PrometheusTimeScale) -> bool {
    increments >= -1 && start + (increments + 1) * step_secs(step) <= i64::MAX
}

/// The start of the series of `increments` steps of `step` that ends at `now`: the start of
/// its range (see `get_time_range`), where there is one and the series' points, one step
/// apart from it, all fall at times a timestamp can hold; none otherwise.
pub fn series_start(now: i64, increments: i64, step: PrometheusTimeScale) -> (r: Option<i64>)
    ensures
        r == match range_start(now, increments, step) {
            Some(s) => if series_fits(s, increments, step) {
                Some(s)
            } else {
                None
            },
            None => None,
        },
{
    let range = get_time_range(now, increments, step);
    match range.start_time {
        None => None,
        Some(s) => {
            if increments < -1 {
                return None;
            }
            let secs = step_seconds(step);
            let points: i128 = increments as i128 + 1;
            assert(0 <= points * (secs as int) <= 0x8000_0000_0000_0000 * 31_536_000) by (nonlinear_arith)
                requires
                    0 <= points <= 0x8000_0000_0000_0000,
                    0 < secs <= 31_536_000,
            ;
            let span: i128 = points * (secs as i128);
            if (s as i128) + span <= i64::MAX as i128 {
                Some(s)
            } else {
                None
            }
        },
    }
}

/// One series of a Prometheus answer: its labels, and its point (an instant query) or its
/// points (a range query), each a timestamp and a value as Prometheus writes it.
#[derive(Debug)]
pub struct PrometheusResult {
    pub metric: NameMap<String>,
    pub value: Option<(i64, String)>,
    pub values: Option<Vec<(i64, String)>>,
}

/// The group a series belongs to: the value of its label `key`; "Total" where it has no
/// labels at all, as a sum over everything has not; none where it has others only.
pub open spec fn group_key(s: PrometheusResult, key: Seq<char>) -> Option<Seq<char>> {
    if s.metric@.contains_key(key) {
        Some(s.metric@[key]@)
    } else if s.metric@.dom().len() == 0 {
        Some("Total"@)
    } else {
        None
    }
}

/// Whether series `s` gives points to group `g`.
pub open spec fn feeds(s: PrometheusResult, key: Seq<char>, g: Seq<char>) -> bool {
    group_key(s, key) == Some(g) && s.values is Some
}

/// The points whose values are whole numbers, as `str::parse::<u64>` reads them; the others
/// are passed over.
pub open spec fn parsed_points(vs: Seq<(i64, String)>) -> Seq<(i64, u64)>
    decreases vs.len(),
{
    if vs.len() == 0 {
        Seq::empty()
    } else {
        let init = parsed_points(vs.drop_last());
        match parse_nat(vs.last().1@, u64::MAX as nat) {
            Some(v) => init.push((vs.last().0, v as u64)),
            None => init,
        }
    }
}

/// The points of group `g`, series by series in order.
pub open spec fn group_points(ss: Seq<PrometheusResult>, key: Seq<char>, g: Seq<char>) -> Seq<(i64, u64)>
    decreases ss.len(),
{
    if ss.len() == 0 {
        Seq::empty()
    } else {
        let init = group_points(ss.drop_last(), key, g);
        if feeds(ss.last(), key, g) {
            init + parsed_points(ss.last().values->0@)
        } else {
            init
        }
    }
}

/// The value at each timestamp: the last point given for it.
pub open spec fn points_map(pts: Seq<(i64, u64)>) -> Map<i64, u64>
    decreases pts.len(),
{
    if pts.len() == 0 {
        Map::empty()
    } else {
        points_map(pts.drop_last()).insert(pts.last().0, pts.last().1)
    }
}

/// The value at time `t`, zero where there is none.
pub open spec fn value_or_zero(m: Map<i64, u64>, t: int) -> u64 {
    if i64::MIN <= t <= i64::MAX && m.contains_key(t as i64) {
        m[t as i64]
    } else {
        0
    }
}

/// `n` points a step `step` apart from time `t` on: the value at each, or zero.
pub open spec fn fill_values(m: Map<i64, u64>, t: int, step: int, n: nat) -> Seq<u64>
    decreases n,
{
    if n == 0 {
        Seq::empty()
    } else {
        seq![value_or_zero(m, t)] + fill_values(m, t + step, step, (n - 1) as nat)
    }
}

/// The series of group `g`: `increments + 1` points from `start` on, a step apart.
pub open spec fn group_series(
    ss: Seq<PrometheusResult>,
    key: Seq<char>,
    g: Seq<char>,
    start: i64,
    step: PrometheusTimeScale,
    increments: i64,
) -> Seq<u64> {
    fill_values(points_map(group_points(ss, key, g)), start as int, step_secs(step) as int, (increments + 1) as nat)
}

/// Whether the series of `ss` give group `g` any points.
pub open spec fn has_group(ss: Seq<PrometheusResult>, key: Seq<char>, g: Seq<char>) -> bool {
    exists|j: int| 0 <= j < ss.len() && #[trigger] feeds(ss[j], key, g)
}

/// The group a series belongs to (see `group_key`).
fn series_key(s: &PrometheusResult, key: &str) -> (r: Option<String>)
    requires
        s.metric.wf(),
    ensures
        match r {
            Some(k) => group_key(*s, key@) == Some(k@),
            None => group_key(*s, key@) is None,
        },
{
    match s.metric.get_ref(key) {
        Some(v) => Some(string_of(&chars_of(v.as_str()))),
        None => if s.metric.is_empty() {
            Some(string_of(&chars_of("Total")))
        } else {
            None
        },
    }
}

/// The values at each timestamp that the series give group `g` (see `points_map`).
fn collect_points(result: &[PrometheusResult], key: &str, g: &str) -> (m: HashMap<i64, u64>)
    requires
        forall|i: int| 0 <= i < result@.len() ==> (#[trigger] result@[i]).metric.wf(),
    ensures
        m@ == points_map(group_points(result@, key@, g@)),
{
    broadcast use vstd::std_specs::hash::group_hash_axioms;
    let ghost ss = result@;
    let mut m: HashMap<i64, u64> = HashMap::new();
    let mut j: usize = 0;
    while j < result.len()
        invariant
            j <= ss.len(),
            ss == result@,
            forall|i: int| 0 <= i < ss.len() ==> (#[trigger] ss[i]).metric.wf(),
            m@ == points_map(group_points(ss.take(j as int), key@, g@)),
        decreases ss.len() - j,
    {
        assert(ss.take(j + 1).drop_last() =~= ss.take(j as int));
        assert(ss.take(j + 1).last() == ss[j as int]);
        let ghost before = group_points(ss.take(j as int), key@, g@);
        let k = series_key(&result[j], key);
        let same = match &k {
            Some(k) => crate::jobs::text_eq(k, &string_of(&chars_of(g))),
            None => false,
        };
        match &result[j].values {
            Some(vs) => {
                if same {
                    let mut q: usize = 0;
                    while q < vs.len()
                        invariant
                            q <= vs@.len(),
                            m@ == points_map(before + parsed_points(vs@.take(q as int))),
                        decreases vs@.len() - q,
                    {
                        assert(vs@.take(q + 1).drop_last() =~= vs@.take(q as int));
                        assert(vs@.take(q + 1).last() == vs@[q as int]);
                        let (ts, text) = &vs[q];
                        match parse_unsigned(&chars_of(text.as_str()), u64::MAX) {
                            Some(v) => {
                                let ghost pts = before + parsed_points(vs@.take(q as int));
                                assert(before + parsed_points(vs@.take(q + 1)) =~= pts.push((*ts, v)));
                                assert(pts.push((*ts, v)).drop_last() =~= pts);
                                m.insert(*ts, v);
                            },
                            None => {},
                        }
                        q = q + 1;
                    }
                    assert(vs@.take(q as int) =~= vs@);
                } else {
                    assert(!feeds(ss[j as int], key@, g@));
                }
            },
            None => {},
        }
        proof {
            if feeds(ss[j as int], key@, g@) {
                assert(group_points(ss.take(j + 1), key@, g@) == before + parsed_points(ss[j as int].values->0@));
            } else {
                assert(group_points(ss.take(j + 1), key@, g@) == before);
                if ss[j as int].values is None {
                    assert(before + parsed_points(Seq::empty()) =~= before);
                }
            }
        }
        j = j + 1;
    }
    assert(ss.take(j as int) =~= ss);
    m
}

/// `n` points a step apart from `start` on, from the values `m` holds (see `fill_values`).
fn fill_series(m: &HashMap<i64, u64>, start: i64, step: i64, n: u64) -> (out: Vec<u64>)
    requires
        step > 0,
        start + n * step <= i64::MAX,
    ensures
        out@ == fill_values(m@, start as int, step as int, n as nat),
{
    broadcast use vstd::std_specs::hash::group_hash_axioms;
    let mut out: Vec<u64> = Vec::new();
    let mut t: i64 = start;
    let mut k: u64 = 0;
    while k < n
        invariant
            k <= n,
            step > 0,
            start + n * step <= i64::MAX,
            t == start + k * step,
            out@ + fill_values(m@, t as int, step as int, (n - k) as nat) == fill_values(m@, start as int, step as int, n as nat),
        decreases n - k,
    {
        assert(start + (k + 1) * step <= start + n * step) by (nonlinear_arith)
            requires
                k < n,
                step > 0,
        ;
        assert(start + (k + 1) * step == t + step) by (nonlinear_arith)
            requires
                t == start + k * step,
        ;
        let v = match m.get(&t) {
            Some(v) => *v,
            None => 0,
        };
        assert(v == value_or_zero(m@, t as int));
        let ghost rest = fill_values(m@, t + step, step as int, (n - k - 1) as nat);
        assert(fill_values(m@, t as int, step as int, (n - k) as nat) == seq![v] + rest);
        assert(out@.push(v) + rest =~= out@ + (seq![v] + rest));
        out.push(v);
        t = t + step;
        k = k + 1;
    }
    assert(out@ + fill_values(m@, t as int, step as int, 0) =~= out@);
    out
}

/// The series of each group in `result` (see `group_key`), `increments + 1` points from
/// `start_time` on, a step apart, each the value the series give at that time or zero; a
/// group whose series have no points at all is left out.
pub fn range_group_by(
    result: &[PrometheusResult],
    metric: Grouping,
    start_time: i64,
    step: PrometheusTimeScale,
    increments: i64,
) -> (out: NameMap<Vec<u64>>)
    requires
        increments >= -1,
        start_time + (increments + 1) * step_secs(step) <= i64::MAX,
        forall|i: int| 0 <= i < result@.len() ==> (#[trigger] result@[i]).metric.wf(),
    ensures
        out.wf(),
        forall|g: Seq<char>| #[trigger] out@.contains_key(g) <==> has_group(result@, grouping_text(metric), g),
        forall|g: Seq<char>|
            #[trigger] out@.contains_key(g) ==> out@[g]@ == group_series(
                result@,
                grouping_text(metric),
                g,
                start_time,
                step,
                increments,
            ),
{
    let ghost ss = result@;
    let ghost key = grouping_text(metric);
    let label = metric.label();
    let step_len = step_seconds(step);
    let n: u64 = (increments + 1) as u64;
    let mut out: NameMap<Vec<u64>> = NameMap::new();
    let mut i: usize = 0;
    while i < result.len()
        invariant
            i <= ss.len(),
            ss == result@,
            label@ == key,
            step_len == step_secs(step),
            n == increments + 1,
            start_time + n * step_len <= i64::MAX,
            forall|j: int| 0 <= j < ss.len() ==> (#[trigger] ss[j]).metric.wf(),
            out.wf(),
            forall|g: Seq<char>|
                #[trigger] out@.contains_key(g) <==> exists|j: int| 0 <= j < i && #[trigger] feeds(ss[j], key, g),
            forall|g: Seq<char>|
                #[trigger] out@.contains_key(g) ==> out@[g]@ == group_series(ss, key, g, start_time, step, increments),
        decreases ss.len() - i,
    {
        let k = series_key(&result[i], label.as_str());
        match k {
            Some(k) => {
                if result[i].values.is_some() {
                    let pts = collect_points(result, label.as_str(), k.as_str());
                    let series = fill_series(&pts, start_time, step_len, n);
                    assert(feeds(ss[i as int], key, k@));
                    let ghost before = out@;
                    out.insert(k, series);
                    assert forall|g: Seq<char>| #[trigger] out@.contains_key(g) <==> exists|j: int|
                        0 <= j < i + 1 && #[trigger] feeds(ss[j], key, g) by {
                        if out@.contains_key(g) && g != k@ {
                            assert(before.contains_key(g));
                        }
                        if exists|j: int| 0 <= j < i + 1 && #[trigger] feeds(ss[j], key, g) {
                            let j = choose|j: int| 0 <= j < i + 1 && #[trigger] feeds(ss[j], key, g);
                            if j < i {
                                assert(before.contains_key(g));
                            } else {
                                assert(g == k@);
                            }
                        }
                    }
                } else {
                    assert forall|g: Seq<char>| #[trigger] out@.contains_key(g) <==> exists|j: int|
                        0 <= j < i + 1 && #[trigger] feeds(ss[j], key, g) by {
                        if exists|j: int| 0 <= j < i + 1 && #[trigger] feeds(ss[j], key, g) {
                            let j = choose|j: int| 0 <= j < i + 1 && #[trigger] feeds(ss[j], key, g);
                            assert(j != i);
                        }
                    }
                }
            },
            None => {
                assert forall|g: Seq<char>| #[trigger] out@.contains_key(g) <==> exists|j: int|
                    0 <= j < i + 1 && #[trigger] feeds(ss[j], key, g) by {
                    if exists|j: int| 0 <= j < i + 1 && #[trigger] feeds(ss[j], key, g) {
                        let j = choose|j: int| 0 <= j < i + 1 && #[trigger] feeds(ss[j], key, g);
                        assert(j != i);
                    }
                }
            },
        }
        i = i + 1;
    }
    out
}

/// What the running jobs used of a resource per group over a range, from the answer to
/// `usage_query` for that range (see `range_group_by`).
pub fn get_usage_by(
    grouping: Grouping,
    result: &[PrometheusResult],
    start_time: i64,
    step: PrometheusTimeScale,
    increments: i64,
) -> (out: NameMap<Vec<u64>>)
    requires
        increments >= -1,
        start_time + (increments + 1) * step_secs(step) <= i64::MAX,
        forall|i: int| 0 <= i < result@.len() ==> (#[trigger] result@[i]).metric.wf(),
    ensures
        out.wf(),
        forall|g: Seq<char>| #[trigger] out@.contains_key(g) <==> has_group(result@, grouping_text(grouping), g),
        forall|g: Seq<char>|
            #[trigger] out@.contains_key(g) ==> out@[g]@ == group_series(
                result@,
                grouping_text(grouping),
                g,
                start_time,
                step,
                increments,
            ),
{
    range_group_by(result, grouping, start_time, step, increments)
}

/// The value of an instant answer without grouping: the first series' value where it is a
/// whole number, and zero otherwise.
pub open spec fn total_of(result: Seq<PrometheusResult>) -> u64 {
    if result.len() > 0 {
        match result[0].value {
            Some(v) => match parse_nat(v.1@, u64::MAX as nat) {
                Some(n) => n as u64,
                None => 0,
            },
            None => 0,
        }
    } else {
        0
    }
}

/// What the available nodes hold of a resource over a range, from the answer to
/// `capacity_query`: per group as `range_group_by` gives it, or without a grouping the
/// single series "total" of one point (see `total_of`).
pub fn get_max_resource(
    grouping: Option<Grouping>,
    result: &[PrometheusResult],
    start_time: i64,
    step: PrometheusTimeScale,
    increments: i64,
) -> (out: NameMap<Vec<u64>>)
    requires
        grouping is Some ==> increments >= -1,
        grouping is Some ==> start_time + (increments + 1) * step_secs(step) <= i64::MAX,
        forall|i: int| 0 <= i < result@.len() ==> (#[trigger] result@[i]).metric.wf(),
    ensures
        out.wf(),
        match grouping {
            Some(g) => {
                &&& forall|k: Seq<char>| #[trigger] out@.contains_key(k) <==> has_group(result@, grouping_text(g), k)
                &&& forall|k: Seq<char>|
                    #[trigger] out@.contains_key(k) ==> out@[k]@ == group_series(
                        result@,
                        grouping_text(g),
                        k,
                        start_time,
                        step,
                        increments,
                    )
            },
            None => {
                &&& out@.dom() == set!["total"@]
                &&& out@["total"@]@ == seq![total_of(result@)]
            },
        },
{
    match grouping {
        Some(g) => range_group_by(result, g, start_time, step, increments),
        None => {
            let mut total: u64 = 0;
            if result.len() > 0 {
                match &result[0].value {
                    Some((_, text)) => {
                        match parse_unsigned(&chars_of(text.as_str()), u64::MAX) {
                            Some(n) => total = n,
                            None => {},
                        }
                    },
                    None => {},
                }
            }
            let mut map: NameMap<Vec<u64>> = NameMap::new();
            let mut v: Vec<u64> = Vec::new();
            v.push(total);
            map.insert(string_of(&chars_of("total")), v);
            assert(map@.dom() =~= set!["total"@]);
            map
        },
    }
}

/// The value of each group at an instant, series by series in order: a series with the label
/// `key` and a whole-number value sets its group's value, a later one replacing an earlier;
/// the other series are passed over.
pub open spec fn instant_groups(ss: Seq<PrometheusResult>, key: Seq<char>) -> Map<Seq<char>, u64>
    decreases ss.len(),
{
    if ss.len() == 0 {
        Map::empty()
    } else {
        let m = instant_groups(ss.drop_last(), key);
        let s = ss.last();
        if s.metric@.contains_key(key) {
            match s.value {
                Some(v) => match parse_nat(v.1@, u64::MAX as nat) {
                    Some(n) => m.insert(s.metric@[key]@, n as u64),
                    None => m,
                },
                None => m,
            }
        } else {
            m
        }
    }
}

/// The value of each group in the answer to an instant query (see `instant_groups`).
pub fn group_by(result: &[PrometheusResult], metric: Grouping) -> (out: NameMap<u64>)
    requires
        forall|i: int| 0 <= i < result@.len() ==> (#[trigger] result@[i]).metric.wf(),
    ensures
        out.wf(),
        out@ == instant_groups(result@, grouping_text(metric)),
{
    let ghost ss = result@;
    let ghost key = grouping_text(metric);
    let label = metric.label();
    let mut out: NameMap<u64> = NameMap::new();
    let mut i: usize = 0;
    while i < result.len()
        invariant
            i <= ss.len(),
            ss == result@,
            label@ == key,
            forall|j: int| 0 <= j < ss.len() ==> (#[trigger] ss[j]).metric.wf(),
            out.wf(),
            out@ == instant_groups(ss.take(i as int), key),
        decreases ss.len() - i,
    {
        assert(ss.take(i + 1).drop_last() =~= ss.take(i as int));
        assert(ss.take(i + 1).last() == ss[i as int]);
        let s = &result[i];
        assert(s.metric.wf());
        match s.metric.get_ref(label.as_str()) {
            Some(g) => {
                match &s.value {
                    Some((_, text)) => {
                        match parse_unsigned(&chars_of(text.as_str()), u64::MAX) {
                            Some(n) => out.insert(string_of(&chars_of(g.as_str())), n),
                            None => {},
                        }
                    },
                    None => {},
                }
            },
            None => {},
        }
        i = i + 1;
    }
    assert(ss.take(i as int) =~= ss);
    out
}

} // verus!
