//! Statistics over completed sessions.

use crate::arith;
use crate::arith::trunc_div;
use crate::calendar;
use crate::calendar::{date_string, utc_now, DAY, MAX_TIME};
use crate::db;
use crate::db::{Database, Status, StoredRecord};
use crate::order;
use crate::order::sort_keys;
use crate::pattern;
use crate::pattern::{exceeds_limit, occurs_like};
use crate::text;
use crate::text::{nat_text, padded_text, same_text};
use crate::words;
use crate::words::join_first;
use crate::zone;
use crate::zone::{local_date_start, Tz};
use vstd::prelude::*;
use vstd::std_specs::hash::*;

pub use crate::zone::{resolve_tz, ts_to_utc};

verus! {

broadcast use {
    vstd::std_specs::hash::group_hash_axioms,
};

/// A share: `value` of `total`. In percent it is `value * 100 / total`, and 0 where `total` is 0.
#[derive(Debug, Clone, Copy, PartialEq, Eq, Structural)]
pub struct Ratio {
    pub value: i64,
    pub total: i64,
}

/// Figures over all sessions.
#[derive(Debug)]
pub struct TotalStats {
    pub total_days: i64,
    pub active_days: i64,
    pub total_seconds: i64,
    pub total_times: i64,
    pub mean_usage: i64,
    pub total_ratio: Ratio,
    pub total_day_ratio: Ratio,
    pub from_date: String,
    pub total_duration_hr: String,
    pub total_seconds_hr: String,
    pub mean_usage_hr: String,
}

/// Figures over a period that ends today.
#[derive(Debug)]
pub struct PastNStat {
    pub name: String,
    pub seconds: i64,
    pub ratio: Ratio,
    pub times: i64,
    pub day_ratio: Ratio,
    pub days: i64,
    pub mean_usage: i64,
}

/// The time between sessions.
#[derive(Debug)]
pub struct IntervalStats {
    pub current_interval: i64,
    pub current_interval_hr: String,
    pub max_interval: i64,
    pub max_interval_hr: String,
    pub mean_interval: i64,
    pub mean_interval_hr: String,
}

/// The summary of a set of sessions.
#[derive(Debug)]
pub struct Stats {
    pub total: TotalStats,
    pub past_n: Vec<PastNStat>,
    pub interval: IntervalStats,
}

/// Why statistics could not be computed.
#[derive(Debug, Clone, Copy, PartialEq, Eq, Structural)]
pub enum StatsError {
    /// A sum or a difference of times does not fit in 64 bits.
    Overflow,
    /// A record's stored command words cannot be read, or there are none.
    NoWords,
    /// A record was held against a command pattern with too many bytes.
    PatternTooLong,
}

// ---------------------------------------------------------------------------------------------
// Durations in words
// ---------------------------------------------------------------------------------------------

/// The parts of a positive duration: days, hours, minutes and seconds, each but the seconds left
/// out where it and what follows it would be zero.
pub open spec fn duration_parts(seconds: int) -> Seq<Seq<char>> {
    let d = seconds / 86400;
    let h = seconds % 86400 / 3600;
    let m = seconds % 3600 / 60;
    let s = seconds % 60;
    let days = if d > 0 {
        seq![text::dec_nat(d as nat) + " d"@]
    } else {
        Seq::empty()
    };
    let hours = if h > 0 || (d > 0 && (m > 0 || s > 0)) {
        seq![text::padded(h as nat, 2) + " h"@]
    } else {
        Seq::empty()
    };
    let minutes = if m > 0 || (h > 0 && s > 0) || (d > 0 && s > 0) {
        seq![text::padded(m as nat, 2) + " m"@]
    } else {
        Seq::empty()
    };
    days + hours + minutes + seq![text::padded(s as nat, 2) + " s"@]
}

/// A duration in words, such as `1 d 02 h 03 m 04 s`.
pub open spec fn duration_text(seconds: int) -> Seq<char> {
    if seconds <= 0 {
        "0 s"@
    } else {
        words::join(duration_parts(seconds), " "@)
    }
}

/// A duration in words.
pub fn human_readable_time(seconds: i64) -> (r: String)
    ensures
        r@ == duration_text(seconds as int),
{
    if seconds <= 0 {
        return "0 s".to_owned();
    }
    let d: i64 = seconds / 86400;
    let h: i64 = seconds % 86400 / 3600;
    let m: i64 = seconds % 3600 / 60;
    let s: i64 = seconds % 60;
    let mut parts: Vec<String> = Vec::new();
    let ghost mut said = Seq::<Seq<char>>::empty();
    assert(text::texts(parts@) =~= said);
    if d > 0 {
        let mut part = nat_text(d as u64);
        part.append(" d");
        let ghost p = part@;
        parts.push(part);
        proof {
            said = said.push(p);
            assert(text::texts(parts@) =~= said);
        }
    }
    if h > 0 || (d > 0 && (m > 0 || s > 0)) {
        let mut part = padded_text(h as u64, 2);
        part.append(" h");
        let ghost p = part@;
        parts.push(part);
        proof {
            said = said.push(p);
            assert(text::texts(parts@) =~= said);
        }
    }
    if m > 0 || (h > 0 && s > 0) || (d > 0 && s > 0) {
        let mut part = padded_text(m as u64, 2);
        part.append(" m");
        let ghost p = part@;
        parts.push(part);
        proof {
            said = said.push(p);
            assert(text::texts(parts@) =~= said);
        }
    }
    let mut part = padded_text(s as u64, 2);
    part.append(" s");
    let ghost p = part@;
    parts.push(part);
    proof {
        said = said.push(p);
        assert(text::texts(parts@) =~= said);
        assert(said =~= duration_parts(seconds as int));
        assert(said.take(said.len() as int) =~= said);
    }
    join_first(&parts, parts.len(), " ")
}

// ---------------------------------------------------------------------------------------------
// Rows
// ---------------------------------------------------------------------------------------------

/// When a session started and how long it took.
#[derive(Debug, Clone, Copy, PartialEq, Eq, Structural)]
pub struct Row {
    pub start: i64,
    pub seconds: i64,
}

/// What is asked of a record's duration.
#[derive(Debug, Clone, Copy, PartialEq, Eq, Structural)]
pub enum Need {
    Nothing,
    Known,
    Positive,
}

/// The completed sessions of a client with an alias and a command pattern. An empty filter lets
/// every record pass, and so does the client `__global__`.
pub open spec fn wants(
    client: Seq<char>,
    alias: Seq<char>,
    command: Seq<char>,
    need: Need,
) -> spec_fn(db::RecordView) -> bool {
    |r: db::RecordView|
        {
            &&& r.status == Status::Completed
            &&& need == Need::Known ==> r.duration_seconds is Some
            &&& need == Need::Positive ==> r.duration_seconds is Some && r.duration_seconds->0 > 0
            &&& db::names_client(client) ==> r.client_id == client
            &&& alias.len() > 0 ==> r.alias == Some(alias)
            &&& db::passes_like(r.command, command)
        }
}

/// Start and duration of a record; an unknown duration counts as none.
pub open spec fn row_of(r: db::RecordView) -> Row {
    Row {
        start: r.start_time,
        seconds: match r.duration_seconds {
            Some(d) => d,
            None => 0,
        },
    }
}

/// Start and duration of a list of records.
pub open spec fn rows_of(s: Seq<db::RecordView>) -> Seq<Row> {
    s.map_values(|r: db::RecordView| row_of(r))
}

/// The rows of the wanted records, in the order of their ids.
pub open spec fn wanted_rows(
    records: Seq<db::RecordView>,
    client: Seq<char>,
    alias: Seq<char>,
    command: Seq<char>,
    need: Need,
) -> Seq<Row> {
    rows_of(order::kept(records, wants(client, alias, command, need)))
}

/// Whether the command pattern has too many bytes and a record is held against it: one that passes
/// all other filters.
pub open spec fn refused(
    records: Seq<db::RecordView>,
    client: Seq<char>,
    alias: Seq<char>,
    command: Seq<char>,
    need: Need,
) -> bool {
    pattern::too_long(command) && wanted_rows(records, client, alias, ""@, need).len() > 0
}

/// The start times of rows.
pub open spec fn row_starts(rows: Seq<Row>) -> Seq<i64> {
    rows.map_values(|r: Row| r.start)
}

/// The rows in the order of their start.
pub open spec fn by_start(rows: Seq<Row>) -> Seq<Row> {
    order::sorted(rows, row_starts(rows), false)
}

fn row_wanted(
    row: &StoredRecord,
    one_client: bool,
    client: &str,
    alias: &str,
    command: &str,
    need: Need,
) -> (r: bool)
    requires
        one_client == db::names_client(client@),
    ensures
        r == wants(client@, alias@, command@, need)(row@),
{
    if row.status != Status::Completed {
        return false;
    }
    let long_enough: bool = match need {
        Need::Nothing => true,
        Need::Known => row.duration_seconds.is_some(),
        Need::Positive => match row.duration_seconds {
            Some(d) => d > 0,
            None => false,
        },
    };
    if !long_enough {
        return false;
    }
    if one_client && !same_text(row.client_id.as_str(), client) {
        return false;
    }
    if !alias.is_empty() {
        let same: bool = match &row.alias {
            Some(a) => same_text(a.as_str(), alias),
            None => false,
        };
        if !same {
            return false;
        }
    }
    if command.is_empty() {
        true
    } else {
        match &row.command {
            Some(c) => occurs_like(c.as_str(), command),
            None => false,
        }
    }
}

/// The wanted rows; an error where a record is held against a pattern with too many bytes.
pub(crate) fn select_rows(
    db: &Database,
    client: &str,
    alias: &str,
    command: &str,
    need: Need,
) -> (r: Result<Vec<Row>, StatsError>)
    ensures
        match r {
            Ok(rows) => !refused(db@.records, client@, alias@, command@, need) && rows@
                == wanted_rows(db@.records, client@, alias@, command@, need),
            Err(e) => e == StatsError::PatternTooLong && refused(
                db@.records,
                client@,
                alias@,
                command@,
                need,
            ),
        },
{
    if exceeds_limit(command) && matching_rows(db, client, alias, "", need).len() > 0 {
        return Err(StatsError::PatternTooLong);
    }
    Ok(matching_rows(db, client, alias, command, need))
}

fn matching_rows(db: &Database, client: &str, alias: &str, command: &str, need: Need) -> (r: Vec<Row>)
    ensures
        r@ == wanted_rows(db@.records, client@, alias@, command@, need),
{
    let one_client: bool = !client.is_empty() && !same_text(client, "__global__");
    let records = db.records();
    let ghost all = db@.records;
    let ghost wanted = wants(client@, alias@, command@, need);
    let mut r: Vec<Row> = Vec::new();
    proof {
        assert(all.take(0) =~= Seq::<db::RecordView>::empty());
        assert(r@ =~= rows_of(order::kept(all.take(0), wanted)));
        assert(forall|k: int| 0 <= k < records@.len() ==> all[k] == #[trigger] records@[k]@);
    }
    for i in 0..records.len()
        invariant
            one_client == db::names_client(client@),
            wanted == wants(client@, alias@, command@, need),
            all.len() == records@.len(),
            forall|k: int| 0 <= k < records@.len() ==> all[k] == #[trigger] records@[k]@,
            r@ == rows_of(order::kept(all.take(i as int), wanted)),
    {
        proof {
            order::lemma_kept_step(all, wanted, i as int);
        }
        let record = &records[i];
        if row_wanted(record, one_client, client, alias, command, need) {
            let ghost before = order::kept(all.take(i as int), wanted);
            let seconds: i64 = match record.duration_seconds {
                Some(d) => d,
                None => 0,
            };
            r.push(Row { start: record.start_time, seconds });
            assert(r@ =~= rows_of(before.push(all[i as int])));
        }
    }
    assert(all.take(all.len() as int) =~= all);
    r
}

pub(crate) fn sort_by_start(rows: &Vec<Row>) -> (r: Vec<Row>)
    ensures
        r@ == by_start(rows@),
        r@.len() == rows@.len(),
{
    let mut keys: Vec<i64> = Vec::new();
    for i in 0..rows.len()
        invariant
            keys@.len() == i,
            forall|k: int| 0 <= k < i ==> #[trigger] keys@[k] == rows@[k].start,
    {
        keys.push(rows[i].start);
    }
    assert(keys@ =~= row_starts(rows@));
    let sorted = sort_keys(&keys, false);
    let mut r: Vec<Row> = Vec::new();
    for i in 0..sorted.len()
        invariant
            order::arranged(keys@, false, 0, keys@.len() as int, order::positions(sorted@)),
            keys@.len() == rows@.len(),
            r@.len() == i,
            forall|k: int| 0 <= k < i ==> #[trigger] r@[k] == rows@[sorted@[k] as int],
    {
        assert(order::positions(sorted@)[i as int] == sorted@[i as int]);
        r.push(rows[sorted[i]]);
    }
    proof {
        assert forall|k: int| 0 <= k < r@.len() implies #[trigger] r@[k] == rows@[order::order(
            keys@,
            false,
        )[k]] by {
            assert(order::positions(sorted@)[k] == sorted@[k]);
        }
        assert(r@ =~= by_start(rows@));
    }
    r
}

/// A store's rows are no more than fit in `i64`.
pub proof fn lemma_row_count(
    d: db::DbView,
    client: Seq<char>,
    alias: Seq<char>,
    command: Seq<char>,
    need: Need,
)
    requires
        d.wf(),
    ensures
        wanted_rows(d.records, client, alias, command, need).len() <= i64::MAX,
{
    db::lemma_record_count(d);
    order::lemma_kept_len(d.records, wants(client, alias, command, need));
}

// ---------------------------------------------------------------------------------------------
// Summary
// ---------------------------------------------------------------------------------------------

/// A summary's totals, by value.
#[verifier::ext_equal]
pub struct TotalView {
    pub total_days: int,
    pub active_days: int,
    pub total_seconds: int,
    pub total_times: int,
    pub mean_usage: int,
    pub total_ratio: (int, int),
    pub total_day_ratio: (int, int),
    pub from_date: Seq<char>,
    pub total_duration_hr: Seq<char>,
    pub total_seconds_hr: Seq<char>,
    pub mean_usage_hr: Seq<char>,
}

/// A period's figures, by value.
#[verifier::ext_equal]
pub struct PeriodView {
    pub name: Seq<char>,
    pub seconds: int,
    pub ratio: (int, int),
    pub times: int,
    pub day_ratio: (int, int),
    pub days: int,
    pub mean_usage: int,
}

/// Interval figures, by value.
#[verifier::ext_equal]
pub struct IntervalView {
    pub current_interval: int,
    pub current_interval_hr: Seq<char>,
    pub max_interval: int,
    pub max_interval_hr: Seq<char>,
    pub mean_interval: int,
    pub mean_interval_hr: Seq<char>,
}

/// A summary, by value.
#[verifier::ext_equal]
pub struct StatsView {
    pub total: TotalView,
    pub past_n: Seq<PeriodView>,
    pub interval: IntervalView,
}

impl View for Ratio {
    type V = (int, int);

    open spec fn view(&self) -> (int, int) {
        (self.value as int, self.total as int)
    }
}

impl View for TotalStats {
    type V = TotalView;

    open spec fn view(&self) -> TotalView {
        TotalView {
            total_days: self.total_days as int,
            active_days: self.active_days as int,
            total_seconds: self.total_seconds as int,
            total_times: self.total_times as int,
            mean_usage: self.mean_usage as int,
            total_ratio: self.total_ratio@,
            total_day_ratio: self.total_day_ratio@,
            from_date: self.from_date@,
            total_duration_hr: self.total_duration_hr@,
            total_seconds_hr: self.total_seconds_hr@,
            mean_usage_hr: self.mean_usage_hr@,
        }
    }
}

impl View for PastNStat {
    type V = PeriodView;

    open spec fn view(&self) -> PeriodView {
        PeriodView {
            name: self.name@,
            seconds: self.seconds as int,
            ratio: self.ratio@,
            times: self.times as int,
            day_ratio: self.day_ratio@,
            days: self.days as int,
            mean_usage: self.mean_usage as int,
        }
    }
}

impl View for IntervalStats {
    type V = IntervalView;

    open spec fn view(&self) -> IntervalView {
        IntervalView {
            current_interval: self.current_interval as int,
            current_interval_hr: self.current_interval_hr@,
            max_interval: self.max_interval as int,
            max_interval_hr: self.max_interval_hr@,
            mean_interval: self.mean_interval as int,
            mean_interval_hr: self.mean_interval_hr@,
        }
    }
}

/// The values of a list of periods.
pub open spec fn period_views(s: Seq<PastNStat>) -> Seq<PeriodView> {
    s.map_values(|p: PastNStat| p@)
}

impl View for Stats {
    type V = StatsView;

    open spec fn view(&self) -> StatsView {
        StatsView {
            total: self.total@,
            past_n: period_views(self.past_n@),
            interval: self.interval@,
        }
    }
}

/// The durations of the rows that start after `cutoff`.
pub open spec fn durations_after(rows: Seq<Row>, cutoff: int) -> Seq<int>
    decreases rows.len(),
{
    if rows.len() == 0 {
        Seq::empty()
    } else if rows.last().start > cutoff {
        durations_after(rows.drop_last(), cutoff).push(rows.last().seconds as int)
    } else {
        durations_after(rows.drop_last(), cutoff)
    }
}

/// The local dates on which the rows after `cutoff` start.
pub open spec fn dates_after(zone_name: Seq<char>, rows: Seq<Row>, cutoff: int) -> Set<i64>
    decreases rows.len(),
{
    if rows.len() == 0 {
        Set::empty()
    } else if rows.last().start > cutoff {
        dates_after(zone_name, rows.drop_last(), cutoff).insert(
            zone::date_at(zone_name, rows.last().start as int) as i64,
        )
    } else {
        dates_after(zone_name, rows.drop_last(), cutoff)
    }
}

/// All durations of the rows.
pub open spec fn durations(rows: Seq<Row>) -> Seq<int> {
    rows.map_values(|r: Row| r.seconds as int)
}

/// All local dates on which the rows start.
pub open spec fn dates(zone_name: Seq<char>, rows: Seq<Row>) -> Set<i64>
    decreases rows.len(),
{
    if rows.len() == 0 {
        Set::empty()
    } else {
        dates(zone_name, rows.drop_last()).insert(
            zone::date_at(zone_name, rows.last().start as int) as i64,
        )
    }
}

/// The mean of a total, rounded towards zero; 0 where there is nothing.
pub open spec fn mean(total: int, times: int) -> int {
    if times > 0 {
        arith::div_trunc(total, times)
    } else {
        0
    }
}

/// `n / d` to one decimal place, with the sign of `n`.
pub open spec fn tenths_text(n: int, d: int) -> Seq<char> {
    let size = if n < 0 {
        -n
    } else {
        n
    };
    let tenths = (20 * size + d) / (2 * d);
    (if n < 0 {
        seq!['-']
    } else {
        Seq::empty()
    }) + text::dec_nat((tenths / 10) as nat) + seq!['.'] + text::dec_nat((tenths % 10) as nat)
}

/// A period's name and its length in days.
#[verifier::ext_equal]
pub struct Span {
    pub name: Seq<char>,
    pub days: int,
}

/// The periods of `years`, twice as many, and so on, as far as the record reaches back.
pub open spec fn year_spans(total_days: int, years: int) -> Seq<Span>
    decreases
            if total_days >= years * 365 {
                total_days - years * 365 + 1
            } else {
                0
            },
    when years > 0
{
    if total_days >= years * 365 {
        seq![Span { name: text::dec_nat(years as nat) + " years"@, days: years * 365 }]
            + year_spans(total_days, 2 * years)
    } else {
        Seq::empty()
    }
}

/// The name of the period that covers everything.
pub open spec fn all_time_name(total_days: int) -> Seq<char> {
    if total_days < 365 {
        "All Time ("@ + tenths_text(total_days, 30) + " months)"@
    } else {
        "All Time ("@ + tenths_text(total_days, 365) + " years)"@
    }
}

/// The periods of the summary of a record that reaches `total_days` back: weeks and a month
/// always, longer ones once the record is as long, and all of it.
pub open spec fn spans(total_days: int) -> Seq<Span> {
    let short = seq![
        Span { name: "1 week"@, days: 7 },
        Span { name: "2 weeks"@, days: 14 },
        Span { name: "1 month"@, days: 30 },
    ];
    let quarter = if total_days >= 90 {
        seq![Span { name: "3 months"@, days: 90 }]
    } else {
        Seq::empty()
    };
    let half = if total_days >= 180 {
        seq![Span { name: "6 months"@, days: 180 }]
    } else {
        Seq::empty()
    };
    let year = if total_days >= 365 {
        seq![Span { name: "1 year"@, days: 365 }]
    } else {
        Seq::empty()
    };
    short + quarter + half + year + year_spans(total_days, 2) + seq![
        Span { name: all_time_name(total_days), days: total_days },
    ]
}

/// The figures of the rows after the start of the date that lies `span.days` before `today`, or
/// `None` where their sum does not fit.
pub open spec fn period_of(zone_name: Seq<char>, rows: Seq<Row>, today: int, span: Span) -> Option<
    PeriodView,
> {
    let cutoff = zone::date_start(zone_name, today - span.days);
    let seconds = durations_after(rows, cutoff);
    let days = dates_after(zone_name, rows, cutoff).len() as int;
    if arith::sum_fits(seconds) {
        Some(
            PeriodView {
                name: span.name,
                seconds: arith::sum(seconds),
                ratio: (arith::sum(seconds), span.days * 86400),
                times: seconds.len() as int,
                day_ratio: (days, if span.days > 1 {
                    span.days
                } else {
                    1
                }),
                days,
                mean_usage: mean(arith::sum(seconds), seconds.len() as int),
            },
        )
    } else {
        None
    }
}

/// The figures of a list of periods, or `None` where one of their sums does not fit.
pub open spec fn periods_of(zone_name: Seq<char>, rows: Seq<Row>, today: int, list: Seq<Span>) -> Option<
    Seq<PeriodView>,
>
    decreases list.len(),
{
    if list.len() == 0 {
        Some(Seq::empty())
    } else {
        match (
            periods_of(zone_name, rows, today, list.drop_last()),
            period_of(zone_name, rows, today, list.last()),
        ) {
            (Some(before), Some(p)) => Some(before.push(p)),
            _ => None,
        }
    }
}

/// The longest time from one start to the next.
pub open spec fn max_gap(rows: Seq<Row>) -> int
    decreases rows.len(),
{
    if rows.len() < 2 {
        0
    } else {
        let before = max_gap(rows.drop_last());
        let gap = rows.last().start - rows[rows.len() - 2].start;
        if gap > before {
            gap
        } else {
            before
        }
    }
}

/// Whether the time from each start to the next fits in `i64`.
pub open spec fn gaps_fit(rows: Seq<Row>) -> bool {
    forall|i: int| 0 < i < rows.len() ==> arith::fits((#[trigger] rows[i]).start - rows[i - 1].start)
}

/// The summary where there are no sessions.
pub open spec fn no_stats(zone_name: Seq<char>, now: int) -> StatsView {
    StatsView {
        total: TotalView {
            total_days: 0,
            active_days: 0,
            total_seconds: 0,
            total_times: 0,
            mean_usage: 0,
            total_ratio: (0, 0),
            total_day_ratio: (0, 0),
            from_date: calendar::date_text(zone::date_at(zone_name, now)),
            total_duration_hr: duration_text(0),
            total_seconds_hr: duration_text(0),
            mean_usage_hr: duration_text(0),
        },
        past_n: Seq::empty(),
        interval: IntervalView {
            current_interval: 0,
            current_interval_hr: duration_text(0),
            max_interval: 0,
            max_interval_hr: duration_text(0),
            mean_interval: 0,
            mean_interval_hr: duration_text(0),
        },
    }
}

/// The totals of rows in the order of their start, as of the date `today`.
pub open spec fn total_of(zone_name: Seq<char>, rows: Seq<Row>, today: int) -> TotalView {
    let first = zone::date_at(zone_name, rows[0].start as int);
    let days = today - first;
    let seconds = arith::sum(durations(rows));
    let active = dates(zone_name, rows).len() as int;
    let times = rows.len() as int;
    TotalView {
        total_days: days,
        active_days: active,
        total_seconds: seconds,
        total_times: times,
        mean_usage: mean(seconds, times),
        total_ratio: (seconds, days * 86400),
        total_day_ratio: (active, if days > 1 {
            days
        } else {
            1
        }),
        from_date: calendar::date_text(first),
        total_duration_hr: duration_text(days * 86400),
        total_seconds_hr: duration_text(seconds),
        mean_usage_hr: duration_text(mean(seconds, times)),
    }
}

/// The intervals between rows in the order of their start, as of `now` on the date `today`.
pub open spec fn intervals_of(zone_name: Seq<char>, rows: Seq<Row>, today: int, now: int) -> IntervalView {
    let days = today - zone::date_at(zone_name, rows[0].start as int);
    let current = now - rows.last().start;
    let average = mean(days * 86400, rows.len() as int);
    IntervalView {
        current_interval: current,
        current_interval_hr: duration_text(current),
        max_interval: max_gap(rows),
        max_interval_hr: duration_text(max_gap(rows)),
        mean_interval: average,
        mean_interval_hr: duration_text(average),
    }
}

/// The summary of rows in the order of their start, as of `now`; `None` where a sum or a
/// difference does not fit in `i64`.
pub open spec fn stats_of(zone_name: Seq<char>, rows: Seq<Row>, now: int) -> Option<StatsView> {
    let today = zone::date_at(zone_name, now);
    if rows.len() == 0 {
        Some(no_stats(zone_name, now))
    } else {
        let days = today - zone::date_at(zone_name, rows[0].start as int);
        let past_n = periods_of(zone_name, rows, today, spans(days));
        if arith::sum_fits(durations(rows)) && past_n is Some && gaps_fit(rows) && arith::fits(
            now - rows.last().start,
        ) {
            Some(
                StatsView {
                    total: total_of(zone_name, rows, today),
                    past_n: past_n->0,
                    interval: intervals_of(zone_name, rows, today, now),
                },
            )
        } else {
            None
        }
    }
}

fn sum_durations(rows: &Vec<Row>) -> (r: Option<i64>)
    ensures
        r is Some == arith::sum_fits(durations(rows@)),
        r is Some ==> r->0 == arith::sum(durations(rows@)),
{
    let ghost all = durations(rows@);
    let mut total: i64 = 0;
    for i in 0..rows.len()
        invariant
            all == durations(rows@),
            total == arith::sum(all.take(i as int)),
            forall|k: int| 0 <= k <= i ==> arith::fits(arith::sum(#[trigger] all.take(k))),
    {
        proof {
            arith::lemma_sum_step(all, i as int);
        }
        match total.checked_add(rows[i].seconds) {
            Some(t) => {
                total = t;
            },
            None => {
                assert(!arith::fits(arith::sum(all.take(i + 1))));
                return None;
            },
        }
    }
    assert(all.take(all.len() as int) =~= all);
    Some(total)
}

/// A small finite set of dates is counted by its size.
proof fn lemma_dates_finite(zone_name: Seq<char>, rows: Seq<Row>)
    ensures
        dates(zone_name, rows).finite(),
        dates(zone_name, rows).len() <= rows.len(),
    decreases rows.len(),
{
    if rows.len() > 0 {
        lemma_dates_finite(zone_name, rows.drop_last());
    }
}

proof fn lemma_dates_after_finite(zone_name: Seq<char>, rows: Seq<Row>, cutoff: int)
    ensures
        dates_after(zone_name, rows, cutoff).finite(),
        dates_after(zone_name, rows, cutoff).len() <= rows.len(),
        durations_after(rows, cutoff).len() <= rows.len(),
    decreases rows.len(),
{
    if rows.len() > 0 {
        lemma_dates_after_finite(zone_name, rows.drop_last(), cutoff);
    }
}

fn count_dates(tz: &Tz, rows: &Vec<Row>) -> (r: i64)
    requires
        rows@.len() <= i64::MAX,
    ensures
        r == dates(tz@, rows@).len(),
{
    let mut seen: std::collections::HashSet<i64> = std::collections::HashSet::new();
    assert(rows@.take(0) =~= Seq::<Row>::empty());
    for i in 0..rows.len()
        invariant
            seen@ == dates(tz@, rows@.take(i as int)),
    {
        assert(rows@.take(i + 1).drop_last() =~= rows@.take(i as int));
        let day: i64 = tz.date(rows[i].start);
        seen.insert(day);
    }
    assert(rows@.take(rows@.len() as int) =~= rows@);
    proof {
        lemma_dates_finite(tz@, rows@);
    }
    seen.len() as i64
}

fn period(tz: &Tz, rows: &Vec<Row>, today: i64, name: String, days: i64) -> (r: Option<PastNStat>)
    requires
        rows@.len() <= i64::MAX,
        calendar::day_in_range(today as int),
        calendar::day_in_range(today - days),
        -200000000 <= days <= 200000000,
    ensures
        r is Some == period_of(tz@, rows@, today as int, Span { name: name@, days: days as int }) is Some,
        r is Some ==> period_of(tz@, rows@, today as int, Span { name: name@, days: days as int })
            == Some(r->0@),
{
    let cutoff: i64 = local_date_start(today - days, tz);
    let ghost span = Span { name: name@, days: days as int };
    let ghost all = durations_after(rows@, cutoff as int);
    let mut seconds: i64 = 0;
    let mut times: i64 = 0;
    let mut seen: std::collections::HashSet<i64> = std::collections::HashSet::new();
    assert(rows@.take(0) =~= Seq::<Row>::empty());
    for i in 0..rows.len()
        invariant
            rows@.len() <= i64::MAX,
            cutoff == zone::date_start(tz@, today - days),
            span == (Span { name: name@, days: days as int }),
            all == durations_after(rows@, cutoff as int),
            seen@ == dates_after(tz@, rows@.take(i as int), cutoff as int),
            times == durations_after(rows@.take(i as int), cutoff as int).len(),
            times <= i,
            durations_after(rows@.take(i as int), cutoff as int) == all.take(times as int),
            times <= all.len(),
            seconds == arith::sum(all.take(times as int)),
            forall|k: int| 0 <= k <= times ==> arith::fits(arith::sum(#[trigger] all.take(k))),
    {
        proof {
            assert(rows@.take(i + 1).drop_last() =~= rows@.take(i as int));
            lemma_durations_prefix(rows@, cutoff as int, i + 1);
        }
        let row = rows[i];
        if row.start > cutoff {
            proof {
                assert(all[times as int] == row.seconds) by {
                    let next = durations_after(rows@.take(i + 1), cutoff as int);
                    assert(next == all.take(next.len() as int));
                    assert(next[times as int] == row.seconds);
                }
                arith::lemma_sum_step(all, times as int);
            }
            match seconds.checked_add(row.seconds) {
                Some(t) => {
                    seconds = t;
                },
                None => {
                    assert(!arith::fits(arith::sum(all.take(times + 1))));
                    return None;
                },
            }
            times = times + 1;
            let day: i64 = tz.date(row.start);
            seen.insert(day);
        }
    }
    assert(rows@.take(rows@.len() as int) =~= rows@);
    assert(all.take(all.len() as int) =~= all);
    proof {
        lemma_dates_after_finite(tz@, rows@, cutoff as int);
    }
    let active: i64 = seen.len() as i64;
    let mean_usage: i64 = if times > 0 {
        trunc_div(seconds, times)
    } else {
        0
    };
    let r = PastNStat {
        name,
        seconds,
        ratio: Ratio { value: seconds, total: days * DAY },
        times,
        day_ratio: Ratio { value: active, total: if days > 1 { days } else { 1 } },
        days: active,
        mean_usage,
    };
    assert(period_of(tz@, rows@, today as int, span) == Some(r@));
    Some(r)
}

/// What the first rows contribute comes first in the whole.
proof fn lemma_durations_prefix(rows: Seq<Row>, cutoff: int, k: int)
    requires
        0 <= k <= rows.len(),
    ensures
        durations_after(rows.take(k), cutoff).len() <= durations_after(rows, cutoff).len(),
        durations_after(rows.take(k), cutoff) == durations_after(rows, cutoff).take(
            durations_after(rows.take(k), cutoff).len() as int,
        ),
    decreases rows.len(),
{
    if k == rows.len() {
        assert(rows.take(k) =~= rows);
        let all = durations_after(rows, cutoff);
        assert(all.take(all.len() as int) =~= all);
    } else {
        let shorter = rows.drop_last();
        lemma_durations_prefix(shorter, cutoff, k);
        assert(shorter.take(k) =~= rows.take(k));
        let part = durations_after(rows.take(k), cutoff);
        let all = durations_after(rows, cutoff);
        assert(part =~= all.take(part.len() as int));
    }
}

fn tenths_string(n: i64, d: i64) -> (r: String)
    requires
        -200000000 <= n <= 200000000,
        0 < d <= 1000,
    ensures
        r@ == tenths_text(n as int, d as int),
{
    let size: i64 = if n < 0 {
        -n
    } else {
        n
    };
    let tenths: i64 = (20 * size + d) / (2 * d);
    proof {
        assert(0 <= tenths) by (nonlinear_arith)
            requires
                tenths == (20 * size + d) / (2 * d),
                size >= 0,
                d > 0,
        ;
    }
    let mut r = String::new();
    if n < 0 {
        r.push('-');
    }
    r.append(nat_text((tenths / 10) as u64).as_str());
    r.push('.');
    r.append(nat_text((tenths % 10) as u64).as_str());
    assert(r@ =~= tenths_text(n as int, d as int));
    r
}

fn all_time_label(total_days: i64) -> (r: String)
    requires
        -200000000 <= total_days <= 200000000,
    ensures
        r@ == all_time_name(total_days as int),
{
    let mut r = "All Time (".to_owned();
    if total_days < 365 {
        r.append(tenths_string(total_days, 30).as_str());
        r.append(" months)");
    } else {
        r.append(tenths_string(total_days, 365).as_str());
        r.append(" years)");
    }
    r
}

/// A period's name and its length in days.
struct NamedSpan {
    name: String,
    days: i64,
}

impl View for NamedSpan {
    type V = Span;

    closed spec fn view(&self) -> Span {
        Span { name: self.name@, days: self.days as int }
    }
}

spec fn span_views(s: Seq<NamedSpan>) -> Seq<Span> {
    s.map_values(|p: NamedSpan| p@)
}

fn push_span(list: &mut Vec<NamedSpan>, name: String, days: i64)
    ensures
        span_views(final(list)@) == span_views(old(list)@).push(
            Span { name: name@, days: days as int },
        ),
        forall|i: int|
            0 <= i < final(list)@.len() ==> (#[trigger] final(list)@[i]).days == days || (i
                < old(list)@.len() && final(list)@[i] == old(list)@[i]),
{
    let ghost before = list@;
    list.push(NamedSpan { name, days });
    assert(span_views(list@) =~= span_views(before).push(Span { name: name@, days: days as int }));
}

fn span_list(total_days: i64) -> (r: Vec<NamedSpan>)
    requires
        -200000000 <= total_days <= 200000000,
    ensures
        span_views(r@) == spans(total_days as int),
        forall|i: int|
            0 <= i < r@.len() ==> {
                ||| 0 <= (#[trigger] r@[i]).days <= 30
                ||| 0 <= r@[i].days <= total_days
                ||| r@[i].days == total_days
            },
{
    let mut list: Vec<NamedSpan> = Vec::new();
    push_span(&mut list, "1 week".to_owned(), 7);
    push_span(&mut list, "2 weeks".to_owned(), 14);
    push_span(&mut list, "1 month".to_owned(), 30);
    if total_days >= 90 {
        push_span(&mut list, "3 months".to_owned(), 90);
    }
    if total_days >= 180 {
        push_span(&mut list, "6 months".to_owned(), 180);
    }
    if total_days >= 365 {
        push_span(&mut list, "1 year".to_owned(), 365);
    }
    let ghost head = span_views(list@);
    let mut years: i64 = 2;
    assert(head + year_spans(total_days as int, 2) =~= span_views(list@) + year_spans(
        total_days as int,
        2,
    ));
    while years * 365 <= total_days
        invariant
            -200000000 <= total_days <= 200000000,
            2 <= years <= 2000000,
            span_views(list@) + year_spans(total_days as int, years as int) == head + year_spans(
                total_days as int,
                2,
            ),
            forall|i: int|
                0 <= i < list@.len() ==> {
                    ||| 0 <= (#[trigger] list@[i]).days <= 30
                    ||| 0 <= list@[i].days <= total_days
                },
        decreases total_days - years * 365 + 400000000,
    {
        let mut name = nat_text(years as u64);
        name.append(" years");
        let ghost before = span_views(list@);
        let ghost rest = year_spans(total_days as int, 2 * years);
        push_span(&mut list, name, years * 365);
        proof {
            let span = Span { name: name@, days: years * 365 };
            assert(before + (seq![span] + rest) =~= before.push(span) + rest);
        }
        years = years * 2;
    }
    assert(year_spans(total_days as int, years as int) =~= Seq::<Span>::empty());
    assert(span_views(list@) =~= head + year_spans(total_days as int, 2));
    let ghost before = span_views(list@);
    push_span(&mut list, all_time_label(total_days), total_days);
    assert(span_views(list@) =~= spans(total_days as int));
    list
}

fn period_list(tz: &Tz, rows: &Vec<Row>, today: i64, total_days: i64) -> (r: Option<Vec<PastNStat>>)
    requires
        rows@.len() <= i64::MAX,
        calendar::day_in_range(today as int),
        calendar::day_in_range(today - total_days),
        calendar::day_in_range(today - 30),
    ensures
        r is Some == (periods_of(tz@, rows@, today as int, spans(total_days as int)) is Some),
        r is Some ==> periods_of(tz@, rows@, today as int, spans(total_days as int)) == Some(
            period_views(r->0@),
        ),
{
    let list = span_list(total_days);
    let ghost views = span_views(list@);
    let mut r: Vec<PastNStat> = Vec::new();
    assert(period_views(r@) =~= Seq::<PeriodView>::empty());
    for i in 0..list.len()
        invariant
            rows@.len() <= i64::MAX,
            calendar::day_in_range(today as int),
            calendar::day_in_range(today - total_days),
            calendar::day_in_range(today - 30),
            views == span_views(list@),
            views == spans(total_days as int),
            forall|k: int|
                0 <= k < list@.len() ==> {
                    ||| 0 <= (#[trigger] list@[k]).days <= 30
                    ||| 0 <= list@[k].days <= total_days
                    ||| list@[k].days == total_days
                },
            periods_of(tz@, rows@, today as int, views.take(i as int)) == Some(period_views(r@)),
    {
        assert(views.take(i + 1).drop_last() =~= views.take(i as int));
        assert(views[i as int] == list@[i as int]@);
        let ghost before = r@;
        match period(tz, rows, today, list[i].name.clone(), list[i].days) {
            Some(p) => {
                let ghost value = p@;
                r.push(p);
                assert(period_views(r@) =~= period_views(before).push(value));
            },
            None => {
                proof {
                    lemma_periods_prefix(tz@, rows@, today as int, views, i + 1);
                }
                return None;
            },
        }
    }
    assert(views.take(views.len() as int) =~= views);
    Some(r)
}

/// Longer lists do not fit where shorter ones do not.
proof fn lemma_periods_prefix(
    zone_name: Seq<char>,
    rows: Seq<Row>,
    today: int,
    list: Seq<Span>,
    k: int,
)
    requires
        0 <= k <= list.len(),
        periods_of(zone_name, rows, today, list.take(k)) is None,
    ensures
        periods_of(zone_name, rows, today, list) is None,
    decreases list.len(),
{
    if k == list.len() {
        assert(list.take(k) =~= list);
    } else {
        assert(list.drop_last().take(k) =~= list.take(k));
        lemma_periods_prefix(zone_name, rows, today, list.drop_last(), k);
    }
}

fn longest_gap(rows: &Vec<Row>) -> (r: Option<i64>)
    ensures
        r is Some == gaps_fit(rows@),
        r is Some ==> r->0 == max_gap(rows@),
{
    let mut longest: i64 = 0;
    let mut i: usize = 1;
    while i < rows.len()
        invariant
            1 <= i,
            i <= rows@.len() || i == 1,
            longest == max_gap(rows@.take(if i <= rows@.len() { i as int } else { 0 })),
            forall|k: int|
                0 < k < i && k < rows@.len() ==> arith::fits((#[trigger] rows@[k]).start - rows@[k - 1].start),
        decreases rows@.len() - i,
    {
        assert(rows@.take(i + 1).drop_last() =~= rows@.take(i as int));
        match rows[i].start.checked_sub(rows[i - 1].start) {
            Some(gap) => {
                if gap > longest {
                    longest = gap;
                }
            },
            None => {
                assert(!arith::fits(rows@[i as int].start - rows@[i - 1].start));
                return None;
            },
        }
        i = i + 1;
    }
    assert(rows@.take(rows@.len() as int) =~= rows@);
    Some(longest)
}

/// The summary of the wanted sessions, as of `now`.
pub fn compute_stats_at(
    db: &Database,
    client_id: &str,
    alias: &str,
    command: &str,
    tz: &Tz,
    now: i64,
) -> (r: Result<Stats, StatsError>)
    requires
        db.wf(),
        0 <= now <= MAX_TIME,
    ensures
        match r {
            Ok(s) => !refused(db@.records, client_id@, alias@, command@, Need::Nothing) && stats_of(
                tz@,
                by_start(wanted_rows(db@.records, client_id@, alias@, command@, Need::Nothing)),
                now as int,
            ) == Some(s@),
            Err(e) => if refused(db@.records, client_id@, alias@, command@, Need::Nothing) {
                e == StatsError::PatternTooLong
            } else {
                e == StatsError::Overflow && stats_of(
                    tz@,
                    by_start(
                        wanted_rows(db@.records, client_id@, alias@, command@, Need::Nothing),
                    ),
                    now as int,
                ) is None
            },
        },
{
    proof {
        db.lemma_wf();
        lemma_row_count(db@, client_id@, alias@, command@, Need::Nothing);
    }
    let found = match select_rows(db, client_id, alias, command, Need::Nothing) {
        Ok(rows) => rows,
        Err(e) => {
            return Err(e);
        },
    };
    let rows = sort_by_start(&found);
    summarize(&rows, tz, now)
}

/// The summary of rows in the order of their start, as of `now`.
pub fn summarize(rows: &Vec<Row>, tz: &Tz, now: i64) -> (r: Result<Stats, StatsError>)
    requires
        rows@.len() <= i64::MAX,
        0 <= now <= MAX_TIME,
    ensures
        match r {
            Ok(s) => stats_of(tz@, rows@, now as int) == Some(s@),
            Err(e) => e == StatsError::Overflow && stats_of(tz@, rows@, now as int) is None,
        },
{
    let today: i64 = tz.date(now);
    if rows.len() == 0 {
        let total = TotalStats {
            total_days: 0,
            active_days: 0,
            total_seconds: 0,
            total_times: 0,
            mean_usage: 0,
            total_ratio: Ratio { value: 0, total: 0 },
            total_day_ratio: Ratio { value: 0, total: 0 },
            from_date: date_string(today),
            total_duration_hr: human_readable_time(0),
            total_seconds_hr: human_readable_time(0),
            mean_usage_hr: human_readable_time(0),
        };
        let interval = IntervalStats {
            current_interval: 0,
            current_interval_hr: human_readable_time(0),
            max_interval: 0,
            max_interval_hr: human_readable_time(0),
            mean_interval: 0,
            mean_interval_hr: human_readable_time(0),
        };
        let r = Stats { total, past_n: Vec::new(), interval };
        assert(r@.past_n =~= Seq::<PeriodView>::empty());
        assert(r@ == no_stats(tz@, now as int));
        return Ok(r);
    }
    let first: i64 = tz.date(rows[0].start);
    let total_days: i64 = today - first;
    let total_times: i64 = rows.len() as i64;
    let total_seconds: i64 = match sum_durations(rows) {
        Some(t) => t,
        None => {
            return Err(StatsError::Overflow);
        },
    };
    let mean_usage: i64 = trunc_div(total_seconds, total_times);
    let active_days: i64 = count_dates(tz, rows);
    let total = TotalStats {
        total_days,
        active_days,
        total_seconds,
        total_times,
        mean_usage,
        total_ratio: Ratio { value: total_seconds, total: total_days * DAY },
        total_day_ratio: Ratio {
            value: active_days,
            total: if total_days > 1 {
                total_days
            } else {
                1
            },
        },
        from_date: date_string(first),
        total_duration_hr: human_readable_time(total_days * DAY),
        total_seconds_hr: human_readable_time(total_seconds),
        mean_usage_hr: human_readable_time(mean_usage),
    };
    assert(total@ == total_of(tz@, rows@, today as int));
    let past_n = match period_list(tz, rows, today, total_days) {
        Some(list) => list,
        None => {
            return Err(StatsError::Overflow);
        },
    };
    let last: i64 = rows[rows.len() - 1].start;
    let current_interval: i64 = match now.checked_sub(last) {
        Some(t) => t,
        None => {
            return Err(StatsError::Overflow);
        },
    };
    let max_interval: i64 = match longest_gap(rows) {
        Some(t) => t,
        None => {
            return Err(StatsError::Overflow);
        },
    };
    let mean_interval: i64 = trunc_div(total_days * DAY, total_times);
    let interval = IntervalStats {
        current_interval,
        current_interval_hr: human_readable_time(current_interval),
        max_interval,
        max_interval_hr: human_readable_time(max_interval),
        mean_interval,
        mean_interval_hr: human_readable_time(mean_interval),
    };
    assert(interval@ == intervals_of(tz@, rows@, today as int, now as int));
    Ok(Stats { total, past_n, interval })
}

/// The summary of the wanted sessions, as of now.
pub fn compute_stats(
    db: &Database,
    client_id: &str,
    alias: &str,
    command: &str,
    tz: &Tz,
) -> (r: Result<Stats, StatsError>)
    requires
        db.wf(),
    ensures
        exists|now: int|
            0 <= now <= MAX_TIME && (match r {
                Ok(s) => !refused(db@.records, client_id@, alias@, command@, Need::Nothing) && #[trigger] stats_of(
                    tz@,
                    by_start(wanted_rows(db@.records, client_id@, alias@, command@, Need::Nothing)),
                    now,
                ) == Some(s@),
                Err(e) => if refused(db@.records, client_id@, alias@, command@, Need::Nothing) {
                    e == StatsError::PatternTooLong
                } else {
                    e == StatsError::Overflow && stats_of(
                        tz@,
                        by_start(
                            wanted_rows(db@.records, client_id@, alias@, command@, Need::Nothing),
                        ),
                        now,
                    ) is None
                },
            }),
{
    let now: i64 = utc_now();
    compute_stats_at(db, client_id, alias, command, tz, now)
}

} // verus!
