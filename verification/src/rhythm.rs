//! When sessions happen: by day, by month, by hour of the week, on weekends, in streaks.

use crate::arith;
use crate::arith::{floor_mod, trunc_div};
use crate::calendar;
use crate::calendar::{
    clock_string, date_string, instant, local_day, month_string, weekday_of, DAY, MIN_DAY,
};
use crate::db::Database;
use crate::order;
use crate::order::sort_keys;
use crate::stats;
use crate::stats::{human_readable_time, select_rows, Need, Row, StatsError};
use crate::tally;
use crate::tally::Tally;
use crate::zone;
use crate::zone::Tz;
use vstd::prelude::*;

verus! {

/// Sessions on working days and on weekends.
#[derive(Debug)]
pub struct WeekdayWeekendStats {
    pub weekday_total_seconds: i64,
    pub weekday_times: i64,
    pub weekday_mean_seconds: i64,
    pub weekend_total_seconds: i64,
    pub weekend_times: i64,
    pub weekend_mean_seconds: i64,
    pub weekday_total_hr: String,
    pub weekday_mean_hr: String,
    pub weekend_total_hr: String,
    pub weekend_mean_hr: String,
}

/// Runs of days with a session on each.
#[derive(Debug)]
pub struct StreakStats {
    pub current_streak: i64,
    pub max_streak: i64,
    pub last_active_date: String,
    pub last_active_time_hr: String,
}

/// The sessions of one month.
#[derive(Debug)]
pub struct MonthlyPoint {
    pub year_month: String,
    pub total_seconds: i64,
    pub total_times: i64,
    pub total_seconds_hr: String,
}

/// Session time by day of the week and hour of the day.
#[derive(Debug)]
pub struct HourlyHeatmap {
    pub grid: Vec<Vec<i64>>,
    pub max_seconds: i64,
}

// ---------------------------------------------------------------------------------------------
// Days and months
// ---------------------------------------------------------------------------------------------

/// The durations of rows under the text of the local date on which they start. A negative
/// duration counts as none.
pub open spec fn daily_items(zone_name: Seq<char>, rows: Seq<Row>) -> Seq<tally::Item> {
    rows.map_values(
        |r: Row|
            tally::Item {
                key: calendar::date_text(zone::date_at(zone_name, r.start as int)),
                seconds: if r.seconds > 0 {
                    r.seconds
                } else {
                    0
                },
            },
    )
}

/// The durations of rows under the text of the local month in which they start.
pub open spec fn monthly_items(zone_name: Seq<char>, rows: Seq<Row>) -> Seq<tally::Item> {
    rows.map_values(
        |r: Row|
            tally::Item {
                key: calendar::month_text(
                    calendar::day_of(zone::local_time(zone_name, r.start as int)),
                ),
                seconds: r.seconds,
            },
    )
}

/// A day's text and its total.
pub open spec fn day_pair(g: tally::GroupView) -> (Seq<char>, i64) {
    (g.key, g.seconds)
}

/// The values of a list of days.
pub open spec fn day_views(s: Seq<(String, i64)>) -> Seq<(Seq<char>, i64)> {
    s.map_values(|p: (String, i64)| (p.0@, p.1))
}

/// The days of a list of groups.
pub open spec fn day_pairs(groups: Seq<tally::GroupView>) -> Seq<(Seq<char>, i64)> {
    groups.map_values(|g: tally::GroupView| day_pair(g))
}

/// Session time by local date, in the order of the dates' texts.
pub fn get_daily_data(
    db: &Database,
    client_id: &str,
    alias: &str,
    command: &str,
    tz: &Tz,
) -> (r: Result<Vec<(String, i64)>, StatsError>)
    requires
        db.wf(),
    ensures
        ({
            let items = daily_items(
                tz@,
                stats::wanted_rows(db@.records, client_id@, alias@, command@, Need::Nothing),
            );
            match r {
                Ok(days) => !stats::refused(db@.records, client_id@, alias@, command@, Need::Nothing) && tally::tally(items) is Some && day_views(days@) == day_pairs(
                    tally::tally(items)->0,
                ) && tally::totals(items, tally::tally(items)->0),
                Err(e) => if stats::refused(db@.records, client_id@, alias@, command@, Need::Nothing) {
                    e == StatsError::PatternTooLong
                } else {
                    e == StatsError::Overflow && tally::tally(items) is None
                },
            }
        }),
        r is Ok ==> forall|i: int|
            0 <= i < r->Ok_0@.len() ==> exists|day: int|
                #[trigger] calendar::day_in_range(day) && calendar::date_text(day) == (
                #[trigger] r->Ok_0@[i]).0@,
{
    proof {
        db.lemma_wf();
        stats::lemma_row_count(db@, client_id@, alias@, command@, Need::Nothing);
    }
    let rows = match select_rows(db, client_id, alias, command, Need::Nothing) {
        Ok(rows) => rows,
        Err(e) => {
            return Err(e);
        },
    };
    let ghost items = daily_items(tz@, rows@);
    let mut t = Tally::new();
    assert(items.take(0) =~= Seq::<tally::Item>::empty());
    for i in 0..rows.len()
        invariant
            rows@.len() <= i64::MAX,
            rows@ == stats::wanted_rows(db@.records, client_id@, alias@, command@, Need::Nothing),
            !stats::refused(db@.records, client_id@, alias@, command@, Need::Nothing),
            items == daily_items(tz@, rows@),
            t.wf(),
            t.items() == items.take(i as int),
            forall|k: int|
                0 <= k < i ==> calendar::day_in_range(
                    zone::date_at(tz@, (#[trigger] rows@[k]).start as int),
                ),
    {
        assert(items.take(i as int).push(items[i as int]) =~= items.take(i + 1));
        let row = rows[i];
        let day: i64 = tz.date(row.start);
        let seconds: i64 = if row.seconds > 0 {
            row.seconds
        } else {
            0
        };
        if !t.enter(date_string(day).as_str(), seconds) {
            proof {
                tally::lemma_tally_prefix(items, i + 1);
            }
            return Err(StatsError::Overflow);
        }
    }
    assert(items.take(items.len() as int) =~= items);
    let groups = t.into_groups();
    let ghost views = tally::group_views(groups@);
    let mut r: Vec<(String, i64)> = Vec::new();
    for i in 0..groups.len()
        invariant
            r@.len() == i,
            forall|k: int|
                0 <= k < i ==> (#[trigger] r@[k]).0@ == groups@[k].key@ && r@[k].1
                    == groups@[k].seconds,
    {
        r.push((groups[i].key.clone(), groups[i].seconds));
    }
    proof {
        assert(day_views(r@) =~= day_pairs(views));
        assert forall|i: int| 0 <= i < r@.len() implies exists|day: int|
            #[trigger] calendar::day_in_range(day) && calendar::date_text(day) == (
            #[trigger] r@[i]).0@ by {
            assert(views[i].times > 0);
            let k = tally::lemma_value_origin(items, views[i].key);
            let day = zone::date_at(tz@, rows@[k].start as int);
            assert(calendar::day_in_range(day) && calendar::date_text(day) == r@[i].0@);
        }
    }
    Ok(r)
}

/// A month, by value.
#[verifier::ext_equal]
pub struct MonthView {
    pub year_month: Seq<char>,
    pub total_seconds: int,
    pub total_times: int,
    pub total_seconds_hr: Seq<char>,
}

impl View for MonthlyPoint {
    type V = MonthView;

    open spec fn view(&self) -> MonthView {
        MonthView {
            year_month: self.year_month@,
            total_seconds: self.total_seconds as int,
            total_times: self.total_times as int,
            total_seconds_hr: self.total_seconds_hr@,
        }
    }
}

/// The values of a list of months.
pub open spec fn month_views(s: Seq<MonthlyPoint>) -> Seq<MonthView> {
    s.map_values(|p: MonthlyPoint| p@)
}

/// The month of a group.
pub open spec fn month_of(g: tally::GroupView) -> MonthView {
    MonthView {
        year_month: g.key,
        total_seconds: g.seconds as int,
        total_times: g.times as int,
        total_seconds_hr: stats::duration_text(g.seconds as int),
    }
}

/// The months of a list of groups.
pub open spec fn months_of(groups: Seq<tally::GroupView>) -> Seq<MonthView> {
    groups.map_values(|g: tally::GroupView| month_of(g))
}

/// Session time and number by local month, in the order of the months' texts.
pub fn compute_monthly_trend(
    db: &Database,
    client_id: &str,
    alias: &str,
    command: &str,
    tz: &Tz,
) -> (r: Result<Vec<MonthlyPoint>, StatsError>)
    requires
        db.wf(),
    ensures
        ({
            let items = monthly_items(
                tz@,
                stats::by_start(
                    stats::wanted_rows(db@.records, client_id@, alias@, command@, Need::Nothing),
                ),
            );
            match r {
                Ok(months) => !stats::refused(db@.records, client_id@, alias@, command@, Need::Nothing) && tally::tally(items) is Some && month_views(months@) == months_of(
                    tally::tally(items)->0,
                ) && tally::totals(items, tally::tally(items)->0),
                Err(e) => if stats::refused(db@.records, client_id@, alias@, command@, Need::Nothing) {
                    e == StatsError::PatternTooLong
                } else {
                    e == StatsError::Overflow && tally::tally(items) is None
                },
            }
        }),
{
    proof {
        db.lemma_wf();
        stats::lemma_row_count(db@, client_id@, alias@, command@, Need::Nothing);
    }
    let found = match select_rows(db, client_id, alias, command, Need::Nothing) {
        Ok(rows) => rows,
        Err(e) => {
            return Err(e);
        },
    };
    let rows = stats::sort_by_start(&found);
    let ghost items = monthly_items(tz@, rows@);
    let mut t = Tally::new();
    assert(items.take(0) =~= Seq::<tally::Item>::empty());
    for i in 0..rows.len()
        invariant
            rows@.len() <= i64::MAX,
            rows@ == stats::by_start(
                stats::wanted_rows(db@.records, client_id@, alias@, command@, Need::Nothing),
            ),
            !stats::refused(db@.records, client_id@, alias@, command@, Need::Nothing),
            items == monthly_items(tz@, rows@),
            t.wf(),
            t.items() == items.take(i as int),
    {
        assert(items.take(i as int).push(items[i as int]) =~= items.take(i + 1));
        let row = rows[i];
        let day: i64 = local_day(tz.local(row.start));
        if !t.enter(month_string(day).as_str(), row.seconds) {
            proof {
                tally::lemma_tally_prefix(items, i + 1);
            }
            return Err(StatsError::Overflow);
        }
    }
    assert(items.take(items.len() as int) =~= items);
    let groups = t.into_groups();
    let mut r: Vec<MonthlyPoint> = Vec::new();
    for i in 0..groups.len()
        invariant
            r@.len() == i,
            forall|k: int| 0 <= k < i ==> #[trigger] r@[k]@ == month_of(groups@[k]@),
    {
        let g = &groups[i];
        r.push(
            MonthlyPoint {
                year_month: g.key.clone(),
                total_seconds: g.seconds,
                total_times: g.times,
                total_seconds_hr: human_readable_time(g.seconds),
            },
        );
    }
    assert(month_views(r@) =~= months_of(tally::group_views(groups@)));
    Ok(r)
}

// ---------------------------------------------------------------------------------------------
// Weekends
// ---------------------------------------------------------------------------------------------

/// Whether a row starts on a Saturday or Sunday.
pub open spec fn on_weekend(zone_name: Seq<char>, r: Row) -> bool {
    calendar::weekday(calendar::day_of(zone::local_time(zone_name, r.start as int))) >= 5
}

/// The durations of the rows on weekends, or of those on other days.
pub open spec fn week_part(zone_name: Seq<char>, rows: Seq<Row>, weekend: bool) -> Seq<int>
    decreases rows.len(),
{
    if rows.len() == 0 {
        Seq::empty()
    } else if on_weekend(zone_name, rows.last()) == weekend {
        week_part(zone_name, rows.drop_last(), weekend).push(rows.last().seconds as int)
    } else {
        week_part(zone_name, rows.drop_last(), weekend)
    }
}

/// Figures of working days and weekends, by value.
#[verifier::ext_equal]
pub struct WeekView {
    pub weekday_total_seconds: int,
    pub weekday_times: int,
    pub weekday_mean_seconds: int,
    pub weekend_total_seconds: int,
    pub weekend_times: int,
    pub weekend_mean_seconds: int,
    pub weekday_total_hr: Seq<char>,
    pub weekday_mean_hr: Seq<char>,
    pub weekend_total_hr: Seq<char>,
    pub weekend_mean_hr: Seq<char>,
}

impl View for WeekdayWeekendStats {
    type V = WeekView;

    open spec fn view(&self) -> WeekView {
        WeekView {
            weekday_total_seconds: self.weekday_total_seconds as int,
            weekday_times: self.weekday_times as int,
            weekday_mean_seconds: self.weekday_mean_seconds as int,
            weekend_total_seconds: self.weekend_total_seconds as int,
            weekend_times: self.weekend_times as int,
            weekend_mean_seconds: self.weekend_mean_seconds as int,
            weekday_total_hr: self.weekday_total_hr@,
            weekday_mean_hr: self.weekday_mean_hr@,
            weekend_total_hr: self.weekend_total_hr@,
            weekend_mean_hr: self.weekend_mean_hr@,
        }
    }
}

/// The figures of rows on working days and on weekends, or `None` where a sum does not fit.
pub open spec fn week_of(zone_name: Seq<char>, rows: Seq<Row>) -> Option<WeekView> {
    let working = week_part(zone_name, rows, false);
    let free = week_part(zone_name, rows, true);
    if arith::sum_fits(working) && arith::sum_fits(free) {
        let working_mean = stats::mean(arith::sum(working), working.len() as int);
        let free_mean = stats::mean(arith::sum(free), free.len() as int);
        Some(
            WeekView {
                weekday_total_seconds: arith::sum(working),
                weekday_times: working.len() as int,
                weekday_mean_seconds: working_mean,
                weekend_total_seconds: arith::sum(free),
                weekend_times: free.len() as int,
                weekend_mean_seconds: free_mean,
                weekday_total_hr: stats::duration_text(arith::sum(working)),
                weekday_mean_hr: stats::duration_text(working_mean),
                weekend_total_hr: stats::duration_text(arith::sum(free)),
                weekend_mean_hr: stats::duration_text(free_mean),
            },
        )
    } else {
        None
    }
}

proof fn lemma_week_prefix(zone_name: Seq<char>, rows: Seq<Row>, weekend: bool, k: int)
    requires
        0 <= k <= rows.len(),
    ensures
        week_part(zone_name, rows.take(k), weekend).len() <= k,
        week_part(zone_name, rows.take(k), weekend).len() <= week_part(
            zone_name,
            rows,
            weekend,
        ).len(),
        week_part(zone_name, rows.take(k), weekend) == week_part(zone_name, rows, weekend).take(
            week_part(zone_name, rows.take(k), weekend).len() as int,
        ),
    decreases rows.len(),
{
    if k == rows.len() {
        assert(rows.take(k) =~= rows);
        let all = week_part(zone_name, rows, weekend);
        assert(all.take(all.len() as int) =~= all);
        if k > 0 {
            lemma_week_prefix(zone_name, rows.drop_last(), weekend, k - 1);
            assert(rows.drop_last().take(k - 1) =~= rows.drop_last());
        }
    } else {
        lemma_week_prefix(zone_name, rows.drop_last(), weekend, k);
        assert(rows.drop_last().take(k) =~= rows.take(k));
        let part = week_part(zone_name, rows.take(k), weekend);
        assert(part =~= week_part(zone_name, rows, weekend).take(part.len() as int));
    }
}

/// Sum and number of durations.
struct Part {
    total: i64,
    times: i64,
}

/// Sum and number of the durations on weekends, or on other days.
fn sum_week_part(tz: &Tz, rows: &Vec<Row>, weekend: bool) -> (r: Option<Part>)
    requires
        rows@.len() <= i64::MAX,
    ensures
        r is Some == arith::sum_fits(week_part(tz@, rows@, weekend)),
        r is Some ==> r->0.total == arith::sum(week_part(tz@, rows@, weekend)),
        r is Some ==> r->0.times == week_part(tz@, rows@, weekend).len(),
{
    let ghost all = week_part(tz@, rows@, weekend);
    let mut total: i64 = 0;
    let mut times: i64 = 0;
    assert(rows@.take(0) =~= Seq::<Row>::empty());
    for i in 0..rows.len()
        invariant
            rows@.len() <= i64::MAX,
            all == week_part(tz@, rows@, weekend),
            0 <= times <= i,
            times <= all.len(),
            times == week_part(tz@, rows@.take(i as int), weekend).len(),
            total == arith::sum(all.take(times as int)),
            forall|k: int| 0 <= k <= times ==> arith::fits(arith::sum(#[trigger] all.take(k))),
    {
        proof {
            assert(rows@.take(i + 1).drop_last() =~= rows@.take(i as int));
            lemma_week_prefix(tz@, rows@, weekend, i + 1);
        }
        let row = rows[i];
        let free: bool = weekday_of(local_day(tz.local(row.start))) >= 5;
        if free == weekend {
            proof {
                let next = week_part(tz@, rows@.take(i + 1), weekend);
                assert(next[times as int] == row.seconds);
                assert(next == all.take(next.len() as int));
                assert(all[times as int] == row.seconds);
                arith::lemma_sum_step(all, times as int);
            }
            match total.checked_add(row.seconds) {
                Some(t) => {
                    total = t;
                },
                None => {
                    assert(!arith::fits(arith::sum(all.take(times + 1))));
                    return None;
                },
            }
            times = times + 1;
        }
    }
    assert(rows@.take(rows@.len() as int) =~= rows@);
    assert(all.take(all.len() as int) =~= all);
    Some(Part { total, times })
}

/// The wanted sessions on working days and on weekends.
pub fn compute_weekday_weekend_stats(
    db: &Database,
    client_id: &str,
    alias: &str,
    command: &str,
    tz: &Tz,
) -> (r: Result<WeekdayWeekendStats, StatsError>)
    requires
        db.wf(),
    ensures
        ({
            let rows = stats::wanted_rows(
                db@.records,
                client_id@,
                alias@,
                command@,
                Need::Nothing,
            );
            match r {
                Ok(w) => !stats::refused(db@.records, client_id@, alias@, command@, Need::Nothing) && week_of(tz@, rows) == Some(w@),
                Err(e) => if stats::refused(db@.records, client_id@, alias@, command@, Need::Nothing) {
                    e == StatsError::PatternTooLong
                } else {
                    e == StatsError::Overflow && week_of(tz@, rows) is None
                },
            }
        }),
{
    proof {
        db.lemma_wf();
        stats::lemma_row_count(db@, client_id@, alias@, command@, Need::Nothing);
    }
    let rows = match select_rows(db, client_id, alias, command, Need::Nothing) {
        Ok(rows) => rows,
        Err(e) => {
            return Err(e);
        },
    };
    let weekday = match sum_week_part(tz, &rows, false) {
        Some(p) => p,
        None => {
            return Err(StatsError::Overflow);
        },
    };
    let weekend = match sum_week_part(tz, &rows, true) {
        Some(p) => p,
        None => {
            return Err(StatsError::Overflow);
        },
    };
    let weekday_mean: i64 = if weekday.times > 0 {
        trunc_div(weekday.total, weekday.times)
    } else {
        0
    };
    let weekend_mean: i64 = if weekend.times > 0 {
        trunc_div(weekend.total, weekend.times)
    } else {
        0
    };
    Ok(
        WeekdayWeekendStats {
            weekday_total_seconds: weekday.total,
            weekday_times: weekday.times,
            weekday_mean_seconds: weekday_mean,
            weekend_total_seconds: weekend.total,
            weekend_times: weekend.times,
            weekend_mean_seconds: weekend_mean,
            weekday_total_hr: human_readable_time(weekday.total),
            weekday_mean_hr: human_readable_time(weekday_mean),
            weekend_total_hr: human_readable_time(weekend.total),
            weekend_mean_hr: human_readable_time(weekend_mean),
        },
    )
}

// ---------------------------------------------------------------------------------------------
// Hours of the week
// ---------------------------------------------------------------------------------------------

/// The cell of the week in which `start` falls: 24 cells for each day, from Monday on.
pub open spec fn cell_of(zone_name: Seq<char>, start: int) -> int {
    let local = zone::local_time(zone_name, start);
    calendar::weekday(calendar::day_of(local)) * 24 + calendar::hour_of(local)
}

/// The durations of the rows that start in a cell.
pub open spec fn cell_values(zone_name: Seq<char>, rows: Seq<Row>, cell: int) -> Seq<int>
    decreases rows.len(),
{
    if rows.len() == 0 {
        Seq::empty()
    } else if cell_of(zone_name, rows.last().start as int) == cell {
        cell_values(zone_name, rows.drop_last(), cell).push(rows.last().seconds as int)
    } else {
        cell_values(zone_name, rows.drop_last(), cell)
    }
}

/// The largest value that any cell has held while the rows were entered one by one, at least 0.
pub open spec fn peak(zone_name: Seq<char>, rows: Seq<Row>) -> int
    decreases rows.len(),
{
    if rows.len() == 0 {
        0
    } else {
        let before = peak(zone_name, rows.drop_last());
        let held = arith::sum(cell_values(zone_name, rows, cell_of(zone_name, rows.last().start as int)));
        if held > before {
            held
        } else {
            before
        }
    }
}

/// Whether every cell stays within `i64` while the rows are entered.
pub open spec fn cells_fit(zone_name: Seq<char>, rows: Seq<Row>) -> bool {
    forall|k: int, cell: int|
        0 <= k <= rows.len() && 0 <= cell < 168 ==> arith::fits(
            arith::sum(#[trigger] cell_values(zone_name, rows.take(k), cell)),
        )
}

fn cell_at(tz: &Tz, start: i64) -> (r: usize)
    ensures
        r == cell_of(tz@, start as int),
        r < 168,
{
    let local: i64 = tz.local(start);
    let day: i64 = weekday_of(local_day(local));
    let hour: i64 = floor_mod(local, DAY) / 3600;
    (day * 24 + hour) as usize
}

/// The sums of all cells and the peak, or `None` where a cell does not fit.
fn fill_cells(tz: &Tz, rows: &Vec<Row>) -> (r: Option<(Vec<i64>, i64)>)
    ensures
        r is Some == cells_fit(tz@, rows@),
        match r {
            Some((cells, top)) => {
                &&& cells@.len() == 168
                &&& forall|c: int|
                    0 <= c < 168 ==> #[trigger] cells@[c] == arith::sum(
                        cell_values(tz@, rows@, c),
                    )
                &&& top == peak(tz@, rows@)
            },
            None => true,
        },
{
    let mut cells: Vec<i64> = Vec::new();
    assert(rows@.take(0) =~= Seq::<Row>::empty());
    for c in 0..168usize
        invariant
            cells@.len() == c,
            forall|k: int| 0 <= k < c ==> #[trigger] cells@[k] == 0,
    {
        cells.push(0);
    }
    let mut top: i64 = 0;
    for i in 0..rows.len()
        invariant
            cells@.len() == 168,
            forall|c: int|
                0 <= c < 168 ==> #[trigger] cells@[c] == arith::sum(
                    cell_values(tz@, rows@.take(i as int), c),
                ),
            top == peak(tz@, rows@.take(i as int)),
            forall|k: int, c: int|
                0 <= k <= i && 0 <= c < 168 ==> arith::fits(
                    arith::sum(#[trigger] cell_values(tz@, rows@.take(k), c)),
                ),
    {
        let ghost now = rows@.take(i + 1);
        assert(now.drop_last() =~= rows@.take(i as int));
        let row = rows[i];
        let at: usize = cell_at(tz, row.start);
        proof {
            assert forall|c: int| 0 <= c < 168 implies arith::sum(
                #[trigger] cell_values(tz@, now, c),
            ) == cells@[c] + (if c == at {
                row.seconds as int
            } else {
                0
            }) by {
                let before = cell_values(tz@, rows@.take(i as int), c);
                if c == at {
                    assert(before.push(row.seconds as int).drop_last() =~= before);
                }
            }
            assert(arith::sum(cell_values(tz@, now, at as int)) == cells@[at as int] + row.seconds);
        }
        match cells[at].checked_add(row.seconds) {
            Some(t) => {
                cells.set(at, t);
                if t > top {
                    top = t;
                }
            },
            None => {
                assert(!arith::fits(arith::sum(cell_values(tz@, rows@.take(i + 1), at as int))));
                return None;
            },
        }
    }
    assert(rows@.take(rows@.len() as int) =~= rows@);
    Some((cells, top))
}

fn into_grid(cells: &Vec<i64>) -> (r: Vec<Vec<i64>>)
    requires
        cells@.len() == 168,
    ensures
        r@.len() == 7,
        forall|d: int| 0 <= d < 7 ==> (#[trigger] r@[d])@ == cells@.subrange(d * 24, d * 24 + 24),
{
    let mut r: Vec<Vec<i64>> = Vec::new();
    for d in 0..7usize
        invariant
            cells@.len() == 168,
            r@.len() == d,
            forall|e: int|
                0 <= e < d ==> (#[trigger] r@[e])@ == cells@.subrange(e * 24, e * 24 + 24),
    {
        let mut row: Vec<i64> = Vec::new();
        for h in 0..24usize
            invariant
                d < 7,
                cells@.len() == 168,
                row@ == cells@.subrange(d * 24, d * 24 + h),
        {
            row.push(cells[d * 24 + h]);
            assert(row@ =~= cells@.subrange(d * 24, d * 24 + h + 1));
        }
        r.push(row);
    }
    r
}

/// Whether a map tells the sum of each cell of the week, and the peak.
pub open spec fn maps_hours(zone_name: Seq<char>, rows: Seq<Row>, map: HourlyHeatmap) -> bool {
    &&& cells_fit(zone_name, rows)
    &&& map.grid@.len() == 7
    &&& forall|d: int| 0 <= d < 7 ==> (#[trigger] map.grid@[d])@.len() == 24
    &&& forall|d: int, h: int|
        0 <= d < 7 && 0 <= h < 24 ==> #[trigger] map.grid@[d]@[h] == arith::sum(
            cell_values(zone_name, rows, d * 24 + h),
        )
    &&& map.max_seconds == peak(zone_name, rows)
}

/// Session time by day of the week and hour of the day at which the session starts.
pub fn compute_hourly_heatmap(
    db: &Database,
    client_id: &str,
    alias: &str,
    command: &str,
    tz: &Tz,
) -> (r: Result<HourlyHeatmap, StatsError>)
    requires
        db.wf(),
    ensures
        ({
            let rows = stats::wanted_rows(
                db@.records,
                client_id@,
                alias@,
                command@,
                Need::Nothing,
            );
            match r {
                Ok(map) => !stats::refused(db@.records, client_id@, alias@, command@, Need::Nothing) && maps_hours(tz@, rows, map),
                Err(e) => if stats::refused(db@.records, client_id@, alias@, command@, Need::Nothing) {
                    e == StatsError::PatternTooLong
                } else {
                    e == StatsError::Overflow && !cells_fit(tz@, rows)
                },
            }
        }),
{
    let rows = match select_rows(db, client_id, alias, command, Need::Nothing) {
        Ok(rows) => rows,
        Err(e) => {
            return Err(e);
        },
    };
    match fill_cells(tz, &rows) {
        Some((cells, max_seconds)) => {
            let grid = into_grid(&cells);
            assert forall|d: int, h: int| 0 <= d < 7 && 0 <= h < 24 implies #[trigger] grid@[d]@[h]
                == arith::sum(cell_values(tz@, rows@, d * 24 + h)) by {
                assert(grid@[d]@[h] == cells@[d * 24 + h]);
            }
            Ok(HourlyHeatmap { grid, max_seconds })
        },
        None => Err(StatsError::Overflow),
    }
}

// ---------------------------------------------------------------------------------------------
// Streaks
// ---------------------------------------------------------------------------------------------

/// How many days in a row, up to and including `day`, belong to the set.
pub open spec fn streak(days: Set<i64>, day: int) -> int
    decreases day - MIN_DAY + 1,
{
    if day < MIN_DAY || !days.contains(day as i64) {
        0
    } else {
        1 + streak(days, day - 1)
    }
}

/// Whether `last` is the latest day of the set.
pub open spec fn is_latest(days: Set<i64>, last: i64) -> bool {
    days.contains(last) && forall|d: i64| #[trigger] days.contains(d) ==> d <= last
}

/// Whether `longest` is the length of the longest streak of the set.
pub open spec fn is_longest(days: Set<i64>, longest: int) -> bool {
    &&& forall|d: i64| #[trigger] days.contains(d) ==> streak(days, d as int) <= longest
    &&& exists|d: i64| #[trigger] days.contains(d) && streak(days, d as int) == longest
}

/// The text of the time at which the latest session started; `-` where it is not an instant.
pub open spec fn moment_text(zone_name: Seq<char>, ts: int) -> Seq<char> {
    if calendar::representable(ts) {
        let local = zone::local_time(zone_name, ts);
        calendar::date_text(calendar::day_of(local)) + seq![' '] + calendar::clock_text(local)
    } else {
        "-"@
    }
}

/// Whether `s` tells the streaks of rows: the streak that ends on the latest date of all, the
/// longest one, that date, and the latest start.
pub open spec fn tells_streaks(zone_name: Seq<char>, rows: Seq<Row>, s: StreakStats) -> bool {
    let days = stats::dates(zone_name, rows);
    if rows.len() == 0 {
        &&& s.current_streak == 0
        &&& s.max_streak == 0
        &&& s.last_active_date@ == "-"@
        &&& s.last_active_time_hr@ == "-"@
    } else {
        &&& exists|last: i64|
            {
                &&& #[trigger] is_latest(days, last)
                &&& s.current_streak == streak(days, last as int)
                &&& s.last_active_date@ == calendar::date_text(last as int)
            }
        &&& is_longest(days, s.max_streak as int)
        &&& exists|i: int|
            {
                &&& 0 <= i < rows.len()
                &&& s.last_active_time_hr@ == moment_text(
                    zone_name,
                    (#[trigger] rows[i]).start as int,
                )
                &&& forall|j: int|
                    0 <= j < rows.len() ==> (#[trigger] rows[j]).start <= rows[i].start
            }
    }
}

/// A date is in the set exactly where a row starts on it.
proof fn lemma_dates(zone_name: Seq<char>, rows: Seq<Row>)
    ensures
        forall|i: int|
            0 <= i < rows.len() ==> stats::dates(zone_name, rows).contains(
                zone::date_at(zone_name, (#[trigger] rows[i]).start as int) as i64,
            ),
        forall|d: i64| #[trigger]
            stats::dates(zone_name, rows).contains(d) ==> exists|i: int|
                0 <= i < rows.len() && zone::date_at(
                    zone_name,
                    (#[trigger] rows[i]).start as int,
                ) as i64 == d,
    decreases rows.len(),
{
    if rows.len() > 0 {
        let shorter = rows.drop_last();
        lemma_dates(zone_name, shorter);
        assert forall|i: int| 0 <= i < rows.len() implies stats::dates(zone_name, rows).contains(
            zone::date_at(zone_name, (#[trigger] rows[i]).start as int) as i64,
        ) by {
            if i < shorter.len() {
                assert(shorter[i] == rows[i]);
            }
        }
        assert forall|d: i64| #[trigger] stats::dates(zone_name, rows).contains(d) implies exists|
            i: int,
        |
            0 <= i < rows.len() && zone::date_at(zone_name, (#[trigger] rows[i]).start as int) as i64
                == d by {
            if stats::dates(zone_name, shorter).contains(d) {
                let i = choose|i: int|
                    0 <= i < shorter.len() && zone::date_at(
                        zone_name,
                        (#[trigger] shorter[i]).start as int,
                    ) as i64 == d;
                assert(rows[i] == shorter[i]);
            } else {
                assert(rows[rows.len() - 1] == rows.last());
            }
        }
    }
}

/// Streaks of a list of days in ascending order, which holds all days of a set.
fn measure(days: &Vec<i64>, Ghost(set): Ghost<Set<i64>>) -> (r: (i64, i64))
    requires
        0 < days@.len() <= i64::MAX,
        forall|i: int, j: int| 0 <= i <= j < days@.len() ==> days@[i] <= days@[j],
        forall|i: int| 0 <= i < days@.len() ==> MIN_DAY <= #[trigger] days@[i],
        forall|i: int| 0 <= i < days@.len() ==> set.contains(#[trigger] days@[i]),
        forall|d: i64| #[trigger] set.contains(d) ==> days@.contains(d),
    ensures
        is_latest(set, days@.last()),
        r.0 == streak(set, days@.last() as int),
        1 <= r.0,
        is_longest(set, r.1 as int),
{
    let mut current: i64 = 1;
    let mut longest: i64 = 1;
    proof {
        assert(days@[0] >= MIN_DAY);
        let before = (days@[0] - 1) as i64;
        assert(!set.contains(before)) by {
            if set.contains(before) {
                assert(days@.contains(before));
                let i = choose|i: int| 0 <= i < days@.len() && days@[i] == before;
                assert(days@[0] <= days@[i]);
            }
        }
        assert(streak(set, days@[0] - 1) == 0);
        assert(streak(set, days@[0] as int) == 1);
    }
    for i in 1..days.len()
        invariant
            0 < days@.len() <= i64::MAX,
            forall|a: int, b: int| 0 <= a <= b < days@.len() ==> days@[a] <= days@[b],
            forall|a: int| 0 <= a < days@.len() ==> MIN_DAY <= #[trigger] days@[a],
            forall|a: int| 0 <= a < days@.len() ==> set.contains(#[trigger] days@[a]),
            forall|d: i64| #[trigger] set.contains(d) ==> days@.contains(d),
            1 <= current <= i,
            current == streak(set, days@[i - 1] as int),
            1 <= longest <= i,
            forall|a: int| 0 <= a < i ==> streak(set, #[trigger] days@[a] as int) <= longest,
            exists|a: int| 0 <= a < i && streak(set, #[trigger] days@[a] as int) == longest,
    {
        let day: i64 = days[i];
        let previous: i64 = days[i - 1];
        assert(days@[i as int] >= MIN_DAY);
        if day == previous {
            // The same date again.
        } else if day == previous + 1 {
            current = current + 1;
        } else {
            proof {
                let before = (day - 1) as i64;
                assert(!set.contains(before)) by {
                    if set.contains(before) {
                        assert(days@.contains(before));
                        let k = choose|k: int| 0 <= k < days@.len() && days@[k] == before;
                        if k < i {
                            assert(days@[k] <= days@[i - 1]);
                        } else {
                            assert(days@[i as int] <= days@[k]);
                        }
                    }
                }
                assert(streak(set, day - 1) == 0);
            }
            current = 1;
        }
        assert(current == streak(set, days@[i as int] as int));
        if current > longest {
            longest = current;
        }
    }
    proof {
        let last = days@.last();
        assert forall|d: i64| #[trigger] set.contains(d) implies d <= last && streak(
            set,
            d as int,
        ) <= longest by {
            assert(days@.contains(d));
            let k = choose|k: int| 0 <= k < days@.len() && days@[k] == d;
            assert(days@[k] <= days@[days@.len() - 1]);
        }
        let a = choose|a: int|
            0 <= a < days@.len() && streak(set, #[trigger] days@[a] as int) == longest;
        assert(set.contains(days@[a]));
        assert(set.contains(days@[days@.len() - 1]));
    }
    (current, longest)
}

fn moment_string(tz: &Tz, ts: i64) -> (r: String)
    ensures
        r@ == moment_text(tz@, ts as int),
{
    match instant(ts) {
        Some(t) => {
            let local: i64 = tz.local(t);
            let mut r = date_string(local_day(local));
            r.push(' ');
            r.append(clock_string(local).as_str());
            assert(r@ =~= moment_text(tz@, ts as int));
            r
        },
        None => "-".to_owned(),
    }
}

/// The local dates of the rows, in ascending order.
fn sorted_dates(tz: &Tz, rows: &Vec<Row>) -> (r: Vec<i64>)
    ensures
        r@.len() == rows@.len(),
        forall|i: int, j: int| 0 <= i <= j < r@.len() ==> r@[i] <= r@[j],
        forall|i: int| 0 <= i < r@.len() ==> calendar::day_in_range(#[trigger] r@[i] as int),
        forall|i: int|
            0 <= i < r@.len() ==> stats::dates(tz@, rows@).contains(#[trigger] r@[i]),
        forall|d: i64| #[trigger] stats::dates(tz@, rows@).contains(d) ==> r@.contains(d),
{
    let mut all: Vec<i64> = Vec::new();
    for i in 0..rows.len()
        invariant
            all@.len() == i,
            forall|k: int|
                0 <= k < i ==> #[trigger] all@[k] == zone::date_at(tz@, rows@[k].start as int)
                    && calendar::day_in_range(all@[k] as int),
    {
        all.push(tz.date(rows[i].start));
    }
    let sorted = sort_keys(&all, false);
    let ghost positions = order::positions(sorted@);
    let mut r: Vec<i64> = Vec::new();
    for i in 0..sorted.len()
        invariant
            positions == order::positions(sorted@),
            order::arranged(all@, false, 0, all@.len() as int, positions),
            r@.len() == i,
            forall|k: int| 0 <= k < i ==> #[trigger] r@[k] == all@[positions[k]],
    {
        assert(positions[i as int] == sorted@[i as int]);
        r.push(all[sorted[i]]);
    }
    proof {
        lemma_dates(tz@, rows@);
        assert forall|i: int, j: int| 0 <= i <= j < r@.len() implies r@[i] <= r@[j] by {
            if i < j {
                assert(order::precedes(all@, false, positions[i], positions[j]));
            }
        }
        assert forall|i: int| 0 <= i < r@.len() implies stats::dates(tz@, rows@).contains(
            #[trigger] r@[i],
        ) && calendar::day_in_range(r@[i] as int) by {
            let k = positions[i];
            assert(all@[k] == zone::date_at(tz@, rows@[k].start as int));
        }
        assert forall|d: i64| #[trigger] stats::dates(tz@, rows@).contains(d) implies r@.contains(
            d,
        ) by {
            let k = choose|k: int|
                0 <= k < rows@.len() && zone::date_at(
                    tz@,
                    (#[trigger] rows@[k]).start as int,
                ) as i64 == d;
            assert(all@[k] == d);
            assert(positions.contains(k));
            let i = choose|i: int| 0 <= i < positions.len() && positions[i] == k;
            assert(r@[i] == d);
        }
    }
    r
}

/// The streaks of rows.
pub fn streaks_of(tz: &Tz, rows: &Vec<Row>) -> (r: StreakStats)
    requires
        rows@.len() <= i64::MAX,
    ensures
        tells_streaks(tz@, rows@, r),
        rows@.len() > 0 ==> 1 <= r.current_streak,
{
    if rows.len() == 0 {
        return StreakStats {
            current_streak: 0,
            max_streak: 0,
            last_active_date: "-".to_owned(),
            last_active_time_hr: "-".to_owned(),
        };
    }
    let days = sorted_dates(tz, rows);
    let ghost set = stats::dates(tz@, rows@);
    let (current_streak, max_streak) = measure(&days, Ghost(set));
    let last: i64 = days[days.len() - 1];
    let mut latest: usize = 0;
    for i in 1..rows.len()
        invariant
            latest < i,
            i <= rows@.len(),
            forall|j: int| 0 <= j < i ==> (#[trigger] rows@[j]).start <= rows@[latest as int].start,
    {
        if rows[i].start > rows[latest].start {
            latest = i;
        }
    }
    let r = StreakStats {
        current_streak,
        max_streak,
        last_active_date: date_string(last),
        last_active_time_hr: moment_string(tz, rows[latest].start),
    };
    assert(is_latest(set, last));
    assert(r.last_active_time_hr@ == moment_text(tz@, rows@[latest as int].start as int));
    r
}

/// The streaks of the wanted sessions that took some time.
pub fn compute_streaks(
    db: &Database,
    client_id: &str,
    alias: &str,
    command: &str,
    tz: &Tz,
) -> (r: Result<StreakStats, StatsError>)
    requires
        db.wf(),
    ensures
        ({
            let rows = stats::wanted_rows(
                db@.records,
                client_id@,
                alias@,
                command@,
                Need::Positive,
            );
            match r {
                Ok(s) => {
                    &&& !stats::refused(db@.records, client_id@, alias@, command@, Need::Positive)
                    &&& tells_streaks(tz@, rows, s)
                    &&& rows.len() > 0 ==> 1 <= s.current_streak
                },
                Err(e) => e == StatsError::PatternTooLong && stats::refused(
                    db@.records,
                    client_id@,
                    alias@,
                    command@,
                    Need::Positive,
                ),
            }
        }),
{
    proof {
        db.lemma_wf();
        stats::lemma_row_count(db@, client_id@, alias@, command@, Need::Positive);
    }
    match select_rows(db, client_id, alias, command, Need::Positive) {
        Ok(rows) => Ok(streaks_of(tz, &rows)),
        Err(e) => Err(e),
    }
}

} // verus!
