//! What the figures by month, by day, by hour of the week, on weekends and in streaks tell of the
//! stored records.

use crate::arith;
use crate::calendar;
use crate::db::RecordView;
use crate::order;
use crate::rhythm;
use crate::rhythm::{HourlyHeatmap, MonthView, StreakStats, WeekView};
use crate::stats;
use crate::stats::{Need, Row};
use crate::summary_laws::{counted, is_mean, lemma_counted, lemma_mean, lemma_rows_over, took};
use crate::summary_laws;
use crate::sums;
use crate::tally;
use crate::text;
use crate::zone;
use vstd::prelude::*;

verus! {

// ---------------------------------------------------------------------------------------------
// Groups
// ---------------------------------------------------------------------------------------------

/// The values of a key are those of its items.
pub proof fn lemma_values_over(items: Seq<tally::Item>, key: Seq<char>)
    ensures
        arith::sum(tally::values_of(items, key)) == sums::over(
            items,
            |x: tally::Item|
                if x.key == key {
                    x.seconds as int
                } else {
                    0
                },
        ),
        tally::values_of(items, key).len() == sums::over(
            items,
            |x: tally::Item|
                if x.key == key {
                    1int
                } else {
                    0
                },
        ),
    decreases items.len(),
{
    let long = |x: tally::Item|
        if x.key == key {
            x.seconds as int
        } else {
            0
        };
    let one = |x: tally::Item|
        if x.key == key {
            1int
        } else {
            0
        };
    if items.len() > 0 {
        lemma_values_over(items.drop_last(), key);
        sums::lemma_over_last(items, long);
        sums::lemma_over_last(items, one);
        let before = tally::values_of(items.drop_last(), key);
        assert(before.push(items.last().seconds as int).drop_last() =~= before);
    }
}

proof fn lemma_groups_over(groups: Seq<tally::GroupView>)
    ensures
        sums::over(groups, |g: tally::GroupView| g.seconds as int) == crate::laws::group_sum(groups),
    decreases groups.len(),
{
    if groups.len() > 0 {
        sums::lemma_over_last(groups, |g: tally::GroupView| g.seconds as int);
        lemma_groups_over(groups.drop_last());
    }
}

// ---------------------------------------------------------------------------------------------
// Months
// ---------------------------------------------------------------------------------------------

/// The month, as `YYYY-MM`, on the wall calendar of a zone when a session starts.
pub open spec fn month_at(zone_name: Seq<char>, r: RecordView) -> Seq<char> {
    calendar::month_text(calendar::day_of(zone::local_time(zone_name, r.start_time as int)))
}

/// Of each month the trend tells the time and the number of the counted sessions that start in it,
/// and the time in words. The months are those with a session, each once, in the order of their
/// texts. Together they hold the time of all counted sessions.
pub proof fn law_months_hold_their_sessions(
    records: Seq<RecordView>,
    client: Seq<char>,
    alias: Seq<char>,
    command: Seq<char>,
    zone_name: Seq<char>,
    months: Seq<MonthView>,
)
    requires
        records.len() <= i64::MAX,
        tally::tally(
            rhythm::monthly_items(
                zone_name,
                stats::by_start(
                    stats::wanted_rows(records, client, alias, command, Need::Nothing),
                ),
            ),
        ) is Some,
        months == rhythm::months_of(
            tally::tally(
                rhythm::monthly_items(
                    zone_name,
                    stats::by_start(
                        stats::wanted_rows(records, client, alias, command, Need::Nothing),
                    ),
                ),
            )->0,
        ),
    ensures
        forall|k: int|
            0 <= k < months.len() ==> {
                let m = #[trigger] months[k];
                &&& m.total_seconds == sums::over(
                    records,
                    |r: RecordView|
                        if counted(r, client, alias, command) && month_at(zone_name, r)
                            == m.year_month {
                            took(r)
                        } else {
                            0
                        },
                )
                &&& m.total_times == sums::over(
                    records,
                    |r: RecordView|
                        if counted(r, client, alias, command) && month_at(zone_name, r)
                            == m.year_month {
                            1int
                        } else {
                            0
                        },
                )
                &&& m.total_times > 0
                &&& m.total_seconds_hr == stats::duration_text(m.total_seconds)
            },
        forall|i: int|
            0 <= i < records.len() && counted(#[trigger] records[i], client, alias, command)
                ==> exists|k: int|
                0 <= k < months.len() && (#[trigger] months[k]).year_month == month_at(
                    zone_name,
                    records[i],
                ),
        forall|a: int, b: int|
            0 <= a < b < months.len() ==> text::before(
                (#[trigger] months[a]).year_month,
                (#[trigger] months[b]).year_month,
            ),
        sums::over(months, |m: MonthView| m.total_seconds) == sums::over(
            records,
            |r: RecordView|
                if counted(r, client, alias, command) {
                    took(r)
                } else {
                    0
                },
        ),
{
    let plain_rows = stats::wanted_rows(records, client, alias, command, Need::Nothing);
    let rows = stats::by_start(plain_rows);
    let items = rhythm::monthly_items(zone_name, rows);
    let groups = tally::tally(items)->0;
    order::lemma_kept_len(records, stats::wants(client, alias, command, Need::Nothing));
    order::lemma_sorted_len(plain_rows, stats::row_starts(plain_rows), false);
    tally::lemma_tally_totals(items);
    let to_item = |r: Row|
        tally::Item {
            key: calendar::month_text(
                calendar::day_of(zone::local_time(zone_name, r.start as int)),
            ),
            seconds: r.seconds,
        };
    assert(items =~= rows.map_values(to_item));
    assert forall|k: int| 0 <= k < months.len() implies {
        let m = #[trigger] months[k];
        &&& m.total_seconds == sums::over(
            records,
            |r: RecordView|
                if counted(r, client, alias, command) && month_at(zone_name, r) == m.year_month {
                    took(r)
                } else {
                    0
                },
        )
        &&& m.total_times == sums::over(
            records,
            |r: RecordView|
                if counted(r, client, alias, command) && month_at(zone_name, r) == m.year_month {
                    1int
                } else {
                    0
                },
        )
        &&& m.total_times > 0
        &&& m.total_seconds_hr == stats::duration_text(m.total_seconds)
    } by {
        let m = months[k];
        let key = m.year_month;
        assert(groups[k].key == key);
        lemma_values_over(items, key);
        let long = |x: tally::Item|
            if x.key == key {
                x.seconds as int
            } else {
                0
            };
        let one = |x: tally::Item|
            if x.key == key {
                1int
            } else {
                0
            };
        sums::lemma_over_map(rows, to_item, long);
        sums::lemma_over_map(rows, to_item, one);
        let long_row = |r: Row| long(to_item(r));
        let one_row = |r: Row| one(to_item(r));
        lemma_rows_over(records, client, alias, command, long_row);
        lemma_rows_over(records, client, alias, command, one_row);
        sums::lemma_over_same(
            records,
            |r: RecordView|
                if counted(r, client, alias, command) {
                    long_row(Row { start: r.start_time, seconds: took(r) as i64 })
                } else {
                    0
                },
            |r: RecordView|
                if counted(r, client, alias, command) && month_at(zone_name, r) == key {
                    took(r)
                } else {
                    0
                },
        );
        sums::lemma_over_same(
            records,
            |r: RecordView|
                if counted(r, client, alias, command) {
                    one_row(Row { start: r.start_time, seconds: took(r) as i64 })
                } else {
                    0
                },
            |r: RecordView|
                if counted(r, client, alias, command) && month_at(zone_name, r) == key {
                    1int
                } else {
                    0
                },
        );
    }
    assert forall|i: int|
        0 <= i < records.len() && counted(
            #[trigger] records[i],
            client,
            alias,
            command,
        ) implies exists|k: int|
        0 <= k < months.len() && (#[trigger] months[k]).year_month == month_at(
            zone_name,
            records[i],
        ) by {
        summary_laws::lemma_rows_members(records, client, alias, command, rows);
        let row = Row { start: records[i].start_time, seconds: took(records[i]) as i64 };
        assert(rows.contains(row));
        let q = choose|q: int| 0 <= q < rows.len() && rows[q] == row;
        tally::lemma_value_present(items, q);
        let k = choose|k: int| 0 <= k < groups.len() && #[trigger] groups[k].key == items[q].key;
        assert(months[k].year_month == items[q].key);
    }
    assert forall|a: int, b: int| 0 <= a < b < months.len() implies text::before(
        (#[trigger] months[a]).year_month,
        (#[trigger] months[b]).year_month,
    ) by {
        assert(text::before(groups[a].key, groups[b].key));
    }
    // The time of all months.
    crate::laws::law_groups_hold_all(items);
    lemma_groups_over(groups);
    sums::lemma_over_map(
        groups,
        |g: tally::GroupView| rhythm::month_of(g),
        |m: MonthView| m.total_seconds,
    );
    sums::lemma_over_same(
        groups,
        |g: tally::GroupView|
            (|m: MonthView| m.total_seconds)((|g: tally::GroupView| rhythm::month_of(g))(g)),
        |g: tally::GroupView| g.seconds as int,
    );
    assert(months =~= groups.map_values(|g: tally::GroupView| rhythm::month_of(g)));
    let all = |x: tally::Item| x.seconds as int;
    assert(crate::laws::item_seconds(items) =~= items.map_values(all));
    sums::lemma_over_map(rows, to_item, all);
    let all_row = |r: Row| all(to_item(r));
    lemma_rows_over(records, client, alias, command, all_row);
    sums::lemma_over_same(
        records,
        |r: RecordView|
            if counted(r, client, alias, command) {
                all_row(Row { start: r.start_time, seconds: took(r) as i64 })
            } else {
                0
            },
        |r: RecordView|
            if counted(r, client, alias, command) {
                took(r)
            } else {
                0
            },
    );
}

// ---------------------------------------------------------------------------------------------
// Days
// ---------------------------------------------------------------------------------------------

/// The date, as `YYYY-MM-DD`, on the wall calendar of a zone when a session starts.
pub open spec fn date_of(zone_name: Seq<char>, r: RecordView) -> Seq<char> {
    calendar::date_text(zone::date_at(zone_name, r.start_time as int))
}

/// How long a session took, at least no time.
pub open spec fn took_some(r: RecordView) -> int {
    if took(r) > 0 {
        took(r)
    } else {
        0
    }
}

/// Of each date the daily data tell the time of the counted sessions that start on it. The dates are
/// those with a session, each once, in the order of their texts.
pub proof fn law_days_hold_their_sessions(
    records: Seq<RecordView>,
    client: Seq<char>,
    alias: Seq<char>,
    command: Seq<char>,
    zone_name: Seq<char>,
    days: Seq<(Seq<char>, i64)>,
)
    requires
        records.len() <= i64::MAX,
        tally::tally(
            rhythm::daily_items(
                zone_name,
                stats::wanted_rows(records, client, alias, command, Need::Nothing),
            ),
        ) is Some,
        days == rhythm::day_pairs(
            tally::tally(
                rhythm::daily_items(
                    zone_name,
                    stats::wanted_rows(records, client, alias, command, Need::Nothing),
                ),
            )->0,
        ),
    ensures
        forall|k: int|
            0 <= k < days.len() ==> {
                let d = #[trigger] days[k];
                &&& d.1 == sums::over(
                    records,
                    |r: RecordView|
                        if counted(r, client, alias, command) && date_of(zone_name, r) == d.0 {
                            took_some(r)
                        } else {
                            0
                        },
                )
                &&& exists|i: int|
                    0 <= i < records.len() && counted(#[trigger] records[i], client, alias, command)
                        && date_of(zone_name, records[i]) == d.0
            },
        forall|i: int|
            0 <= i < records.len() && counted(#[trigger] records[i], client, alias, command)
                ==> exists|k: int|
                0 <= k < days.len() && (#[trigger] days[k]).0 == date_of(zone_name, records[i]),
        forall|a: int, b: int|
            0 <= a < b < days.len() ==> text::before((#[trigger] days[a]).0, (#[trigger] days[b]).0),
{
    let rows = stats::wanted_rows(records, client, alias, command, Need::Nothing);
    let items = rhythm::daily_items(zone_name, rows);
    let groups = tally::tally(items)->0;
    order::lemma_kept_len(records, stats::wants(client, alias, command, Need::Nothing));
    tally::lemma_tally_totals(items);
    let to_item = |r: Row|
        tally::Item {
            key: calendar::date_text(zone::date_at(zone_name, r.start as int)),
            seconds: if r.seconds > 0 {
                r.seconds
            } else {
                0
            },
        };
    assert(items =~= rows.map_values(to_item));
    assert forall|k: int| 0 <= k < days.len() implies {
        let d = #[trigger] days[k];
        &&& d.1 == sums::over(
            records,
            |r: RecordView|
                if counted(r, client, alias, command) && date_of(zone_name, r) == d.0 {
                    took_some(r)
                } else {
                    0
                },
        )
        &&& exists|i: int|
            0 <= i < records.len() && counted(#[trigger] records[i], client, alias, command)
                && date_of(zone_name, records[i]) == d.0
    } by {
        let key = days[k].0;
        assert(groups[k].key == key);
        lemma_values_over(items, key);
        let long = |x: tally::Item|
            if x.key == key {
                x.seconds as int
            } else {
                0
            };
        sums::lemma_over_map(rows, to_item, long);
        let long_row = |r: Row| long(to_item(r));
        lemma_rows_over(records, client, alias, command, long_row);
        sums::lemma_over_same(
            records,
            |r: RecordView|
                if counted(r, client, alias, command) {
                    long_row(Row { start: r.start_time, seconds: took(r) as i64 })
                } else {
                    0
                },
            |r: RecordView|
                if counted(r, client, alias, command) && date_of(zone_name, r) == key {
                    took_some(r)
                } else {
                    0
                },
        );
        let q = tally::lemma_value_origin(items, key);
        lemma_row_origin(records, client, alias, command, Need::Nothing, q);
    }
    assert forall|i: int|
        0 <= i < records.len() && counted(
            #[trigger] records[i],
            client,
            alias,
            command,
        ) implies exists|k: int|
        0 <= k < days.len() && (#[trigger] days[k]).0 == date_of(zone_name, records[i]) by {
        let q = lemma_row_of_record(records, client, alias, command, Need::Nothing, i);
        tally::lemma_value_present(items, q);
        let k = choose|k: int| 0 <= k < groups.len() && #[trigger] groups[k].key == items[q].key;
        assert(days[k].0 == items[q].key);
    }
    assert forall|a: int, b: int| 0 <= a < b < days.len() implies text::before(
        (#[trigger] days[a]).0,
        (#[trigger] days[b]).0,
    ) by {
        assert(text::before(groups[a].key, groups[b].key));
    }
}

/// What is asked of a duration beside the filters.
pub open spec fn needed(r: RecordView, need: Need) -> bool {
    match need {
        Need::Nothing => true,
        Need::Known => r.duration_seconds is Some,
        Need::Positive => r.duration_seconds is Some && r.duration_seconds->0 > 0,
    }
}

/// Each row is that of a counted record.
pub proof fn lemma_row_origin(
    records: Seq<RecordView>,
    client: Seq<char>,
    alias: Seq<char>,
    command: Seq<char>,
    need: Need,
    q: int,
) -> (i: int)
    requires
        0 <= q < stats::wanted_rows(records, client, alias, command, need).len(),
    ensures
        0 <= i < records.len(),
        counted(records[i], client, alias, command),
        needed(records[i], need),
        stats::wanted_rows(records, client, alias, command, need)[q] == (Row {
            start: records[i].start_time,
            seconds: took(records[i]) as i64,
        }),
{
    let wanted = stats::wants(client, alias, command, need);
    let kept = order::kept(records, wanted);
    order::lemma_kept_member(records, wanted);
    assert(records.contains(kept[q]));
    let i = choose|i: int| 0 <= i < records.len() && records[i] == kept[q];
    lemma_counted(records[i], client, alias, command);
    assert(wanted(kept[q]));
    i
}

/// Each counted record has a row.
pub proof fn lemma_row_of_record(
    records: Seq<RecordView>,
    client: Seq<char>,
    alias: Seq<char>,
    command: Seq<char>,
    need: Need,
    i: int,
) -> (q: int)
    requires
        0 <= i < records.len(),
        counted(records[i], client, alias, command),
        needed(records[i], need),
    ensures
        0 <= q < stats::wanted_rows(records, client, alias, command, need).len(),
        stats::wanted_rows(records, client, alias, command, need)[q] == (Row {
            start: records[i].start_time,
            seconds: took(records[i]) as i64,
        }),
{
    let wanted = stats::wants(client, alias, command, need);
    let kept = order::kept(records, wanted);
    lemma_counted(records[i], client, alias, command);
    assert(wanted(records[i]));
    summary_laws::lemma_kept_holds(records, wanted, i);
    let q = choose|q: int| 0 <= q < kept.len() && kept[q] == records[i];
    assert(stats::wanted_rows(records, client, alias, command, need)[q] == stats::row_of(kept[q]));
    q
}

// ---------------------------------------------------------------------------------------------
// Days of the week and hours
// ---------------------------------------------------------------------------------------------

/// The first of January 1970 was a Thursday, each day of the week follows the one before, and the
/// date and the hour that a clock shows are those between whose ends the reading lies.
pub proof fn law_clock_and_week(day: int, local: int)
    ensures
        calendar::weekday(calendar::EPOCH_DAY as int) == 3,
        0 <= calendar::weekday(day) < 7,
        calendar::weekday(day + 1) == (if calendar::weekday(day) == 6 {
            0
        } else {
            calendar::weekday(day) + 1
        }),
        (calendar::day_of(local) - calendar::EPOCH_DAY) * 86400 + calendar::hour_of(local) * 3600
            <= local < (calendar::day_of(local) - calendar::EPOCH_DAY) * 86400 + calendar::hour_of(
            local,
        ) * 3600 + 3600,
        0 <= calendar::hour_of(local) < 24,
        0 <= calendar::minute_of(local) < 60,
        (calendar::day_of(local) - calendar::EPOCH_DAY) * 86400 + calendar::hour_of(local) * 3600
            + calendar::minute_of(local) * 60 <= local < (calendar::day_of(local)
            - calendar::EPOCH_DAY) * 86400 + calendar::hour_of(local) * 3600 + calendar::minute_of(
            local,
        ) * 60 + 60,
{
}

/// The day of the week, from 0 for Monday, on which a session starts by the clock of a zone.
pub open spec fn weekday_at(zone_name: Seq<char>, r: RecordView) -> int {
    calendar::weekday(calendar::day_of(zone::local_time(zone_name, r.start_time as int)))
}

/// The hour in which a session starts by the clock of a zone.
pub open spec fn hour_at(zone_name: Seq<char>, r: RecordView) -> int {
    calendar::hour_of(zone::local_time(zone_name, r.start_time as int))
}

proof fn lemma_part_over(zone_name: Seq<char>, rows: Seq<Row>, weekend: bool)
    ensures
        arith::sum(rhythm::week_part(zone_name, rows, weekend)) == sums::over(
            rows,
            |r: Row|
                if rhythm::on_weekend(zone_name, r) == weekend {
                    r.seconds as int
                } else {
                    0
                },
        ),
        rhythm::week_part(zone_name, rows, weekend).len() == sums::over(
            rows,
            |r: Row|
                if rhythm::on_weekend(zone_name, r) == weekend {
                    1int
                } else {
                    0
                },
        ),
    decreases rows.len(),
{
    let long = |r: Row|
        if rhythm::on_weekend(zone_name, r) == weekend {
            r.seconds as int
        } else {
            0
        };
    let one = |r: Row|
        if rhythm::on_weekend(zone_name, r) == weekend {
            1int
        } else {
            0
        };
    if rows.len() > 0 {
        lemma_part_over(zone_name, rows.drop_last(), weekend);
        sums::lemma_over_last(rows, long);
        sums::lemma_over_last(rows, one);
        let before = rhythm::week_part(zone_name, rows.drop_last(), weekend);
        assert(before.push(rows.last().seconds as int).drop_last() =~= before);
    }
}

/// The figures of weekends are those of the counted sessions that start on a Saturday or Sunday, the
/// others those of the sessions from Monday to Friday: their number, their time, their mean, and
/// these in words.
pub proof fn law_weekends_hold_their_sessions(
    records: Seq<RecordView>,
    client: Seq<char>,
    alias: Seq<char>,
    command: Seq<char>,
    zone_name: Seq<char>,
    w: WeekView,
)
    requires
        rhythm::week_of(
            zone_name,
            stats::wanted_rows(records, client, alias, command, Need::Nothing),
        ) == Some(w),
    ensures
        w.weekend_total_seconds == sums::over(
            records,
            |r: RecordView|
                if counted(r, client, alias, command) && (weekday_at(zone_name, r) == 5
                    || weekday_at(zone_name, r) == 6) {
                    took(r)
                } else {
                    0
                },
        ),
        w.weekend_times == sums::over(
            records,
            |r: RecordView|
                if counted(r, client, alias, command) && (weekday_at(zone_name, r) == 5
                    || weekday_at(zone_name, r) == 6) {
                    1int
                } else {
                    0
                },
        ),
        w.weekday_total_seconds == sums::over(
            records,
            |r: RecordView|
                if counted(r, client, alias, command) && 0 <= weekday_at(zone_name, r) < 5 {
                    took(r)
                } else {
                    0
                },
        ),
        w.weekday_times == sums::over(
            records,
            |r: RecordView|
                if counted(r, client, alias, command) && 0 <= weekday_at(zone_name, r) < 5 {
                    1int
                } else {
                    0
                },
        ),
        is_mean(w.weekend_mean_seconds, w.weekend_total_seconds, w.weekend_times),
        is_mean(w.weekday_mean_seconds, w.weekday_total_seconds, w.weekday_times),
        w.weekend_total_hr == stats::duration_text(w.weekend_total_seconds),
        w.weekend_mean_hr == stats::duration_text(w.weekend_mean_seconds),
        w.weekday_total_hr == stats::duration_text(w.weekday_total_seconds),
        w.weekday_mean_hr == stats::duration_text(w.weekday_mean_seconds),
{
    lemma_week_sums(records, client, alias, command, zone_name, true);
    lemma_week_sums(records, client, alias, command, zone_name, false);
    lemma_mean(w.weekend_total_seconds, w.weekend_times);
    lemma_mean(w.weekday_total_seconds, w.weekday_times);
    sums::lemma_over_same(
        records,
        |r: RecordView|
            if counted(r, client, alias, command) && (weekday_at(zone_name, r) >= 5) == true {
                took(r)
            } else {
                0
            },
        |r: RecordView|
            if counted(r, client, alias, command) && (weekday_at(zone_name, r) == 5 || weekday_at(
                zone_name,
                r,
            ) == 6) {
                took(r)
            } else {
                0
            },
    );
    sums::lemma_over_same(
        records,
        |r: RecordView|
            if counted(r, client, alias, command) && (weekday_at(zone_name, r) >= 5) == true {
                1int
            } else {
                0
            },
        |r: RecordView|
            if counted(r, client, alias, command) && (weekday_at(zone_name, r) == 5 || weekday_at(
                zone_name,
                r,
            ) == 6) {
                1int
            } else {
                0
            },
    );
    sums::lemma_over_same(
        records,
        |r: RecordView|
            if counted(r, client, alias, command) && (weekday_at(zone_name, r) >= 5) == false {
                took(r)
            } else {
                0
            },
        |r: RecordView|
            if counted(r, client, alias, command) && 0 <= weekday_at(zone_name, r) < 5 {
                took(r)
            } else {
                0
            },
    );
    sums::lemma_over_same(
        records,
        |r: RecordView|
            if counted(r, client, alias, command) && (weekday_at(zone_name, r) >= 5) == false {
                1int
            } else {
                0
            },
        |r: RecordView|
            if counted(r, client, alias, command) && 0 <= weekday_at(zone_name, r) < 5 {
                1int
            } else {
                0
            },
    );
}

proof fn lemma_week_sums(
    records: Seq<RecordView>,
    client: Seq<char>,
    alias: Seq<char>,
    command: Seq<char>,
    zone_name: Seq<char>,
    weekend: bool,
)
    ensures
        ({
            let part = rhythm::week_part(
                zone_name,
                stats::wanted_rows(records, client, alias, command, Need::Nothing),
                weekend,
            );
            &&& arith::sum(part) == sums::over(
                records,
                |r: RecordView|
                    if counted(r, client, alias, command) && (weekday_at(zone_name, r) >= 5)
                        == weekend {
                        took(r)
                    } else {
                        0
                    },
            )
            &&& part.len() == sums::over(
                records,
                |r: RecordView|
                    if counted(r, client, alias, command) && (weekday_at(zone_name, r) >= 5)
                        == weekend {
                        1int
                    } else {
                        0
                    },
            )
        }),
{
    let rows = stats::wanted_rows(records, client, alias, command, Need::Nothing);
    lemma_part_over(zone_name, rows, weekend);
    let long = |r: Row|
        if rhythm::on_weekend(zone_name, r) == weekend {
            r.seconds as int
        } else {
            0
        };
    let one = |r: Row|
        if rhythm::on_weekend(zone_name, r) == weekend {
            1int
        } else {
            0
        };
    lemma_rows_over(records, client, alias, command, long);
    lemma_rows_over(records, client, alias, command, one);
    sums::lemma_over_same(
        records,
        |r: RecordView|
            if counted(r, client, alias, command) {
                long(Row { start: r.start_time, seconds: took(r) as i64 })
            } else {
                0
            },
        |r: RecordView|
            if counted(r, client, alias, command) && (weekday_at(zone_name, r) >= 5) == weekend {
                took(r)
            } else {
                0
            },
    );
    sums::lemma_over_same(
        records,
        |r: RecordView|
            if counted(r, client, alias, command) {
                one(Row { start: r.start_time, seconds: took(r) as i64 })
            } else {
                0
            },
        |r: RecordView|
            if counted(r, client, alias, command) && (weekday_at(zone_name, r) >= 5) == weekend {
                1int
            } else {
                0
            },
    );
}

proof fn lemma_cell_over(zone_name: Seq<char>, rows: Seq<Row>, cell: int)
    ensures
        arith::sum(rhythm::cell_values(zone_name, rows, cell)) == sums::over(
            rows,
            |r: Row|
                if rhythm::cell_of(zone_name, r.start as int) == cell {
                    r.seconds as int
                } else {
                    0
                },
        ),
    decreases rows.len(),
{
    let long = |r: Row|
        if rhythm::cell_of(zone_name, r.start as int) == cell {
            r.seconds as int
        } else {
            0
        };
    if rows.len() > 0 {
        lemma_cell_over(zone_name, rows.drop_last(), cell);
        sums::lemma_over_last(rows, long);
        let before = rhythm::cell_values(zone_name, rows.drop_last(), cell);
        assert(before.push(rows.last().seconds as int).drop_last() =~= before);
    }
}

/// A cell of the heat map holds the time of the counted sessions that start on its day of the week
/// and in its hour.
pub proof fn law_hours_hold_their_sessions(
    records: Seq<RecordView>,
    client: Seq<char>,
    alias: Seq<char>,
    command: Seq<char>,
    zone_name: Seq<char>,
    map: HourlyHeatmap,
    day: int,
    hour: int,
)
    requires
        rhythm::maps_hours(
            zone_name,
            stats::wanted_rows(records, client, alias, command, Need::Nothing),
            map,
        ),
        0 <= day < 7,
        0 <= hour < 24,
    ensures
        map.grid@.len() == 7,
        map.grid@[day]@.len() == 24,
        map.grid@[day]@[hour] == sums::over(
            records,
            |r: RecordView|
                if counted(r, client, alias, command) && weekday_at(zone_name, r) == day && hour_at(
                    zone_name,
                    r,
                ) == hour {
                    took(r)
                } else {
                    0
                },
        ),
{
    let rows = stats::wanted_rows(records, client, alias, command, Need::Nothing);
    let cell = day * 24 + hour;
    lemma_cell_over(zone_name, rows, cell);
    let long = |r: Row|
        if rhythm::cell_of(zone_name, r.start as int) == cell {
            r.seconds as int
        } else {
            0
        };
    lemma_rows_over(records, client, alias, command, long);
    sums::lemma_over_same(
        records,
        |r: RecordView|
            if counted(r, client, alias, command) {
                long(Row { start: r.start_time, seconds: took(r) as i64 })
            } else {
                0
            },
        |r: RecordView|
            if counted(r, client, alias, command) && weekday_at(zone_name, r) == day && hour_at(
                zone_name,
                r,
            ) == hour {
                took(r)
            } else {
                0
            },
    );
}

proof fn lemma_cells_grow(zone_name: Seq<char>, rows: Seq<Row>, cell: int)
    requires
        forall|k: int| 0 <= k < rows.len() ==> (#[trigger] rows[k]).seconds >= 0,
    ensures
        0 <= arith::sum(rhythm::cell_values(zone_name, rows, cell)) <= rhythm::peak(zone_name, rows),
        rhythm::peak(zone_name, rows) == 0 || exists|c: int|
            0 <= c < 168 && rhythm::peak(zone_name, rows) == arith::sum(
                #[trigger] rhythm::cell_values(zone_name, rows, c),
            ),
    decreases rows.len(),
{
    if rows.len() > 0 {
        let rest = rows.drop_last();
        assert forall|k: int| 0 <= k < rest.len() implies (#[trigger] rest[k]).seconds >= 0 by {
            assert(rest[k] == rows[k]);
        }
        let last = rows[rows.len() - 1];
        let own = rhythm::cell_of(zone_name, last.start as int);
        law_clock_and_week(
            calendar::day_of(zone::local_time(zone_name, last.start as int)),
            zone::local_time(zone_name, last.start as int),
        );
        assert(0 <= own < 168);
        lemma_cells_grow(zone_name, rest, cell);
        lemma_cells_grow(zone_name, rest, own);
        let before = rhythm::cell_values(zone_name, rest, own);
        assert(before.push(last.seconds as int).drop_last() =~= before);
        assert(arith::sum(rhythm::cell_values(zone_name, rows, own)) == arith::sum(before)
            + last.seconds);
        if rhythm::peak(zone_name, rows) != 0 {
            if rhythm::peak(zone_name, rows) == arith::sum(
                rhythm::cell_values(zone_name, rows, own),
            ) {
            } else {
                let c = choose|c: int|
                    0 <= c < 168 && rhythm::peak(zone_name, rest) == arith::sum(
                        #[trigger] rhythm::cell_values(zone_name, rest, c),
                    );
                assert(rhythm::peak(zone_name, rows) == rhythm::peak(zone_name, rest));
                assert(c != own);
                assert(rhythm::cell_values(zone_name, rows, c) == rhythm::cell_values(
                    zone_name,
                    rest,
                    c,
                ));
            }
        }
    }
}

/// Where no session has a negative duration, the largest value of the heat map is that of its
/// fullest cell.
pub proof fn law_peak_is_the_fullest_hour(
    records: Seq<RecordView>,
    client: Seq<char>,
    alias: Seq<char>,
    command: Seq<char>,
    zone_name: Seq<char>,
    map: HourlyHeatmap,
)
    requires
        rhythm::maps_hours(
            zone_name,
            stats::wanted_rows(records, client, alias, command, Need::Nothing),
            map,
        ),
        forall|i: int|
            0 <= i < records.len() && counted(#[trigger] records[i], client, alias, command)
                ==> took(records[i]) >= 0,
    ensures
        forall|d: int, h: int|
            0 <= d < 7 && 0 <= h < 24 ==> 0 <= #[trigger] map.grid@[d]@[h] <= map.max_seconds,
        map.max_seconds > 0 ==> exists|d: int, h: int|
            0 <= d < 7 && 0 <= h < 24 && #[trigger] map.grid@[d]@[h] == map.max_seconds,
{
    let rows = stats::wanted_rows(records, client, alias, command, Need::Nothing);
    assert forall|k: int| 0 <= k < rows.len() implies (#[trigger] rows[k]).seconds >= 0 by {
        let i = lemma_row_origin(records, client, alias, command, Need::Nothing, k);
    }
    assert forall|d: int, h: int| 0 <= d < 7 && 0 <= h < 24 implies 0
        <= #[trigger] map.grid@[d]@[h] <= map.max_seconds by {
        lemma_cells_grow(zone_name, rows, d * 24 + h);
    }
    lemma_cells_grow(zone_name, rows, 0);
    if map.max_seconds > 0 {
        let c = choose|c: int|
            0 <= c < 168 && rhythm::peak(zone_name, rows) == arith::sum(
                #[trigger] rhythm::cell_values(zone_name, rows, c),
            );
        let d = c / 24;
        let h = c % 24;
        assert(d * 24 + h == c);
        assert(map.grid@[d]@[h] == map.max_seconds);
    }
}

// ---------------------------------------------------------------------------------------------
// Streaks
// ---------------------------------------------------------------------------------------------

/// Whether a counted session that took some time starts on a local date.
pub open spec fn active_on(
    records: Seq<RecordView>,
    client: Seq<char>,
    alias: Seq<char>,
    command: Seq<char>,
    zone_name: Seq<char>,
    day: int,
) -> bool {
    exists|i: int|
        0 <= i < records.len() && counted(#[trigger] records[i], client, alias, command) && took(
            records[i],
        ) > 0 && zone::date_at(zone_name, records[i].start_time as int) as i64 == day
}

/// Whether a counted session that took some time starts on each of the last `n` dates up to `end`.
pub open spec fn active_run(
    records: Seq<RecordView>,
    client: Seq<char>,
    alias: Seq<char>,
    command: Seq<char>,
    zone_name: Seq<char>,
    end: int,
    n: int,
) -> bool {
    forall|k: int|
        #![trigger active_on(records, client, alias, command, zone_name, k)]
        end - n < k <= end ==> active_on(records, client, alias, command, zone_name, k)
}

proof fn lemma_set_of_dates(zone_name: Seq<char>, rows: Seq<Row>, d: i64)
    ensures
        stats::dates(zone_name, rows).contains(d) <==> exists|k: int|
            0 <= k < rows.len() && zone::date_at(zone_name, (#[trigger] rows[k]).start as int)
                as i64 == d,
    decreases rows.len(),
{
    if rows.len() > 0 {
        let rest = rows.drop_last();
        lemma_set_of_dates(zone_name, rest, d);
        if exists|k: int|
            0 <= k < rest.len() && zone::date_at(zone_name, (#[trigger] rest[k]).start as int)
                as i64 == d {
            let k = choose|k: int|
                0 <= k < rest.len() && zone::date_at(zone_name, (#[trigger] rest[k]).start as int)
                    as i64 == d;
            assert(rows[k] == rest[k]);
        }
        if exists|k: int|
            0 <= k < rows.len() && zone::date_at(zone_name, (#[trigger] rows[k]).start as int)
                as i64 == d {
            let k = choose|k: int|
                0 <= k < rows.len() && zone::date_at(zone_name, (#[trigger] rows[k]).start as int)
                    as i64 == d;
            if k < rows.len() - 1 {
                assert(rest[k] == rows[k]);
            }
        }
        assert(rows[rows.len() - 1] == rows.last());
    }
}

proof fn lemma_active_on(
    records: Seq<RecordView>,
    client: Seq<char>,
    alias: Seq<char>,
    command: Seq<char>,
    zone_name: Seq<char>,
    d: i64,
)
    ensures
        stats::dates(
            zone_name,
            stats::wanted_rows(records, client, alias, command, Need::Positive),
        ).contains(d) <==> active_on(records, client, alias, command, zone_name, d as int),
{
    let rows = stats::wanted_rows(records, client, alias, command, Need::Positive);
    lemma_set_of_dates(zone_name, rows, d);
    if stats::dates(zone_name, rows).contains(d) {
        let k = choose|k: int|
            0 <= k < rows.len() && zone::date_at(zone_name, (#[trigger] rows[k]).start as int)
                as i64 == d;
        let i = lemma_row_origin(records, client, alias, command, Need::Positive, k);
        assert(counted(records[i], client, alias, command));
    }
    if active_on(records, client, alias, command, zone_name, d as int) {
        let i = choose|i: int|
            0 <= i < records.len() && counted(#[trigger] records[i], client, alias, command)
                && took(records[i]) > 0 && zone::date_at(
                zone_name,
                records[i].start_time as int,
            ) as i64 == d;
        let q = lemma_row_of_record(records, client, alias, command, Need::Positive, i);
        assert(zone::date_at(zone_name, rows[q].start as int) as i64 == d);
    }
}

proof fn lemma_streak_run(days: Set<i64>, day: int)
    requires
        i64::MIN <= day <= i64::MAX,
    ensures
        rhythm::streak(days, day) >= 0,
        forall|k: int|
            day - rhythm::streak(days, day) < k <= day ==> days.contains(#[trigger] (k as i64)),
        day - rhythm::streak(days, day) >= calendar::MIN_DAY ==> !days.contains(
            (day - rhythm::streak(days, day)) as i64,
        ),
        day - rhythm::streak(days, day) >= calendar::MIN_DAY - 1 || rhythm::streak(days, day) == 0,
    decreases day - calendar::MIN_DAY + 1,
{
    if day >= calendar::MIN_DAY && days.contains(day as i64) {
        lemma_streak_run(days, day - 1);
        assert forall|k: int| day - rhythm::streak(days, day) < k <= day implies days.contains(
            #[trigger] (k as i64),
        ) by {
            if k < day {
                assert(day - 1 - rhythm::streak(days, day - 1) < k <= day - 1);
            }
        }
    }
}

proof fn lemma_run_is_streak(days: Set<i64>, day: int, n: int)
    requires
        calendar::MIN_DAY <= day - n + 1,
        day <= calendar::MAX_DAY,
        n >= 0,
        forall|k: int| day - n < k <= day ==> days.contains(#[trigger] (k as i64)),
    ensures
        rhythm::streak(days, day) >= n,
    decreases n,
{
    if n > 0 {
        assert(days.contains(day as i64));
        lemma_run_is_streak(days, day - 1, n - 1);
    } else {
        lemma_streak_run(days, day);
    }
}

/// The present streak runs back from the latest date with a session that took some time, a session on
/// each date, and ends where a date has none. That date is told.
pub proof fn law_present_streak_runs_back_from_the_latest_date(
    records: Seq<RecordView>,
    client: Seq<char>,
    alias: Seq<char>,
    command: Seq<char>,
    zone_name: Seq<char>,
    s: StreakStats,
)
    requires
        rhythm::tells_streaks(
            zone_name,
            stats::wanted_rows(records, client, alias, command, Need::Positive),
            s,
        ),
        exists|i: int|
            0 <= i < records.len() && counted(#[trigger] records[i], client, alias, command)
                && took(records[i]) > 0,
    ensures
        exists|last: i64|
            {
                &&& #[trigger] active_on(records, client, alias, command, zone_name, last as int)
                &&& forall|d: i64| #[trigger]
                    active_on(records, client, alias, command, zone_name, d as int) ==> d <= last
                &&& s.last_active_date@ == calendar::date_text(last as int)
                &&& forall|k: int|
                    #![trigger active_on(records, client, alias, command, zone_name, k)]
                    last - s.current_streak < k <= last ==> active_on(
                        records,
                        client,
                        alias,
                        command,
                        zone_name,
                        k,
                    )
                &&& last - s.current_streak >= calendar::MIN_DAY ==> !active_on(
                    records,
                    client,
                    alias,
                    command,
                    zone_name,
                    last - s.current_streak,
                )
            },
{
    let rows = stats::wanted_rows(records, client, alias, command, Need::Positive);
    let days = stats::dates(zone_name, rows);
    let i = choose|i: int|
        0 <= i < records.len() && counted(#[trigger] records[i], client, alias, command) && took(
            records[i],
        ) > 0;
    lemma_row_of_record(records, client, alias, command, Need::Positive, i);
    assert(rows.len() > 0);
    let last = choose|last: i64|
        {
            &&& #[trigger] rhythm::is_latest(days, last)
            &&& s.current_streak == rhythm::streak(days, last as int)
            &&& s.last_active_date@ == calendar::date_text(last as int)
        };
    lemma_active_on(records, client, alias, command, zone_name, last);
    lemma_streak_run(days, last as int);
    assert forall|d: i64| #[trigger]
        active_on(records, client, alias, command, zone_name, d as int) implies d <= last by {
        lemma_active_on(records, client, alias, command, zone_name, d);
    }
    assert forall|k: int|
        #![trigger active_on(records, client, alias, command, zone_name, k)]
        last - s.current_streak < k <= last implies active_on(
        records,
        client,
        alias,
        command,
        zone_name,
        k,
    ) by {
        assert(days.contains(k as i64));
        lemma_active_on(records, client, alias, command, zone_name, k as i64);
    }
    if last - s.current_streak >= calendar::MIN_DAY {
        lemma_active_on(
            records,
            client,
            alias,
            command,
            zone_name,
            (last - s.current_streak) as i64,
        );
    }
}

/// The longest streak is a run of dates with a session that took some time on each, and no such run
/// is longer.
pub proof fn law_longest_streak_is_the_longest_run(
    records: Seq<RecordView>,
    client: Seq<char>,
    alias: Seq<char>,
    command: Seq<char>,
    zone_name: Seq<char>,
    s: StreakStats,
    day: int,
    n: int,
)
    requires
        rhythm::tells_streaks(
            zone_name,
            stats::wanted_rows(records, client, alias, command, Need::Positive),
            s,
        ),
        n > 0,
        calendar::MIN_DAY <= day - n + 1,
        day <= calendar::MAX_DAY,
        active_run(records, client, alias, command, zone_name, day, n),
    ensures
        n <= s.max_streak,
        exists|end: int| #[trigger]
            active_run(records, client, alias, command, zone_name, end, s.max_streak as int),
{
    let rows = stats::wanted_rows(records, client, alias, command, Need::Positive);
    let days = stats::dates(zone_name, rows);
    assert forall|k: int| day - n < k <= day implies days.contains(#[trigger] (k as i64)) by {
        assert(active_on(records, client, alias, command, zone_name, k));
        lemma_active_on(records, client, alias, command, zone_name, k as i64);
    }
    assert(days.contains(day as i64));
    lemma_set_of_dates(zone_name, rows, day as i64);
    lemma_run_is_streak(days, day, n);
    let end = choose|d: i64| #[trigger]
        days.contains(d) && rhythm::streak(days, d as int) == s.max_streak;
    lemma_streak_run(days, end as int);
    assert forall|k: int|
        #![trigger active_on(records, client, alias, command, zone_name, k)]
        end - s.max_streak < k <= end implies active_on(
        records,
        client,
        alias,
        command,
        zone_name,
        k,
    ) by {
        assert(days.contains(k as i64));
        lemma_active_on(records, client, alias, command, zone_name, k as i64);
    }
    assert(active_run(
        records,
        client,
        alias,
        command,
        zone_name,
        end as int,
        s.max_streak as int,
    ));
}

/// The last moment that is told of the streaks is the latest start of a counted session that took
/// some time, by the clock of the zone.
pub proof fn law_last_moment_is_the_latest_start(
    records: Seq<RecordView>,
    client: Seq<char>,
    alias: Seq<char>,
    command: Seq<char>,
    zone_name: Seq<char>,
    s: StreakStats,
    i: int,
)
    requires
        rhythm::tells_streaks(
            zone_name,
            stats::wanted_rows(records, client, alias, command, Need::Positive),
            s,
        ),
        0 <= i < records.len(),
        counted(records[i], client, alias, command),
        took(records[i]) > 0,
        forall|j: int|
            0 <= j < records.len() && counted(#[trigger] records[j], client, alias, command)
                && took(records[j]) > 0 ==> records[j].start_time <= records[i].start_time,
        calendar::representable(records[i].start_time as int),
    ensures
        ({
            let local = zone::local_time(zone_name, records[i].start_time as int);
            s.last_active_time_hr@ == calendar::date_text(calendar::day_of(local)) + seq![' ']
                + text::padded(calendar::hour_of(local) as nat, 2) + seq![':'] + text::padded(
                calendar::minute_of(local) as nat,
                2,
            )
        }),
{
    let rows = stats::wanted_rows(records, client, alias, command, Need::Positive);
    let q = lemma_row_of_record(records, client, alias, command, Need::Positive, i);
    let k = choose|k: int|
        {
            &&& 0 <= k < rows.len()
            &&& s.last_active_time_hr@ == rhythm::moment_text(
                zone_name,
                (#[trigger] rows[k]).start as int,
            )
            &&& forall|j: int| 0 <= j < rows.len() ==> (#[trigger] rows[j]).start <= rows[k].start
        };
    let j = lemma_row_origin(records, client, alias, command, Need::Positive, k);
    assert(rows[q].start <= rows[k].start);
    assert(rows[k].start == records[i].start_time);
    let local = zone::local_time(zone_name, records[i].start_time as int);
    assert(s.last_active_time_hr@ =~= calendar::date_text(calendar::day_of(local)) + seq![' ']
        + text::padded(calendar::hour_of(local) as nat, 2) + seq![':'] + text::padded(
        calendar::minute_of(local) as nat,
        2,
    ));
}

/// Without a session that took some time there are no streaks.
pub proof fn law_no_sessions_no_streaks(
    records: Seq<RecordView>,
    client: Seq<char>,
    alias: Seq<char>,
    command: Seq<char>,
    zone_name: Seq<char>,
    s: StreakStats,
)
    requires
        rhythm::tells_streaks(
            zone_name,
            stats::wanted_rows(records, client, alias, command, Need::Positive),
            s,
        ),
        forall|i: int|
            0 <= i < records.len() && counted(#[trigger] records[i], client, alias, command)
                ==> took(records[i]) <= 0,
    ensures
        s.current_streak == 0,
        s.max_streak == 0,
        s.last_active_date@ == "-"@,
        s.last_active_time_hr@ == "-"@,
{
    let rows = stats::wanted_rows(records, client, alias, command, Need::Positive);
    if rows.len() > 0 {
        let i = lemma_row_origin(records, client, alias, command, Need::Positive, 0);
        assert(took(records[i]) > 0);
    }
}

} // verus!
