use chrono::Datelike;
use tspan::breakdown::{compute_stats_by_alias, compute_stats_by_client, compute_stats_by_command};
use tspan::calendar::{civil_of, weekday_of};
use tspan::db::{end_session_at, import_record_at, start_session, Database};
use tspan::distribution::{compute_session_distribution, distribute};
use tspan::rhythm::{
    compute_hourly_heatmap, compute_monthly_trend, compute_streaks, compute_weekday_weekend_stats,
    get_daily_data,
};
use tspan::stats::{
    compute_stats, compute_stats_at, human_readable_time, resolve_tz, ts_to_utc, StatsError,
};
use tspan::zone::{find_tz, local_date_start, Tz};

fn setup() -> Database {
    Database::new()
}

fn insert_completed(db: &mut Database, client_id: &str, command: &str, duration: i64) {
    let id = start_session(db, client_id, Some(command), None, None).unwrap();
    let started = db.records().iter().find(|r| r.id == id).unwrap().start_time;
    assert_eq!(end_session_at(db, id, client_id, started + duration), Some(duration));
}

fn insert_at(db: &mut Database, client: &str, start: i64, seconds: i64, alias: Option<&str>) {
    import_record_at(db, client, start, start + seconds, seconds, Some("work"), alias, 0).unwrap();
}

fn day(year: i32, month: u32, day: u32) -> i64 {
    i64::from(
        chrono::NaiveDate::from_ymd_opt(year, month, day)
            .unwrap()
            .num_days_from_ce(),
    )
}

fn clock(tz: &Tz, ts: i64) -> (i64, i64) {
    let local = tz.local(ts);
    (local.rem_euclid(86_400) / 3_600, local.rem_euclid(3_600) / 60)
}

#[test]
fn local_date_start_survives_dst_gap() {
    let tz = find_tz("America/Santiago").unwrap();
    let date = day(2024, 9, 8);
    let ts = local_date_start(date, &tz);
    let resolved = ts_to_utc(ts);
    assert_eq!(tz.date(resolved), date);
    assert_eq!(clock(&tz, resolved).0, 1);
    assert_eq!(clock(&tz, resolved).1, 0);
}

#[test]
fn local_date_start_normal_day_is_midnight() {
    let tz = find_tz("America/New_York").unwrap();
    let date = day(2024, 6, 15);
    let resolved = ts_to_utc(local_date_start(date, &tz));
    assert_eq!(tz.date(resolved), date);
    assert_eq!(clock(&tz, resolved).0, 0);
    assert_eq!(clock(&tz, resolved).1, 0);
}

#[test]
fn ts_to_utc_handles_out_of_range_without_panicking() {
    assert_eq!(ts_to_utc(i64::MAX), 0);
    assert_eq!(ts_to_utc(i64::MIN), 0);
}

#[test]
fn compute_stats_does_not_panic_in_dst_gap_timezone() {
    let mut db = setup();
    insert_completed(&mut db, "c1", "vim a", 60);
    insert_completed(&mut db, "c1", "vim b", 120);
    let tz = find_tz("America/Santiago").unwrap();
    let stats = compute_stats(&db, "c1", "", "", &tz).unwrap();
    assert_eq!(stats.total.total_seconds, 180);
    assert!(!stats.past_n.is_empty());
}

#[test]
fn test_by_command_depth_0_full_command() {
    let mut db = setup();
    insert_completed(&mut db, "c1", "perf stats record", 100);
    insert_completed(&mut db, "c1", "perf stats report", 200);
    insert_completed(&mut db, "c1", "python train.py", 300);

    let stats = compute_stats_by_command(&db, "c1", 0, 5).unwrap();
    assert_eq!(stats.len(), 3);
    assert_eq!(stats[0].command, "python train.py");
    assert_eq!(stats[0].total_seconds, 300);
    assert_eq!(stats[1].command, "perf stats report");
    assert_eq!(stats[1].total_seconds, 200);
    assert_eq!(stats[2].command, "perf stats record");
    assert_eq!(stats[2].total_seconds, 100);
}

#[test]
fn test_by_command_depth_1_base() {
    let mut db = setup();
    insert_completed(&mut db, "c1", "perf stats record", 100);
    insert_completed(&mut db, "c1", "perf stats report", 200);
    insert_completed(&mut db, "c1", "python train.py", 300);

    let stats = compute_stats_by_command(&db, "c1", 1, 5).unwrap();
    assert_eq!(stats.len(), 2);
    let python = stats.iter().find(|s| s.command == "python").unwrap();
    let perf = stats.iter().find(|s| s.command == "perf").unwrap();
    assert_eq!(python.total_seconds, 300);
    assert_eq!(perf.total_seconds, 300);
}

#[test]
fn test_by_command_depth_2_sub() {
    let mut db = setup();
    insert_completed(&mut db, "c1", "perf stats record", 100);
    insert_completed(&mut db, "c1", "perf stats report", 200);
    insert_completed(&mut db, "c1", "python train.py", 300);

    let stats = compute_stats_by_command(&db, "c1", 2, 5).unwrap();
    assert_eq!(stats.len(), 2);
    let perf_stats = stats.iter().find(|s| s.command == "perf stats").unwrap();
    let python_train = stats.iter().find(|s| s.command == "python train.py").unwrap();
    assert_eq!(perf_stats.total_seconds, 300);
    assert_eq!(python_train.total_seconds, 300);
}

#[test]
fn test_by_command_depth_exceeds_token_limit() {
    let mut db = setup();
    insert_completed(&mut db, "c1", "perf stats record", 100);
    insert_completed(&mut db, "c1", "perf stats report", 200);

    let stats = compute_stats_by_command(&db, "c1", 2, 1).unwrap();
    assert_eq!(stats.len(), 1);
    assert_eq!(stats[0].command, "perf");
    assert_eq!(stats[0].total_seconds, 300);
}

#[test]
fn test_by_command_global_aggregation() {
    let mut db = setup();
    insert_completed(&mut db, "c1", "perf stats", 100);
    insert_completed(&mut db, "c2", "perf stats", 200);

    let stats = compute_stats_by_command(&db, "__global__", 1, 5).unwrap();
    assert_eq!(stats.len(), 1);
    assert_eq!(stats[0].command, "perf");
    assert_eq!(stats[0].total_seconds, 300);
}

#[test]
fn test_by_command_quoted_args() {
    let mut db = setup();
    insert_completed(&mut db, "c1", "ls \"my documents\"", 100);
    insert_completed(&mut db, "c1", "ls downloads", 200);

    let stats = compute_stats_by_command(&db, "c1", 2, 5).unwrap();
    assert_eq!(stats.len(), 2);
    let docs = stats.iter().find(|s| s.command == "ls my documents").unwrap();
    let downloads = stats.iter().find(|s| s.command == "ls downloads").unwrap();
    assert_eq!(docs.total_seconds, 100);
    assert_eq!(downloads.total_seconds, 200);
}

#[test]
fn test_by_command_single_token() {
    let mut db = setup();
    insert_completed(&mut db, "c1", "vim", 100);
    insert_completed(&mut db, "c1", "vim", 200);

    let stats_d0 = compute_stats_by_command(&db, "c1", 0, 5).unwrap();
    assert_eq!(stats_d0.len(), 1);
    assert_eq!(stats_d0[0].command, "vim");

    let stats_d1 = compute_stats_by_command(&db, "c1", 1, 5).unwrap();
    assert_eq!(stats_d1.len(), 1);
    assert_eq!(stats_d1[0].command, "vim");

    let stats_d2 = compute_stats_by_command(&db, "c1", 2, 5).unwrap();
    assert_eq!(stats_d2.len(), 1);
    assert_eq!(stats_d2[0].command, "vim");
}

#[test]
fn durations_are_told_in_words() {
    assert_eq!(human_readable_time(-5), "0 s");
    assert_eq!(human_readable_time(0), "0 s");
    assert_eq!(human_readable_time(7), "07 s");
    assert_eq!(human_readable_time(60), "01 m 00 s");
    assert_eq!(human_readable_time(3_600), "01 h 00 s");
    assert_eq!(human_readable_time(3_601), "01 h 00 m 01 s");
    assert_eq!(human_readable_time(86_400), "1 d 00 s");
    assert_eq!(human_readable_time(86_400 + 5), "1 d 00 h 00 m 05 s");
    assert_eq!(human_readable_time(100_000_000), "1157 d 09 h 46 m 40 s");
}

#[test]
fn unknown_zones_fall_back_to_utc() {
    assert_eq!(resolve_tz(None).name(), "UTC");
    assert_eq!(resolve_tz(Some("Nowhere/Nothing")).name(), "UTC");
    assert_eq!(resolve_tz(Some("Asia/Shanghai")).name(), "Asia/Shanghai");
    assert!(find_tz("Nowhere/Nothing").is_none());
    assert_eq!(resolve_tz(Some("Asia/Shanghai")).offset(1_700_000_000), 28_800);
    assert_eq!(resolve_tz(None).offset(1_700_000_000), 0);
}

#[test]
fn dates_are_those_of_the_calendar() {
    assert_eq!(civil_of(day(2024, 2, 29)), (2024, 2, 29));
    assert_eq!(weekday_of(day(2024, 9, 8)), 6);
    assert_eq!(weekday_of(day(2024, 9, 9)), 0);
}

#[test]
fn a_summary_counts_time_days_and_intervals() {
    let mut db = setup();
    let tz = resolve_tz(None);
    // Three sessions on 2024-03-01 and 2024-03-03, seen from 2024-03-05 12:00.
    let first = 1_709_280_000;
    insert_at(&mut db, "c1", first, 600, None);
    insert_at(&mut db, "c1", first + 3_600, 1_200, None);
    insert_at(&mut db, "c1", first + 2 * 86_400, 1_800, None);
    let now = 1_709_640_000;
    let s = compute_stats_at(&db, "c1", "", "", &tz, now).unwrap();
    assert_eq!(s.total.total_times, 3);
    assert_eq!(s.total.total_seconds, 3_600);
    assert_eq!(s.total.mean_usage, 1_200);
    assert_eq!(s.total.active_days, 2);
    assert_eq!(s.total.total_days, 4);
    assert_eq!(s.total.from_date, "2024-03-01");
    assert_eq!(s.total.total_seconds_hr, "01 h 00 s");
    assert_eq!(
        (s.total.total_ratio.value, s.total.total_ratio.total),
        (3_600, 4 * 86_400)
    );
    assert_eq!((s.total.total_day_ratio.value, s.total.total_day_ratio.total), (2, 4));
    assert!(s.interval.max_interval >= s.interval.mean_interval);
    assert_eq!(
        human_readable_time(s.interval.max_interval),
        s.interval.max_interval_hr
    );
}

#[test]
fn a_summary_of_nothing_is_empty() {
    let db = setup();
    let s = compute_stats_at(&db, "", "", "", &resolve_tz(None), 1_709_640_000).unwrap();
    assert_eq!(s.total.total_times, 0);
    assert_eq!(s.total.from_date, "2024-03-05");
    assert_eq!(s.total.total_duration_hr, "0 s");
    assert!(s.past_n.is_empty());
    assert_eq!((s.total.total_ratio.value, s.total.total_ratio.total), (0, 0));
}

#[test]
fn sums_that_do_not_fit_are_reported() {
    let mut db = setup();
    import_record_at(&mut db, "c1", 0, 1, i64::MAX, Some("x"), None, 0).unwrap();
    import_record_at(&mut db, "c1", 1, 2, i64::MAX, Some("x"), None, 0).unwrap();
    let tz = resolve_tz(None);
    assert_eq!(
        compute_stats_at(&db, "c1", "", "", &tz, 100).err(),
        Some(StatsError::Overflow)
    );
    assert_eq!(compute_stats_by_client(&db, "c1").err(), Some(StatsError::Overflow));
    assert_eq!(
        compute_stats_by_command(&db, "c1", 0, 5).err(),
        Some(StatsError::Overflow)
    );
    assert_eq!(
        compute_session_distribution(&db, "c1", "", "").err(),
        Some(StatsError::Overflow)
    );
    assert_eq!(get_daily_data(&db, "c1", "", "", &tz).err(), Some(StatsError::Overflow));
    assert_eq!(
        compute_monthly_trend(&db, "c1", "", "", &tz).err(),
        Some(StatsError::Overflow)
    );
    assert_eq!(
        compute_weekday_weekend_stats(&db, "c1", "", "", &tz).err(),
        Some(StatsError::Overflow)
    );
    assert_eq!(
        compute_hourly_heatmap(&db, "c1", "", "", &tz).err(),
        Some(StatsError::Overflow)
    );
}

#[test]
fn breakdowns_hold_all_time() {
    let mut db = setup();
    insert_at(&mut db, "a", 1_000, 10, Some("x"));
    insert_at(&mut db, "b", 2_000, 30, Some("y"));
    insert_at(&mut db, "a", 3_000, 5, Some("y"));
    let clients = compute_stats_by_client(&db, "__global__").unwrap();
    assert_eq!(clients.len(), 2);
    assert_eq!((clients[0].client_id.as_str(), clients[0].total_seconds), ("b", 30));
    assert_eq!((clients[1].client_id.as_str(), clients[1].total_times), ("a", 2));
    assert_eq!(clients[1].mean_seconds, 7);
    assert_eq!(clients.iter().map(|c| c.total_seconds).sum::<i64>(), 45);
    let aliases = compute_stats_by_alias(&db, "a").unwrap();
    assert_eq!(aliases.iter().map(|c| c.total_seconds).sum::<i64>(), 15);
    assert_eq!(aliases[0].alias, "x");
}

#[test]
fn durations_fall_into_ranges() {
    let d = distribute(&vec![10, 299, 300, 1_000, 2_000, 4_000, 8_000, 20_000]).unwrap();
    assert_eq!(
        d.buckets.iter().map(|b| b.count).collect::<Vec<_>>(),
        vec![2, 1, 1, 1, 1, 1, 1]
    );
    assert_eq!(d.buckets.iter().map(|b| b.count).sum::<i64>(), d.total_sessions);
    assert_eq!(d.buckets[0].label, "<5 min");
    assert_eq!((d.buckets[0].pct.value, d.buckets[0].pct.total), (2, 8));
    assert_eq!((d.min_seconds, d.max_seconds), (10, 20_000));
    assert_eq!(d.median_seconds, 1_500);
    assert_eq!(d.mean_seconds, 35_609 / 8);
    assert_eq!(distribute(&vec![3, 5, 9]).unwrap().median_seconds, 5);
    assert!(distribute(&vec![]).unwrap().buckets.is_empty());
    assert_eq!(
        distribute(&vec![i64::MAX, i64::MAX]).err(),
        Some(StatsError::Overflow)
    );
}

#[test]
fn days_and_months_follow_the_zone() {
    let mut db = setup();
    // 2024-03-01 23:30 UTC is already 2024-03-02 in Shanghai.
    insert_at(&mut db, "c1", 1_709_335_800, 60, None);
    let utc = get_daily_data(&db, "c1", "", "", &resolve_tz(None)).unwrap();
    assert_eq!(utc, vec![("2024-03-01".to_string(), 60)]);
    let shanghai = resolve_tz(Some("Asia/Shanghai"));
    let local = get_daily_data(&db, "c1", "", "", &shanghai).unwrap();
    assert_eq!(local, vec![("2024-03-02".to_string(), 60)]);
    let months = compute_monthly_trend(&db, "c1", "", "", &shanghai).unwrap();
    assert_eq!(months.len(), 1);
    assert_eq!(months[0].year_month, "2024-03");
    assert_eq!(months[0].total_seconds_hr, "01 m 00 s");
}

#[test]
fn working_days_and_weekends_share_the_sessions() {
    let mut db = setup();
    let friday = 1_709_280_000;
    insert_at(&mut db, "c1", friday, 100, None);
    insert_at(&mut db, "c1", friday + 86_400, 30, None);
    insert_at(&mut db, "c1", friday + 2 * 86_400, 50, None);
    let w = compute_weekday_weekend_stats(&db, "c1", "", "", &resolve_tz(None)).unwrap();
    assert_eq!((w.weekday_times, w.weekday_total_seconds), (1, 100));
    assert_eq!((w.weekend_times, w.weekend_total_seconds), (2, 80));
    assert_eq!(w.weekend_mean_seconds, 40);
    let map = compute_hourly_heatmap(&db, "c1", "", "", &resolve_tz(None)).unwrap();
    assert_eq!(map.grid.len(), 7);
    assert_eq!(map.grid[4][8], 100);
    assert_eq!(map.max_seconds, 100);
    assert_eq!(map.grid.iter().flatten().sum::<i64>(), 180);
}

#[test]
fn streaks_run_over_days_in_a_row() {
    let mut db = setup();
    let start = 1_709_280_000;
    for d in [0, 1, 2, 5, 6] {
        insert_at(&mut db, "c1", start + d * 86_400, 60, None);
    }
    let s = compute_streaks(&db, "c1", "", "", &resolve_tz(None)).unwrap();
    assert_eq!((s.current_streak, s.max_streak), (2, 3));
    assert_eq!(s.last_active_date, "2024-03-07");
    assert_eq!(s.last_active_time_hr, "2024-03-07 08:00");
    let none = compute_streaks(&setup(), "c1", "", "", &resolve_tz(None)).unwrap();
    assert_eq!((none.current_streak, none.max_streak), (0, 0));
    assert_eq!(none.last_active_date, "-");
}
