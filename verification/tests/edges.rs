use tspan::auth::{basic_authorization, AuthConfig, HttpError};
use tspan::calendar::{EPOCH_DAY, MAX_TIME, MIN_TIME};
use tspan::db::{
    add_api_token_at, import_record_at, list_records_page, log_exec_event, start_session_at,
    Database, DbError,
};
use tspan::distribution::compute_session_distribution;
use tspan::exporter::{Exporter, RequestBody, RetryItem};
use tspan::pattern::exceeds_limit;
use tspan::rhythm::{
    compute_hourly_heatmap, compute_monthly_trend, compute_streaks, compute_weekday_weekend_stats,
    get_daily_data,
};
use tspan::selection::format_timestamp;
use tspan::server::{
    api_get_daily_data, api_get_hourly_heatmap, api_get_monthly_trend,
    api_get_session_distribution, api_get_stats_at, api_get_streaks, api_get_summary_md,
    api_get_svg, api_get_weekday_weekend_stats, api_list_records, api_log_exec_event, AppState,
    ExecEventReq, FilterQuery, ListRecordsQuery,
};
use tspan::stats::{compute_stats_at, StatsError};
use tspan::zone::{local_date_start, resolve_tz};

fn state() -> AppState {
    let mut db = Database::new();
    add_api_token_at(&mut db, "tspan_abc", "laptop", None, 10).unwrap();
    AppState {
        db,
        auth: AuthConfig {
            web_username: "admin".to_string(),
            web_password_hash: "secret".to_string(),
        },
        command_token_limit: 5,
    }
}

#[test]
fn an_ambiguous_midnight_is_the_earlier_instant() {
    let havana = resolve_tz(Some("America/Havana"));
    assert_eq!(local_date_start(EPOCH_DAY + 20030, &havana), 1_730_606_400);
}

#[test]
fn local_time_runs_past_the_last_and_the_first_instant() {
    let tokyo = resolve_tz(Some("Asia/Tokyo"));
    assert_eq!(format_timestamp(MAX_TIME, &tokyo), "+262143-01-01 08:59");
    assert_eq!(tokyo.local(MAX_TIME), MAX_TIME + 9 * 3600);
    let lima = resolve_tz(Some("America/Lima"));
    assert!(format_timestamp(MIN_TIME, &lima).starts_with("-262144-12-31 18:"));
    assert_eq!(format_timestamp(MAX_TIME, &resolve_tz(None)), "+262142-12-31 23:59");
    let mut db = Database::new();
    import_record_at(&mut db, "c", MAX_TIME, MAX_TIME, 60, None, None, 0).unwrap();
    let months = compute_monthly_trend(&db, "", "", "", &tokyo).unwrap();
    assert_eq!(months[0].year_month, "+262143-01");
    let streaks = compute_streaks(&db, "", "", "", &tokyo).unwrap();
    assert_eq!(streaks.last_active_time_hr, "+262143-01-01 08:59");
    // The date itself cannot be represented, so the day is that of the epoch.
    assert_eq!(streaks.last_active_date, "1970-01-01");
    assert_eq!(get_daily_data(&db, "", "", "", &tokyo).unwrap()[0].0, "1970-01-01");
    // Day 1 is a Monday, and the day after the last one has the number 95745400.
    let day = (95_745_400 - 1) % 7;
    let map = compute_hourly_heatmap(&db, "", "", "", &tokyo).unwrap();
    assert_eq!(map.grid[day][8], 60);
    let week = compute_weekday_weekend_stats(&db, "", "", "", &tokyo).unwrap();
    assert_eq!(week.weekend_times, i64::from(day >= 5));
}

#[test]
fn patterns_have_a_limit_of_bytes() {
    assert!(!exceeds_limit(&"x".repeat(49_998)));
    assert!(exceeds_limit(&"x".repeat(49_999)));
    assert!(exceeds_limit(&"ä".repeat(25_000)));
}

#[test]
fn a_pattern_that_is_too_long_is_refused_once_a_record_is_tried() {
    let long = "x".repeat(49_999);
    let utc = resolve_tz(None);
    let mut db = Database::new();
    start_session_at(&mut db, "c", Some("vim"), None, None, 5).unwrap();
    assert!(list_records_page(&db, "", &long, &long, 1, 10).is_ok());
    assert!(compute_stats_at(&db, "", "", &long, &utc, 10).is_ok());
    import_record_at(&mut db, "c", 1, 2, 1, None, Some("work"), 0).unwrap();
    assert_eq!(
        list_records_page(&db, "", &long, "", 1, 10).err(),
        Some(DbError::PatternTooLong)
    );
    assert_eq!(
        list_records_page(&db, "c", "work", &long, 1, 10).err(),
        Some(DbError::PatternTooLong)
    );
    assert!(list_records_page(&db, "c", "play", &long, 1, 10).is_ok());
    assert!(list_records_page(&db, "other", &long, &long, 1, 10).is_ok());
    let refused = Some(StatsError::PatternTooLong);
    assert_eq!(compute_stats_at(&db, "", "", &long, &utc, 10).err(), refused);
    assert_eq!(compute_session_distribution(&db, "", "work", &long).err(), refused);
    assert!(compute_session_distribution(&db, "", "play", &long).is_ok());
    assert_eq!(compute_streaks(&db, "", "", &long, &utc).err(), refused);
    assert_eq!(get_daily_data(&db, "", "", &long, &utc).err(), refused);
    assert_eq!(compute_monthly_trend(&db, "", "", &long, &utc).err(), refused);
    assert_eq!(compute_hourly_heatmap(&db, "", "", &long, &utc).err(), refused);
    assert_eq!(compute_weekday_weekend_stats(&db, "", "", &long, &utc).err(), refused);
}

#[test]
fn requests_with_a_pattern_that_is_too_long_are_errors_of_the_server() {
    let mut s = state();
    import_record_at(&mut s.db, "c", 1, 2, 1, Some("vim"), None, 0).unwrap();
    let admin = basic_authorization("admin", "secret");
    let h = Some(admin.as_str());
    let q = FilterQuery {
        client_id: None,
        alias: None,
        command: Some("x".repeat(50_000)),
        tz: None,
        depth: None,
    };
    let internal = Some(HttpError::Internal);
    assert_eq!(api_get_stats_at(&s, h, &q, 10).err(), internal);
    assert_eq!(api_get_session_distribution(&s, h, &q).err(), internal);
    assert_eq!(api_get_weekday_weekend_stats(&s, h, &q).err(), internal);
    assert_eq!(api_get_streaks(&s, h, &q).err(), internal);
    assert_eq!(api_get_monthly_trend(&s, h, &q).err(), internal);
    assert_eq!(api_get_hourly_heatmap(&s, h, &q).err(), internal);
    assert_eq!(api_get_daily_data(&s, h, &q).err(), internal);
    assert_eq!(api_get_svg(&s, h, &q).err().map(|e| e.status()), Some(500));
    assert_eq!(api_get_summary_md(&s, h, &q).err(), internal);
    let records = ListRecordsQuery {
        page: None,
        per_page: None,
        client_id: None,
        alias: Some("x".repeat(50_000)),
        command: None,
    };
    assert_eq!(api_list_records(&s, h, &records).err(), internal);
    assert_eq!(api_list_records(&s, None, &records).err(), Some(HttpError::Unauthorized));
}

#[test]
fn a_program_that_could_not_be_started_is_stored() {
    let mut s = state();
    let tracer = Exporter::new("http://h".to_string(), "tspan_abc".to_string(), "host".to_string());
    let request = tracer.report(&RetryItem::LogFailed {
        command: "/bin/nothing -x".to_string(),
        process_id: 41,
        timestamp: 1_700_000_000,
        errno: -2,
    });
    assert_eq!(request.url, "http://h/api/exec-events");
    let req = match request.body {
        RequestBody::ExecEvent {
            client_id,
            command,
            process_id,
            timestamp,
            errno,
        } => ExecEventReq {
            client_id,
            command,
            process_id,
            timestamp,
            errno,
        },
        other => panic!("unexpected {other:?}"),
    };
    assert_eq!(api_log_exec_event(&mut s, None, &req), Err(HttpError::Unauthorized));
    assert_eq!(
        api_log_exec_event(&mut s, Some("Bearer other"), &req),
        Err(HttpError::Unauthorized)
    );
    assert!(s.db.exec_events().is_empty());
    assert_eq!(api_log_exec_event(&mut s, Some(&request.authorization), &req), Ok(1));
    assert_eq!(api_log_exec_event(&mut s, Some(&request.authorization), &req), Ok(2));
    assert_eq!(s.db.exec_events().len(), 2);
    let event = &s.db.exec_events()[0];
    assert_eq!((event.id, event.process_id), (1, 41));
    assert_eq!((event.timestamp, event.errno), (1_700_000_000, -2));
    assert_eq!((event.client_id.as_str(), event.command.as_str()), ("host", "/bin/nothing -x"));
    assert!(s.db.records().is_empty());
    let mut full = Database::load(vec![], vec![], vec![], 0, vec![], i64::MAX).unwrap();
    assert_eq!(log_exec_event(&mut full, "c", "x", 1, 2, 3), Err(DbError::Full));
}
