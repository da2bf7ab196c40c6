use tspan::auth::{basic_authorization, check_api_auth, AuthConfig};
use tspan::db::{
    add_api_token_at, delete_api_token, delete_record, discard_session_admin, end_session_at,
    import_record_at, start_session_at, Database,
};
use tspan::distribution::compute_session_distribution;
use tspan::html::html_escape;
use tspan::server::{api_end_session_at, api_list_records, AppState, ListRecordsQuery};
use tspan::stats::compute_stats_at;
use tspan::zone::resolve_tz;

fn counted(db: &Database, client: &str) -> (i64, i64) {
    let total = compute_stats_at(db, client, "", "", &resolve_tz(None), 1_000_000)
        .unwrap()
        .total;
    (total.total_times, total.total_seconds)
}

#[test]
fn a_token_outlives_other_changes() {
    let mut db = Database::new();
    add_api_token_at(&mut db, "tspan_a", "laptop", None, 1).unwrap();
    let valid = |db: &Database| check_api_auth(db, Some("Bearer tspan_a")) == Ok("laptop".to_string());
    add_api_token_at(&mut db, "tspan_b", "desk", None, 2).unwrap();
    assert!(valid(&db));
    let id = start_session_at(&mut db, "laptop", None, None, None, 3).unwrap();
    assert!(valid(&db));
    assert_eq!(end_session_at(&mut db, id, "laptop", 5), Some(2));
    assert!(valid(&db));
    import_record_at(&mut db, "desk", 1, 2, 1, None, None, 6).unwrap();
    assert!(delete_record(&mut db, id));
    assert!(valid(&db));
    assert!(delete_api_token(&mut db, "tspan_b"));
    assert!(valid(&db));
    assert!(delete_api_token(&mut db, "tspan_a"));
    assert!(!valid(&db));
}

#[test]
fn only_completed_sessions_count() {
    let mut db = Database::new();
    import_record_at(&mut db, "desk", 100, 160, 60, Some("vim"), None, 200).unwrap();
    assert_eq!(counted(&db, "__global__"), (1, 60));
    let a = start_session_at(&mut db, "laptop", Some("make"), None, None, 300).unwrap();
    let b = start_session_at(&mut db, "laptop", Some("make"), None, None, 300).unwrap();
    assert_eq!(counted(&db, "__global__"), (1, 60));
    assert!(discard_session_admin(&mut db, b));
    assert_eq!(counted(&db, "__global__"), (1, 60));
    assert_eq!(end_session_at(&mut db, a, "laptop", 340), Some(40));
    assert_eq!(counted(&db, "__global__"), (2, 100));
    assert_eq!(counted(&db, "laptop"), (1, 40));
    assert_eq!(counted(&db, "desk"), (1, 60));
}

#[test]
fn the_administrator_ends_what_a_client_started() {
    let mut s = AppState {
        db: Database::new(),
        auth: AuthConfig {
            web_username: "admin".to_string(),
            web_password_hash: "secret".to_string(),
        },
        command_token_limit: 5,
    };
    let id = start_session_at(&mut s.db, "desk", None, None, None, 50).unwrap();
    let admin = basic_authorization("admin", "secret");
    let ended = api_end_session_at(&mut s, Some(&admin), id, 90).unwrap();
    assert_eq!((ended.session_id, ended.duration_seconds), (id, 40));
    for i in 0..5 {
        import_record_at(&mut s.db, "c", 100 + i, 200 + i, 100, None, None, 0).unwrap();
    }
    let mut seen = Vec::new();
    for page in 1..4 {
        let q = ListRecordsQuery {
            page: Some(page),
            per_page: Some(2),
            client_id: Some("c".to_string()),
            alias: None,
            command: None,
        };
        let answer = api_list_records(&s, Some(&admin), &q).unwrap();
        seen.extend(answer.records.iter().map(|r| r.start_time));
    }
    assert_eq!(seen, vec![104, 103, 102, 101, 100]);
}

#[test]
fn middle_lengths_lie_between() {
    let mut db = Database::new();
    for seconds in [10, 400, 20, 35] {
        import_record_at(&mut db, "c", 0, seconds, seconds, None, None, 0).unwrap();
    }
    let d = compute_session_distribution(&db, "", "", "").unwrap();
    assert_eq!(
        (d.min_seconds, d.median_seconds, d.mean_seconds, d.max_seconds),
        (10, 27, 116, 400)
    );
    assert_eq!(d.total_sessions, 4);
    assert_eq!(d.buckets.iter().map(|b| b.count).sum::<i64>(), 4);
}

#[test]
fn escaped_text_is_plain() {
    let plain = html_escape("<a href=\"x\">&</a>");
    assert_eq!(plain, "&lt;a href=&quot;x&quot;&gt;&amp;&lt;/a&gt;");
    assert!(!plain.contains(['<', '>', '"']));
}
