use tspan::auth::{
    basic_authorization, check_api_auth, check_web_auth, extract_bearer_token,
    extract_credentials, verify_basic_auth, AuthConfig, HttpError,
};
use tspan::db::{add_api_token_at, import_record_at, start_session_at, Database};
use tspan::importer::ImportFile;
use tspan::server::{
    access_url, api_backup, api_backup_at, api_create_token, api_create_token_at, api_delete_record,
    api_discard_session, api_end_session, api_end_session_at, api_get_aliases,
    api_get_daily_data, api_get_hourly_heatmap, api_get_monthly_trend, api_get_orphaned,
    api_get_orphaned_at, api_get_session_distribution, api_get_stats, api_get_stats_at,
    api_get_stats_by_alias, api_get_stats_by_client, api_get_stats_by_command, api_get_streaks,
    api_get_summary_md, api_get_summary_md_at, api_get_svg, api_get_svg_on, api_get_weekday_weekend_stats,
    api_import, api_import_at, api_list_clients, api_list_records, api_list_tokens, api_revoke_token,
    api_start_session, api_start_session_at, ensure_first_token, ensure_first_token_at, integrity_due, new_token,
    resolve_auth, token_from, web_admin, web_admin_at, web_index, AppState, CreateTokenReq,
    FilterQuery, ImportReq, ListRecordsQuery, StartSessionReq,
};

const BEARER: &str = "Bearer tspan_abc";

fn state() -> AppState {
    let mut db = Database::new();
    add_api_token_at(&mut db, "tspan_abc", "laptop", Some("test"), 10).unwrap();
    AppState {
        db,
        auth: AuthConfig {
            web_username: "admin".to_string(),
            web_password_hash: "secret".to_string(),
        },
        command_token_limit: 5,
    }
}

fn basic() -> String {
    basic_authorization("admin", "secret")
}

fn start(command: Option<&str>, client: Option<&str>) -> StartSessionReq {
    StartSessionReq {
        client_id: client.map(str::to_string),
        command: command.map(str::to_string),
        alias: None,
        process_id: None,
    }
}

fn everything() -> FilterQuery {
    FilterQuery {
        client_id: None,
        alias: None,
        command: None,
        tz: None,
        depth: None,
    }
}

#[test]
fn bearer_tokens_are_taken_from_their_header() {
    assert_eq!(extract_bearer_token(Some("Bearer x y")), Some("x y".to_string()));
    assert_eq!(extract_bearer_token(Some("bearer x")), None);
    assert_eq!(extract_bearer_token(None), None);
    let s = state();
    assert_eq!(check_api_auth(&s.db, Some(BEARER)), Ok("laptop".to_string()));
    assert_eq!(
        check_api_auth(&s.db, Some("Bearer nothing")),
        Err(HttpError::Unauthorized)
    );
}

#[test]
fn credentials_survive_their_header() {
    assert_eq!(basic(), "Basic YWRtaW46c2VjcmV0");
    assert_eq!(
        extract_credentials(Some(&basic_authorization("admin", "p:ä ß"))),
        Some(("admin".to_string(), "p:ä ß".to_string()))
    );
    assert_eq!(extract_credentials(Some("Basic ###")), None);
    assert_eq!(extract_credentials(Some("Basic YWRtaW4=")), None);
    assert_eq!(extract_credentials(None), None);
    let s = state();
    assert_eq!(check_web_auth(&s.auth, Some(&basic())), Ok(()));
    assert_eq!(
        check_web_auth(&s.auth, Some(&basic_authorization("admin", "wrong"))),
        Err(HttpError::Unauthorized)
    );
    assert_eq!(
        check_web_auth(&s.auth, Some(&basic_authorization("root", "secret"))),
        Err(HttpError::Unauthorized)
    );
}

#[test]
fn hashed_passwords_are_checked() {
    let config = AuthConfig {
        web_username: "admin".to_string(),
        web_password_hash: bcrypt::hash("secret", 4).unwrap(),
    };
    assert!(verify_basic_auth("admin", "secret", &config));
    assert!(!verify_basic_auth("admin", "Secret", &config));
    let broken = AuthConfig {
        web_username: "admin".to_string(),
        web_password_hash: "$2broken".to_string(),
    };
    assert!(!verify_basic_auth("admin", "$2broken", &broken));
}

#[test]
fn errors_have_a_status_and_a_text() {
    assert_eq!((HttpError::Unauthorized.status(), HttpError::Unauthorized.body()), (401, "Unauthorized"));
    assert_eq!(HttpError::NotFound.status(), 404);
    assert_eq!(HttpError::Internal.status(), 500);
}

#[test]
fn a_client_starts_and_ends_its_session() {
    let mut s = state();
    let begun = api_start_session_at(&mut s, Some(BEARER), &start(Some("vim"), None), 100).unwrap();
    assert_eq!((begun.session_id, begun.start_time), (1, 100));
    let running = api_get_orphaned_at(&s, Some(&basic()), 130).unwrap();
    assert_eq!(running.len(), 1);
    assert_eq!(running[0].running_seconds, 30);
    assert_eq!(running[0].client_id, "laptop");
    let ended = api_end_session_at(&mut s, Some(BEARER), 1, 160).unwrap();
    assert_eq!((ended.session_id, ended.duration_seconds), (1, 60));
    assert_eq!(
        api_end_session_at(&mut s, Some(BEARER), 1, 170),
        Err(HttpError::NotFound)
    );
}

#[test]
fn refused_requests_change_nothing() {
    let mut s = state();
    assert_eq!(
        api_start_session(&mut s, None, &start(None, None)),
        Err(HttpError::Unauthorized)
    );
    assert_eq!(
        api_start_session(&mut s, Some(&basic()), &start(None, None)),
        Err(HttpError::Unauthorized)
    );
    let id = start_session_at(&mut s.db, "desk", None, None, None, 5).unwrap();
    assert_eq!(api_end_session(&mut s, None, id), Err(HttpError::Unauthorized));
    assert_eq!(api_end_session(&mut s, Some(BEARER), id), Err(HttpError::NotFound));
    assert_eq!(
        api_discard_session(&mut s, Some(BEARER), id),
        Err(HttpError::Unauthorized)
    );
    assert_eq!(s.db.records().len(), 1);
    assert_eq!(api_get_stats(&s, None, &everything()).err(), Some(HttpError::Unauthorized));
    assert_eq!(api_list_tokens(&s, Some(BEARER)).err(), Some(HttpError::Unauthorized));
    assert_eq!(web_admin(&s, None).err(), Some(HttpError::Unauthorized));
    assert_eq!(web_index(&s, Some(BEARER)), Err(HttpError::Unauthorized));
}

#[test]
fn the_administrator_ends_and_discards_any_session() {
    let mut s = state();
    let a = start_session_at(&mut s.db, "desk", None, None, None, 50).unwrap();
    let b = start_session_at(&mut s.db, "desk", None, None, None, 60).unwrap();
    let ended = api_end_session_at(&mut s, Some(&basic()), a, 80).unwrap();
    assert_eq!(ended.duration_seconds, 30);
    assert_eq!(api_discard_session(&mut s, Some(&basic()), b), Ok(()));
    assert_eq!(
        api_discard_session(&mut s, Some(&basic()), b),
        Err(HttpError::NotFound)
    );
    assert_eq!(resolve_auth(&s, Some(&basic())), Ok((true, "__global__".to_string())));
    assert_eq!(resolve_auth(&s, Some(BEARER)), Ok((false, "laptop".to_string())));
    assert_eq!(resolve_auth(&s, None), Err(HttpError::Unauthorized));
}

#[test]
fn a_request_may_name_its_client() {
    let mut s = state();
    api_start_session(&mut s, Some(BEARER), &start(None, Some("phone"))).unwrap();
    assert_eq!(s.db.records()[0].client_id, "phone");
    assert_eq!(api_get_orphaned(&s, Some(&basic())).unwrap().len(), 1);
}

#[test]
fn statistics_answer_with_the_computed_figures() {
    let mut s = state();
    import_record_at(&mut s.db, "laptop", 1_709_280_000, 1_709_280_600, 600, Some("vim a"), Some("w"), 0).unwrap();
    let header = basic();
    let h = Some(header.as_str());
    let q = everything();
    assert_eq!(api_get_stats_at(&s, h, &q, 1_709_640_000).unwrap().total.total_seconds, 600);
    assert_eq!(api_get_stats_by_client(&s, h, &q).unwrap()[0].client_id, "laptop");
    assert_eq!(api_get_stats_by_alias(&s, h, &q).unwrap()[0].alias, "w");
    let deep = FilterQuery { depth: Some(1), ..everything() };
    assert_eq!(api_get_stats_by_command(&s, h, &deep).unwrap()[0].command, "vim");
    assert_eq!(api_get_session_distribution(&s, h, &q).unwrap().total_sessions, 1);
    assert_eq!(api_get_weekday_weekend_stats(&s, h, &q).unwrap().weekday_times, 1);
    assert_eq!(api_get_streaks(&s, h, &q).unwrap().max_streak, 1);
    assert_eq!(api_get_monthly_trend(&s, h, &q).unwrap()[0].year_month, "2024-03");
    assert_eq!(api_get_hourly_heatmap(&s, h, &q).unwrap().max_seconds, 600);
    assert_eq!(api_get_daily_data(&s, h, &q).unwrap(), vec![("2024-03-01".to_string(), 600)]);
    assert_eq!(api_get_aliases(&s, h).unwrap(), vec!["w".to_string()]);
    assert_eq!(api_list_clients(&s, Some(&basic())).unwrap(), vec!["laptop".to_string()]);
    let shanghai = FilterQuery { tz: Some("Asia/Shanghai".to_string()), ..everything() };
    assert_eq!(api_get_hourly_heatmap(&s, h, &shanghai).unwrap().grid[4][16], 600);
    let svg = api_get_svg_on(&s, h, &q, 738_950).unwrap();
    assert!(svg.all_time.starts_with("<svg"));
    assert_eq!(svg.years.len(), 1);
    assert_eq!(svg.years[0].0, "2024");
    assert!(api_get_svg(&s, h, &q).is_ok());
}

#[test]
fn sums_that_do_not_fit_are_internal_errors() {
    let mut s = state();
    for i in 0..2 {
        import_record_at(&mut s.db, "c", i, i, i64::MAX, Some("x"), None, 0).unwrap();
    }
    assert_eq!(
        api_get_stats_at(&s, Some(&basic()), &everything(), 100).err(),
        Some(HttpError::Internal)
    );
}

#[test]
fn records_come_in_pages() {
    let mut s = state();
    for i in 0..3 {
        import_record_at(&mut s.db, "c", 100 + i, 200 + i, 100, Some("x"), None, 0).unwrap();
    }
    let q = ListRecordsQuery {
        page: Some(2),
        per_page: Some(2),
        client_id: None,
        alias: None,
        command: None,
    };
    let page = api_list_records(&s, Some(&basic()), &q).unwrap();
    assert_eq!((page.total, page.page, page.per_page, page.total_pages), (3, 2, 2, 2));
    assert_eq!(page.records.len(), 1);
    assert_eq!(page.records[0].start_time, 100);
    assert_eq!(page.records[0].status, "completed");
}

#[test]
fn tokens_are_made_listed_and_revoked() {
    let mut s = state();
    let req = CreateTokenReq {
        client_id: Some("desk".to_string()),
        description: None,
    };
    let made = api_create_token(&mut s, Some(&basic()), &req).unwrap();
    assert!(made.token.starts_with("tspan_"));
    assert_eq!(made.token.len(), 6 + 32);
    assert_eq!(
        check_api_auth(&s.db, Some(&format!("Bearer {}", made.token))),
        Ok("desk".to_string())
    );
    assert_eq!(api_list_tokens(&s, Some(&basic())).unwrap().len(), 2);
    assert_eq!(api_revoke_token(&mut s, Some(&basic()), &made.token), Ok(()));
    assert_eq!(
        api_revoke_token(&mut s, Some(&basic()), &made.token),
        Err(HttpError::NotFound)
    );
    assert_eq!(api_create_token(&mut s, None, &req).err(), Some(HttpError::Unauthorized));
    assert_eq!(
        api_create_token_at(&mut s, Some(&basic()), &req, "tspan_abc".to_string(), 5).err(),
        Some(HttpError::Internal)
    );
    assert_eq!(token_from("a-b-c"), "tspan_abc");
    assert_ne!(new_token(), new_token());
}

#[test]
fn records_are_deleted_by_the_administrator() {
    let mut s = state();
    import_record_at(&mut s.db, "c", 1, 2, 1, None, None, 0).unwrap();
    assert_eq!(
        api_delete_record(&mut s, Some(BEARER), 1),
        Err(HttpError::Unauthorized)
    );
    assert_eq!(api_delete_record(&mut s, Some(&basic()), 1), Ok(()));
    assert_eq!(api_delete_record(&mut s, Some(&basic()), 1), Err(HttpError::NotFound));
}

#[test]
fn files_are_imported_or_reported() {
    let mut s = state();
    let files = vec![
        ImportFile {
            stem: "20210101000000".to_string(),
            content: Ok("vim a\n60\n".to_string()),
        },
        ImportFile {
            stem: "20210101000001".to_string(),
            content: Ok("only one line".to_string()),
        },
        ImportFile {
            stem: "yesterday".to_string(),
            content: Ok("vim\n60".to_string()),
        },
        ImportFile {
            stem: "20210101000002".to_string(),
            content: Ok("vim\nlong".to_string()),
        },
        ImportFile {
            stem: "20210101000003".to_string(),
            content: Err("gone".to_string()),
        },
        ImportFile {
            stem: "20210101000004".to_string(),
            content: Ok("vim\n9223372036854775807".to_string()),
        },
    ];
    let req = ImportReq {
        path: "/data".to_string(),
        client_id: None,
    };
    let done = api_import_at(&mut s, Some(&basic()), &req, &files, 5).unwrap();
    assert_eq!((done.imported, done.failed), (1, 5));
    assert_eq!(done.errors[0], "20210101000001: insufficient lines");
    assert!(done.errors[1].starts_with("yesterday: parse filename datetime error "));
    assert!(done.errors[2].starts_with("20210101000002: parse duration error "));
    assert_eq!(done.errors[3], "20210101000003: read error gone");
    assert_eq!(done.errors[4], "20210101000004: duration out of range");
    let row = &s.db.records()[0];
    assert_eq!((row.start_time, row.end_time), (1_609_459_200, Some(1_609_459_260)));
    assert_eq!(row.client_id, "default");
    assert_eq!(row.command, Some("vim a".to_string()));
}

#[test]
fn pages_and_snapshots_are_for_the_administrator() {
    let mut s = state();
    start_session_at(&mut s.db, "desk", Some("<b>"), None, None, 50).unwrap();
    let html = web_admin_at(&s, Some(&basic()), 100).unwrap();
    assert!(html.contains("&lt;b&gt;"));
    assert!(!html.contains("<b>"));
    assert_eq!(web_index(&s, Some(&basic())), Ok(()));
    assert_eq!(
        api_backup_at(&s, Some(&basic()), 77),
        Ok("/tmp/wyd_backup_77.db".to_string())
    );
    assert_eq!(api_backup_at(&s, None, 77), Err(HttpError::Unauthorized));
    let parts = api_get_summary_md_at(&s, Some(&basic()), &everything(), 1_709_640_000, 738_950);
    assert!(parts.is_ok());
}

#[test]
fn the_first_token_is_made_once() {
    let mut db = Database::new();
    assert_eq!(
        ensure_first_token_at(&mut db, "tspan_first".to_string(), 5),
        Some("tspan_first".to_string())
    );
    assert_eq!(ensure_first_token_at(&mut db, "tspan_second".to_string(), 6), None);
    assert_eq!(db.api_tokens()[0].client_id, "default");
    assert_eq!(
        db.api_tokens()[0].description,
        Some("auto-generated initial token".to_string())
    );
}

#[test]
fn a_server_is_reached_from_its_own_machine() {
    assert_eq!(access_url("0.0.0.0:8080"), "127.0.0.1:8080");
    assert_eq!(access_url("[::]:80"), "[::1]:80");
    assert_eq!(access_url("10.0.0.1:80"), "10.0.0.1:80");
    assert!(integrity_due(6));
    assert!(!integrity_due(7));
}

#[test]
fn the_clock_stands_behind_the_requests() {
    let mut s = state();
    let path = api_backup(&s, Some(&basic())).unwrap();
    assert!(path.starts_with("/tmp/wyd_backup_") && path.ends_with(".db"));
    let stamp: i64 = path[16..path.len() - 3].parse().unwrap();
    assert!(stamp > 1_700_000_000);
    assert_eq!(api_backup(&s, None), Err(HttpError::Unauthorized));
    let parts = api_get_summary_md(&s, Some(&basic()), &everything()).unwrap();
    assert_eq!(parts.stats.total.total_times, 0);
    assert!(parts.all_svg.starts_with("<svg"));
    assert_eq!(
        api_get_summary_md(&s, None, &everything()).err(),
        Some(HttpError::Unauthorized)
    );
    let files = vec![ImportFile {
        stem: "20210101000000".to_string(),
        content: Ok("vim a\n60\n".to_string()),
    }];
    let req = ImportReq {
        path: "/data".to_string(),
        client_id: Some("desk".to_string()),
    };
    assert!(api_import(&mut s, Some(BEARER), &req, &files).is_err());
    let done = api_import(&mut s, Some(&basic()), &req, &files).unwrap();
    assert_eq!((done.imported, done.failed), (1, 0));
    assert_eq!(s.db.records()[0].client_id, "desk");
    let mut db = Database::new();
    let token = ensure_first_token(&mut db).unwrap();
    assert_eq!((token.len(), token.starts_with("tspan_")), (38, true));
    assert_eq!(db.api_tokens()[0].token, token);
    assert_eq!(ensure_first_token(&mut db), None);
}

#[test]
fn far_pages_are_out_of_reach() {
    let asked = |page: i64, per_page: i64| ListRecordsQuery {
        page: Some(page),
        per_page: Some(per_page),
        client_id: None,
        alias: None,
        command: None,
    };
    assert!(asked(i64::MAX, 1).in_reach());
    assert!(!asked(i64::MAX, 2).in_reach());
    assert!(asked(i64::MIN, i64::MAX).in_reach());
}
