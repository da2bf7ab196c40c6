use tspan::db::{
    add_api_token, add_api_token_at, delete_api_token, delete_record, discard_session,
    discard_session_admin, distinct_client_ids, end_session, end_session_admin,
    end_session_admin_at, end_session_at, ensure_client, ensure_client_at, get_orphaned_sessions,
    get_orphaned_sessions_admin, import_record, import_record_at, list_api_tokens, list_clients,
    list_records_page, record_from_row, start_session, start_session_at, status_name,
    verify_api_token, ApiToken, Client, Database, DbError, ExecEvent, Status, StoredRecord,
};
use tspan::tokens::command_to_tokens;

fn setup() -> Database {
    Database::new()
}

fn stored(db: &Database, id: i64) -> &StoredRecord {
    db.records().iter().find(|r| r.id == id).unwrap()
}

#[test]
fn test_command_to_tokens_simple() {
    assert_eq!(
        command_to_tokens("perf stats record"),
        Some(r#"["perf","stats","record"]"#.to_string())
    );
}

#[test]
fn test_command_to_tokens_quoted() {
    assert_eq!(
        command_to_tokens("ls \"xxx yyy\""),
        Some(r#"["ls","xxx yyy"]"#.to_string())
    );
}

#[test]
fn test_command_to_tokens_single_quoted() {
    assert_eq!(
        command_to_tokens("echo 'hello world'"),
        Some(r#"["echo","hello world"]"#.to_string())
    );
}

#[test]
fn test_command_to_tokens_unclosed_quote_fallback() {
    let result = command_to_tokens("echo \"hello").unwrap();
    assert!(result.contains("echo"));
    assert!(result.contains("\"hello"));
}

#[test]
fn test_command_to_tokens_empty() {
    assert_eq!(command_to_tokens(""), Some(r#"[]"#.to_string()));
}

#[test]
fn test_start_session_stores_tokens() {
    let mut db = setup();
    let id = start_session(
        &mut db,
        "test-client",
        Some("python train.py --epochs 10"),
        None,
        None,
    )
    .unwrap();
    let tokens = stored(&db, id).command_tokens.clone().unwrap();
    assert_eq!(tokens, r#"["python","train.py","--epochs","10"]"#);
}

#[test]
fn test_start_session_null_command_no_tokens() {
    let mut db = setup();
    let id = start_session(&mut db, "test-client", None, Some("alias-only"), None).unwrap();
    assert_eq!(stored(&db, id).command_tokens, None);
}

#[test]
fn test_import_record_stores_command_and_tokens() {
    let mut db = setup();
    import_record(
        &mut db,
        "imported",
        1609459200,
        1609459260,
        60,
        Some("vim file.txt"),
        Some("editing"),
    )
    .unwrap();
    let row = db.records().iter().find(|r| r.client_id == "imported").unwrap();
    assert_eq!(row.command, Some("vim file.txt".to_string()));
    assert_eq!(row.command_tokens, Some(r#"["vim","file.txt"]"#.to_string()));
    assert_eq!(row.alias, Some("editing".to_string()));
}

#[test]
fn test_import_record_null_command() {
    let mut db = setup();
    import_record(&mut db, "imported", 1609459200, 1609459260, 60, None, None).unwrap();
    let row = db.records().iter().find(|r| r.client_id == "imported").unwrap();
    assert_eq!(row.command, None);
    assert_eq!(row.command_tokens, None);
    assert_eq!(row.alias, None);
}

#[test]
fn a_session_ends_with_the_time_it_took() {
    let mut db = setup();
    let id = start_session_at(&mut db, "c1", Some("vim"), None, Some(7), 1_000).unwrap();
    assert_eq!(id, 1);
    assert_eq!(end_session_at(&mut db, id, "c1", 1_090), Some(90));
    let row = stored(&db, id);
    assert_eq!(row.status, Status::Completed);
    assert_eq!(row.end_time, Some(1_090));
    assert_eq!(row.duration_seconds, Some(90));
    assert_eq!(row.process_id, Some(7));
    assert_eq!(end_session_at(&mut db, id, "c1", 1_200), None);
    assert!(!discard_session(&mut db, id, "c1"));
    assert_eq!(stored(&db, id).duration_seconds, Some(90));
}

#[test]
fn a_session_may_end_before_it_started_by_the_clock() {
    let mut db = setup();
    let id = start_session_at(&mut db, "c1", None, None, None, 1_000).unwrap();
    assert_eq!(end_session_at(&mut db, id, "c1", 990), Some(-10));
}

#[test]
fn only_its_own_client_ends_a_session() {
    let mut db = setup();
    let id = start_session_at(&mut db, "c1", None, None, None, 50).unwrap();
    let other = start_session_at(&mut db, "c2", None, None, None, 60).unwrap();
    assert_eq!(end_session_at(&mut db, id, "c2", 70), None);
    assert!(!discard_session(&mut db, id, "c2"));
    assert_eq!(stored(&db, id).status, Status::Active);
    assert_eq!(end_session_admin_at(&mut db, id, 80), Some(30));
    assert_eq!(stored(&db, other).status, Status::Active);
    assert!(discard_session_admin(&mut db, other));
    assert_eq!(stored(&db, other).status, Status::Discarded);
    assert_eq!(stored(&db, other).end_time, None);
    assert_eq!(end_session_admin(&mut db, other), None);
}

#[test]
fn sessions_end_by_the_clock() {
    let mut db = setup();
    let id = start_session(&mut db, "c1", None, None, None).unwrap();
    let started = stored(&db, id).start_time;
    let duration = end_session(&mut db, id, "c1").unwrap();
    assert!(started > 1_600_000_000);
    assert!((0..60).contains(&duration));
}

#[test]
fn ids_are_not_given_out_twice() {
    let mut db = setup();
    let first = start_session_at(&mut db, "c1", None, None, None, 1).unwrap();
    let second = start_session_at(&mut db, "c1", None, None, None, 2).unwrap();
    assert!(delete_record(&mut db, second));
    assert!(!delete_record(&mut db, second));
    let third = start_session_at(&mut db, "c1", None, None, None, 3).unwrap();
    assert_eq!((first, second, third), (1, 2, 3));
}

#[test]
fn a_full_store_takes_no_more_sessions() {
    let mut db = Database::load(vec![], vec![], vec![], i64::MAX, vec![], 0).unwrap();
    assert_eq!(
        start_session_at(&mut db, "c1", None, None, None, 5),
        Err(DbError::Full)
    );
    assert_eq!(
        import_record_at(&mut db, "c2", 1, 2, 1, None, None, 6),
        Err(DbError::Full)
    );
    assert_eq!(db.clients().len(), 2);
    assert!(db.records().is_empty());
}

#[test]
fn clients_are_noted_once_and_seen_again() {
    let mut db = setup();
    ensure_client_at(&mut db, "c1", 10);
    ensure_client_at(&mut db, "c2", 20);
    ensure_client_at(&mut db, "c1", 30);
    let clients = list_clients(&db);
    assert_eq!(clients.len(), 2);
    assert_eq!(clients[0].id, "c1");
    assert_eq!((clients[0].created_at, clients[0].last_seen), (10, 30));
    assert_eq!(clients[0].name, Some("c1".to_string()));
    assert_eq!(clients[1].id, "c2");
    ensure_client(&mut db, "c3");
    assert_eq!(list_clients(&db)[0].id, "c3");
}

#[test]
fn running_sessions_are_listed_latest_first() {
    let mut db = setup();
    let a = start_session_at(&mut db, "c1", Some("a"), None, None, 100).unwrap();
    let b = start_session_at(&mut db, "c2", Some("b"), None, None, 300).unwrap();
    let c = start_session_at(&mut db, "c1", Some("c"), Some("x"), None, 200).unwrap();
    let all: Vec<i64> = get_orphaned_sessions_admin(&db).iter().map(|r| r.id).collect();
    assert_eq!(all, vec![b, c, a]);
    let own = get_orphaned_sessions(&db, "c1");
    assert_eq!(own.len(), 2);
    assert_eq!(own[0].id, c);
    assert_eq!(own[0].alias, Some("x".to_string()));
    assert_eq!(own[0].status, "active");
    end_session_at(&mut db, c, "c1", 400);
    assert_eq!(get_orphaned_sessions(&db, "c1").len(), 1);
}

#[test]
fn records_are_listed_by_page_and_filter() {
    let mut db = setup();
    for i in 0..5 {
        import_record_at(
            &mut db,
            if i % 2 == 0 { "even" } else { "odd" },
            1_000 + i,
            2_000 + i,
            1_000,
            Some("cargo test"),
            Some("work"),
            0,
        )
        .unwrap();
    }
    start_session_at(&mut db, "even", Some("cargo run"), None, None, 9_000).unwrap();
    let (page, total) = list_records_page(&db, "", "", "", 1, 2).unwrap();
    assert_eq!(total, 5);
    assert_eq!(page.iter().map(|r| r.start_time).collect::<Vec<_>>(), vec![1_004, 1_003]);
    let (page, _) = list_records_page(&db, "__global__", "", "", 3, 2).unwrap();
    assert_eq!(page.iter().map(|r| r.start_time).collect::<Vec<_>>(), vec![1_000]);
    let (page, _) = list_records_page(&db, "", "", "", 4, 2).unwrap();
    assert!(page.is_empty());
    let (page, total) = list_records_page(&db, "odd", "WOR", "GO T", 1, 10).unwrap();
    assert_eq!((page.len(), total), (2, 2));
    assert_eq!(page[0].status, "completed");
    let (_, total) = list_records_page(&db, "odd", "play", "", 1, 10).unwrap();
    assert_eq!(total, 0);
}

#[test]
fn known_clients_are_those_of_records() {
    let mut db = setup();
    start_session_at(&mut db, "b", None, None, None, 1).unwrap();
    start_session_at(&mut db, "a", None, None, None, 2).unwrap();
    start_session_at(&mut db, "b", None, None, None, 3).unwrap();
    let mut ids = distinct_client_ids(&db);
    ids.sort();
    assert_eq!(ids, vec!["a".to_string(), "b".to_string()]);
}

#[test]
fn a_token_works_until_it_is_deleted() {
    let mut db = setup();
    assert_eq!(verify_api_token(&db, "t1"), (false, String::new()));
    add_api_token_at(&mut db, "t1", "c1", Some("first"), 10).unwrap();
    add_api_token(&mut db, "t2", "c2", None).unwrap();
    assert_eq!(verify_api_token(&db, "t1"), (true, "c1".to_string()));
    assert_eq!(
        add_api_token_at(&mut db, "t1", "c9", None, 20),
        Err(DbError::DuplicateToken)
    );
    assert_eq!(verify_api_token(&db, "t1"), (true, "c1".to_string()));
    let listed = list_api_tokens(&db);
    assert_eq!(listed[0].token, "t2");
    assert_eq!(listed[1].description, Some("first".to_string()));
    assert!(delete_api_token(&mut db, "t1"));
    assert!(!delete_api_token(&mut db, "t1"));
    assert_eq!(verify_api_token(&db, "t1"), (false, String::new()));
    assert_eq!(verify_api_token(&db, "t2"), (true, "c2".to_string()));
}

fn row(id: i64, client: &str) -> StoredRecord {
    StoredRecord {
        id,
        client_id: client.to_string(),
        start_time: 100,
        end_time: Some(160),
        duration_seconds: Some(60),
        command: Some("vim".to_string()),
        command_tokens: Some("[\"vim\"]".to_string()),
        alias: None,
        process_id: None,
        status: Status::Completed,
        created_at: 100,
    }
}

fn client(id: &str) -> Client {
    Client {
        id: id.to_string(),
        name: None,
        created_at: 1,
        last_seen: 1,
    }
}

fn token(token: &str) -> ApiToken {
    ApiToken {
        token: token.to_string(),
        client_id: "c1".to_string(),
        description: None,
        created_at: 1,
    }
}

#[test]
fn a_store_is_loaded_from_sound_rows_only() {
    assert!(Database::load(vec![client("c1")], vec![token("t")], vec![row(3, "c1")], 3, vec![], 0).is_some());
    assert!(Database::load(vec![client("c1"), client("c1")], vec![], vec![], 0, vec![], 0).is_none());
    assert!(Database::load(vec![], vec![token("t"), token("t")], vec![], 0, vec![], 0).is_none());
    assert!(Database::load(vec![], vec![], vec![row(1, "c1")], 1, vec![], 0).is_none());
    assert!(Database::load(vec![client("c1")], vec![], vec![row(2, "c1")], 1, vec![], 0).is_none());
    assert!(Database::load(vec![client("c1")], vec![], vec![row(2, "c1"), row(1, "c1")], 2, vec![], 0).is_none());
    assert!(Database::load(vec![], vec![], vec![], -1, vec![], 0).is_none());
    let mut running = row(1, "c1");
    running.status = Status::Active;
    running.start_time = -1;
    assert!(Database::load(vec![client("c1")], vec![], vec![running], 1, vec![], 0).is_none());
    let failed = |id: i64| ExecEvent {
        id,
        client_id: "c1".to_string(),
        command: "nothing".to_string(),
        process_id: 1,
        timestamp: 2,
        errno: -2,
    };
    let load = |events: Vec<ExecEvent>, last: i64| {
        Database::load(vec![], vec![], vec![], 0, events, last).is_some()
    };
    assert!(load(vec![failed(1), failed(4)], 5));
    assert!(!load(vec![failed(4), failed(4)], 5));
    assert!(!load(vec![failed(0)], 5));
    assert!(!load(vec![failed(6)], 5));
    assert!(!load(vec![], -1));
}

#[test]
fn a_loaded_store_goes_on_where_it_stopped() {
    let mut db = Database::load(vec![client("c1")], vec![], vec![row(3, "c1")], 8, vec![], 0).unwrap();
    assert_eq!(db.last_id(), 8);
    let id = start_session_at(&mut db, "c1", None, None, None, 200).unwrap();
    assert_eq!(id, 9);
    assert_eq!(db.api_tokens().len(), 0);
}

#[test]
fn rows_are_listed_with_the_name_of_their_status() {
    let listed = record_from_row(&row(3, "c1"));
    assert_eq!(listed.status, "completed");
    assert_eq!(listed.duration_seconds, Some(60));
    assert_eq!(status_name(Status::Active), "active");
    assert_eq!(status_name(Status::Discarded), "discarded");
}
