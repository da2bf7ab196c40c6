use tspan::api::{api_error, done, ended, ApiClient, ApiFault, Method};
use tspan::api_types::{
    ApiToken, ClientStat, CommandStat, IntervalStats, OrphanedSession, PastNStat, RecordPageItem,
    RecordsPageResp, SessionBucket, SessionDistribution, Stats, StreakStats, TotalStats,
};
use tspan::app::{
    resolve_verbose_log, AdminAction, After, App, Job, Key, KeyCode, Overlay, OverviewData,
    TokenField, TuiOptions, GLOBAL_CLIENT,
};
use tspan::draw::{Body, Color, Picture};
use tspan::refresh::{Load, Outcome, Reply};
use tspan::selection::{
    format_timestamp, redact_token, select_clamped, select_first, select_last, select_next, select_previous,
    total_pages, TableState,
};
use tspan::tabs::{BreakdownKind, View};
use tspan::zone::find_tz;

const NOW: i64 = 1_700_000_500;

#[derive(Clone, Copy, PartialEq)]
enum Fixture {
    Empty,
    Workstation,
    Actions,
}

struct MockServer {
    fixture: Fixture,
    record_deleted: bool,
    session_ended: bool,
    token_revoked: bool,
}

impl MockServer {
    fn new(fixture: Fixture) -> Self {
        MockServer {
            fixture,
            record_deleted: false,
            session_ended: false,
            token_revoked: false,
        }
    }

    fn clients(&self) -> Vec<String> {
        match self.fixture {
            Fixture::Empty => vec![],
            Fixture::Workstation => vec!["workstation".to_string(), "other".to_string()],
            Fixture::Actions => vec!["client".to_string()],
        }
    }

    fn tokens(&self) -> Vec<ApiToken> {
        let token = |token: &str, client: &str, description: Option<&str>| ApiToken {
            token: token.to_string(),
            client_id: client.to_string(),
            description: description.map(str::to_string),
            created_at: 1_700_000_000,
        };
        match self.fixture {
            Fixture::Empty => vec![],
            Fixture::Workstation => vec![
                token("tspan_test", "workstation", Some("test")),
                token("tspan_other", "other", None),
            ],
            Fixture::Actions if !self.token_revoked => {
                vec![token("tspan_revoke_me", "client", None)]
            }
            Fixture::Actions => vec![],
        }
    }

    fn records(&self) -> RecordsPageResp {
        let record = |id: i64, client: &str, alias: Option<&str>, command: &str, start: i64, seconds: i64| {
            RecordPageItem {
                id,
                client_id: client.to_string(),
                alias: alias.map(str::to_string),
                command: Some(command.to_string()),
                start_time: start,
                end_time: Some(start + seconds),
                duration_seconds: Some(seconds),
                status: "completed".to_string(),
            }
        };
        let mut records = Vec::new();
        match self.fixture {
            Fixture::Workstation => records.push(record(
                1,
                "workstation",
                Some("development"),
                "cargo test",
                1_700_000_000,
                120,
            )),
            Fixture::Actions => {
                if !self.record_deleted {
                    records.push(record(1, "client", None, "done", 100, 60));
                }
                if self.session_ended {
                    records.push(record(2, "client", None, "running", 200, 60));
                }
            }
            Fixture::Empty => {}
        }
        RecordsPageResp {
            total: records.len() as i64,
            page: 1,
            per_page: 25,
            total_pages: 1,
            records,
        }
    }

    fn active(&self) -> Vec<OrphanedSession> {
        let session = |id: i64, client: &str, start: i64, command: &str| OrphanedSession {
            id,
            client_id: client.to_string(),
            start_time: start,
            running_seconds: 30,
            command: Some(command.to_string()),
            alias: None,
            process_id: None,
        };
        match self.fixture {
            Fixture::Workstation => vec![
                session(2, "workstation", 1_700_000_200, "vim"),
                session(3, "other", 1_700_000_200, "sleep"),
            ],
            Fixture::Actions if !self.session_ended => vec![session(2, "client", 200, "running")],
            Fixture::Empty | Fixture::Actions => vec![],
        }
    }

    fn overview(&self) -> OverviewData {
        let total_times = i64::from(self.fixture == Fixture::Workstation);
        OverviewData {
            stats: Stats {
                total: TotalStats {
                    total_days: 1,
                    active_days: total_times,
                    total_seconds: total_times * 120,
                    total_times,
                    mean_usage: total_times * 120,
                    total_ratio: "0.0".to_string(),
                    total_day_ratio: "0.0".to_string(),
                    from_date: "2023-11-14".to_string(),
                    total_duration_hr: "00 h 02 m 00 s".to_string(),
                    total_seconds_hr: "00 h 02 m 00 s".to_string(),
                    mean_usage_hr: "00 h 02 m 00 s".to_string(),
                },
                past_n: vec![],
                interval: IntervalStats {
                    current_interval: 0,
                    current_interval_hr: "0 s".to_string(),
                    max_interval: 0,
                    max_interval_hr: "0 s".to_string(),
                    mean_interval: 0,
                    mean_interval_hr: "0 s".to_string(),
                },
            },
            streaks: StreakStats {
                current_streak: 0,
                max_streak: 0,
                last_active_date: String::new(),
                last_active_time_hr: "0 s".to_string(),
            },
            distribution: SessionDistribution {
                max_seconds: 0,
                min_seconds: 0,
                median_seconds: 0,
                mean_seconds: 0,
                total_sessions: 0,
                max_seconds_hr: "0 s".to_string(),
                min_seconds_hr: "0 s".to_string(),
                median_seconds_hr: "0 s".to_string(),
                mean_seconds_hr: "0 s".to_string(),
                buckets: vec![],
            },
            by_client: vec![],
            by_alias: vec![],
            by_command: vec![],
        }
    }

    fn reply(&self, app: &App, load: &Load) -> Result<Reply, String> {
        let calls = load.calls(app);
        if app.api.authorization != "Basic YWRtaW46c2VjcmV0" {
            return Err(api_error(&calls[0].action, &ApiFault::Status(401)));
        }
        let paths: Vec<&str> = calls
            .iter()
            .map(|c| c.url.strip_prefix("http://127.0.0.1:1").unwrap())
            .collect();
        Ok(match paths[0] {
            "/api/clients" => Reply::Clients(self.clients()),
            "/api/admin/tokens" => Reply::Tokens(self.tokens()),
            "/api/records" => Reply::Records(self.records()),
            "/api/sessions/orphaned" => Reply::Active(self.active()),
            "/api/stats" => {
                assert_eq!(paths.len(), 6);
                Reply::Overview(self.overview())
            }
            other => panic!("unexpected request {other}"),
        })
    }

    fn load(&self, app: &mut App, mut load: Load) -> Result<(), String> {
        while !matches!(load, Load::Done) {
            let reply = self.reply(app, &load)?;
            load = app.refresh_all(load, reply, 0);
        }
        Ok(())
    }

    fn start(&self, options: &TuiOptions) -> Result<App, String> {
        let (mut app, load) = App::new(options, 0)?;
        self.load(&mut app, load)?;
        Ok(app)
    }

    fn perform(&mut self, app: &mut App, action: AdminAction) {
        let result = match &action {
            AdminAction::DeleteRecord(1) => {
                self.record_deleted = true;
                Ok(Outcome::Done(0))
            }
            AdminAction::EndSession(2) => {
                self.session_ended = true;
                Ok(Outcome::Done(60))
            }
            AdminAction::RevokeToken(token) if token == "tspan_revoke_me" => {
                self.token_revoked = true;
                Ok(Outcome::Done(0))
            }
            _ => Ok(Outcome::Gone),
        };
        match app.perform_action(&action, result) {
            Some(Job::Refresh(after)) => {
                let loaded = self.load(app, Load::Clients);
                app.finish_refresh(after, loaded, 0);
            }
            other => panic!("unexpected {other:?}"),
        }
    }
}

fn options(client_id: &str) -> TuiOptions {
    TuiOptions {
        server_url: "http://127.0.0.1:1".to_string(),
        username: "admin".to_string(),
        password: "secret".to_string(),
        initial_client_id: client_id.to_string(),
        timezone: "UTC".to_string(),
        page_size: 25,
        verbose_log: None,
    }
}

fn key(code: KeyCode) -> Key {
    Key {
        code,
        control: false,
        alt: false,
        pressed: true,
    }
}

fn press(app: &mut App, code: KeyCode) -> Option<Job> {
    app.handle_key(key(code))
}

fn notice(app: &App) -> (&str, bool) {
    let notice = app.notice.as_ref().unwrap();
    (notice.text.as_str(), notice.is_error)
}

#[test]
fn app_loads_stats_records_sessions_and_tokens() {
    let server = MockServer::new(Fixture::Workstation);

    let app = server.start(&options("workstation")).unwrap();
    assert_eq!(app.current_client(), "workstation");
    assert_eq!(app.overview.as_ref().unwrap().stats.total.total_times, 1);
    assert_eq!(app.records.len(), 1);
    assert_eq!(app.records[0].status, "completed");
    assert_eq!(app.active.len(), 1);
    assert_eq!(app.tokens.len(), 1);
    assert!(app.client_ids.iter().any(|client| client == "other"));
}

#[test]
fn all_views_render_at_the_minimum_supported_size() {
    let server = MockServer::new(Fixture::Empty);
    let mut app = server.start(&options(GLOBAL_CLIENT)).unwrap();
    for view in View::all() {
        app.view = view;
        assert!(matches!(app.draw(60, 16, NOW), Picture::Full { .. }));
        assert!(matches!(app.draw(59, 16, NOW), Picture::Small { .. }));
    }
    for overlay in [
        Overlay::Help,
        Overlay::Confirm(AdminAction::DeleteRecord(1)),
        Overlay::TokenForm {
            field: TokenField::ClientId,
            client_id: "client".to_string(),
            description: String::new(),
        },
        Overlay::TokenCreated("tspan_test".to_string()),
    ] {
        app.overlay = Some(overlay);
        match app.draw(60, 16, NOW) {
            Picture::Full { popup: Some(popup), .. } => assert!(!popup.lines.is_empty()),
            other => panic!("unexpected {other:?}"),
        }
    }
}

#[test]
fn confirmed_admin_actions_refresh_the_loaded_data() {
    let mut server = MockServer::new(Fixture::Actions);
    let mut app = server.start(&options(GLOBAL_CLIENT)).unwrap();

    server.perform(&mut app, AdminAction::DeleteRecord(1));
    assert!(app.records.iter().all(|record| record.id != 1));
    assert_eq!(notice(&app), ("Record #1 deleted", false));

    server.perform(&mut app, AdminAction::EndSession(2));
    assert!(app.active.iter().all(|record| record.id != 2));
    assert!(app.records.iter().any(|record| record.id == 2));
    assert_eq!(notice(&app), ("Session #2 ended (01 m 00 s)", false));

    server.perform(&mut app, AdminAction::RevokeToken("tspan_revoke_me".to_string()));
    assert!(app.tokens.is_empty());
    assert_eq!(notice(&app), ("Token tspan_revo…e_me revoked", false));
}

#[test]
fn authentication_failures_are_reported_clearly() {
    let server = MockServer::new(Fixture::Empty);
    let mut options = options(GLOBAL_CLIENT);
    options.password = "wrong".to_string();

    let error = match server.start(&options) {
        Ok(_) => panic!("invalid credentials unexpectedly succeeded"),
        Err(error) => error,
    };
    assert!(error.to_string().contains("authentication failed"));
}

#[test]
fn bad_options_are_refused() {
    let mut bad = options("x");
    bad.timezone = "Mars/Base".to_string();
    bad.server_url = "ftp://x".to_string();
    assert_eq!(App::new(&bad, 0).unwrap_err(), "invalid time zone 'Mars/Base'");
    bad.timezone = "UTC".to_string();
    assert_eq!(
        App::new(&bad, 0).unwrap_err(),
        "server URL must begin with http:// or https://"
    );
    bad.server_url = " https://x// ".to_string();
    bad.username = "a:b".to_string();
    assert_eq!(App::new(&bad, 0).unwrap_err(), "username cannot contain ':'");
    bad.username = "a".to_string();
    bad.initial_client_id = " ".to_string();
    let (app, load) = App::new(&bad, 0).unwrap();
    assert_eq!(app.api.label(), "https://x");
    assert!(matches!(load, Load::FirstClients { preferred } if preferred == GLOBAL_CLIENT));
}

#[test]
fn clients_are_sorted_and_the_chosen_one_is_kept() {
    let server = MockServer::new(Fixture::Workstation);
    let mut app = server.start(&options("middle")).unwrap();
    assert_eq!(app.client_ids, vec!["__global__", "middle", "other", "workstation"]);
    assert_eq!(app.current_client_label(), "middle");
    assert!(matches!(press(&mut app, KeyCode::Char(']')), Some(Job::Refresh(After::Shown))));
    assert_eq!(app.current_client(), "other");
    app.finish_refresh(After::Shown, Ok(()), 0);
    assert_eq!(notice(&app), ("Showing other", false));
    press(&mut app, KeyCode::Char('['));
    press(&mut app, KeyCode::Char('['));
    assert_eq!(app.current_client_label(), "all clients");
    press(&mut app, KeyCode::Char('['));
    assert_eq!(app.current_client(), "workstation");
}

#[test]
fn keys_switch_views_and_quit() {
    let server = MockServer::new(Fixture::Empty);
    let mut app = server.start(&options("")).unwrap();
    for (digit, view) in [('2', View::Breakdown), ('3', View::Records), ('4', View::Active), ('5', View::Tokens), ('1', View::Overview)] {
        press(&mut app, KeyCode::Char(digit));
        assert_eq!(app.view, view);
    }
    press(&mut app, KeyCode::BackTab);
    assert_eq!(app.view, View::Tokens);
    press(&mut app, KeyCode::Tab);
    assert_eq!(app.view, View::Overview);
    let released = Key { pressed: false, ..key(KeyCode::Char('q')) };
    app.handle_key(released);
    assert!(!app.should_quit);
    press(&mut app, KeyCode::Char('?'));
    press(&mut app, KeyCode::Char('q'));
    assert!(!app.should_quit);
    assert!(matches!(app.overlay, Some(Overlay::Help)));
    app.handle_key(Key { control: true, ..key(KeyCode::Char('c')) });
    assert!(app.should_quit);
    press(&mut app, KeyCode::Esc);
    assert!(app.overlay.is_none());
    assert!(press(&mut app, KeyCode::Char(']')).is_none());
}

#[test]
fn a_key_for_no_overlay_does_nothing() {
    let server = MockServer::new(Fixture::Actions);
    let mut app = server.start(&options(GLOBAL_CLIENT)).unwrap();
    let before = format!("{:?}", app.notice);
    for code in [KeyCode::Char('y'), KeyCode::Enter, KeyCode::Esc, KeyCode::Char('q')] {
        assert!(app.handle_overlay_key(key(code)).is_none());
    }
    assert!(app.overlay.is_none());
    assert!(!app.should_quit);
    assert_eq!(app.view, View::Overview);
    assert_eq!(format!("{:?}", app.notice), before);
}

#[test]
fn actions_wait_for_a_confirmation() {
    let server = MockServer::new(Fixture::Actions);
    let mut app = server.start(&options(GLOBAL_CLIENT)).unwrap();
    press(&mut app, KeyCode::Char('4'));
    assert!(press(&mut app, KeyCode::Char('e')).is_none());
    match &app.overlay {
        Some(Overlay::Confirm(action)) => {
            assert_eq!(action.prompt(), "End active session #2 at the current time?");
        }
        other => panic!("unexpected {other:?}"),
    }
    assert!(press(&mut app, KeyCode::Char('x')).is_none());
    assert!(app.overlay.is_some());
    assert!(press(&mut app, KeyCode::Char('n')).is_none());
    assert_eq!(notice(&app), ("Action cancelled", false));
    press(&mut app, KeyCode::Delete);
    assert!(matches!(
        press(&mut app, KeyCode::Enter),
        Some(Job::Act(AdminAction::DiscardSession(2)))
    ));
    assert!(app.overlay.is_none());
    press(&mut app, KeyCode::Char('5'));
    press(&mut app, KeyCode::Char('x'));
    match press(&mut app, KeyCode::Char('y')) {
        Some(Job::Act(AdminAction::RevokeToken(token))) => assert_eq!(token, "tspan_revoke_me"),
        other => panic!("unexpected {other:?}"),
    }
    press(&mut app, KeyCode::Char('3'));
    press(&mut app, KeyCode::Char('d'));
    assert!(matches!(
        press(&mut app, KeyCode::Char('y')),
        Some(Job::Act(AdminAction::DeleteRecord(1)))
    ));
}

#[test]
fn failures_are_told() {
    let server = MockServer::new(Fixture::Actions);
    let mut app = server.start(&options(GLOBAL_CLIENT)).unwrap();
    assert!(app
        .perform_action(&AdminAction::EndSession(2), Err("no luck".to_string()))
        .is_none());
    assert_eq!(notice(&app), ("no luck", true));
    let job = app.perform_action(&AdminAction::DiscardSession(2), Ok(Outcome::Gone));
    match job {
        Some(Job::Refresh(after)) => app.finish_refresh(after, Err("down".to_string()), 5),
        other => panic!("unexpected {other:?}"),
    }
    assert_eq!(notice(&app), ("Session #2 is no longer active; refresh failed: down", true));
    app.finish_refresh(After::Due, Err("down".to_string()), 77);
    assert_eq!(app.last_refresh, 77);
    assert!(app.token_made(Err("refused".to_string())).is_none());
    assert_eq!(notice(&app), ("refused", true));
    match app.token_made(Ok("tspan_created".to_string())) {
        Some(Job::Refresh(after)) => app.finish_refresh(after, Ok(()), 0),
        other => panic!("unexpected {other:?}"),
    }
    assert!(matches!(&app.overlay, Some(Overlay::TokenCreated(t)) if t == "tspan_created"));
    app.finish_refresh(After::Created("t".to_string()), Err("down".to_string()), 0);
    assert_eq!(notice(&app), ("Token created, but refresh failed: down", true));
    app.finish_refresh(After::Refreshed, Ok(()), 0);
    assert_eq!(notice(&app), ("Data refreshed", false));
}

#[test]
fn the_token_form_is_filled_in_and_sent() {
    let server = MockServer::new(Fixture::Empty);
    let mut app = server.start(&options("")).unwrap();
    press(&mut app, KeyCode::Char('5'));
    press(&mut app, KeyCode::Char('n'));
    assert!(matches!(&app.overlay, Some(Overlay::TokenForm { client_id, .. }) if client_id == "default"));
    app.handle_key(Key { control: true, ..key(KeyCode::Char('u')) });
    press(&mut app, KeyCode::Enter);
    for c in "my token".chars() {
        press(&mut app, KeyCode::Char(c));
    }
    assert!(press(&mut app, KeyCode::Enter).is_none());
    assert_eq!(notice(&app), ("Client ID cannot be empty", true));
    for c in " deskk".chars() {
        press(&mut app, KeyCode::Char(c));
    }
    press(&mut app, KeyCode::Backspace);
    app.handle_key(Key { alt: true, ..key(KeyCode::Char('z')) });
    press(&mut app, KeyCode::Tab);
    match press(&mut app, KeyCode::Enter) {
        Some(Job::Create { client_id, description }) => {
            assert_eq!(client_id, "desk");
            assert_eq!(description, Some("my token".to_string()));
        }
        other => panic!("unexpected {other:?}"),
    }
    press(&mut app, KeyCode::Char('n'));
    press(&mut app, KeyCode::Esc);
    assert_eq!(notice(&app), ("Token generation cancelled", false));
}

#[test]
fn pages_are_turned_within_bounds() {
    let server = MockServer::new(Fixture::Workstation);
    let mut app = server.start(&options("")).unwrap();
    press(&mut app, KeyCode::Char('3'));
    assert!(press(&mut app, KeyCode::Right).is_none());
    app.records_total = 60;
    assert!(matches!(press(&mut app, KeyCode::PageDown), Some(Job::Refresh(After::Paged))));
    assert_eq!((app.records_page, app.records_state.selected()), (2, None));
    press(&mut app, KeyCode::Char('n'));
    assert_eq!(app.records_page, 3);
    assert!(press(&mut app, KeyCode::Char('n')).is_none());
    server.load(&mut app, Load::Clients).unwrap();
    assert_eq!(app.records_page, 1);
    assert_eq!(app.records_state.selected(), Some(0));
}

#[test]
fn the_breakdown_scrolls_and_changes_category() {
    let server = MockServer::new(Fixture::Workstation);
    let mut app = server.start(&options("")).unwrap();
    let overview = app.overview.as_mut().unwrap();
    for name in ["a", "b", "c"] {
        overview.by_client.push(ClientStat {
            client_id: name.to_string(),
            total_seconds: 60,
            total_times: 2,
            mean_seconds: 30,
            total_seconds_hr: "01 m 00 s".to_string(),
            mean_seconds_hr: "30 s".to_string(),
        });
    }
    press(&mut app, KeyCode::Char('2'));
    for _ in 0..5 {
        press(&mut app, KeyCode::Down);
    }
    assert_eq!(app.breakdown_offset, 2);
    press(&mut app, KeyCode::Char('k'));
    match app.draw_breakdown(NOW) {
        Body::Tabbed { strip, sheet } => {
            assert_eq!(strip.tabs, vec![" Clients ", " Aliases ", " Commands ", " Durations "]);
            assert_eq!(sheet.title, " By client ");
            assert_eq!(sheet.rows.len(), 2);
            assert_eq!(sheet.rows[0], vec!["b", "01 m 00 s", "2", "30 s"]);
        }
        other => panic!("unexpected {other:?}"),
    }
    press(&mut app, KeyCode::Left);
    assert_eq!(app.breakdown_kind, BreakdownKind::Distribution);
    assert_eq!(app.breakdown_offset, 0);
    app.overview.as_mut().unwrap().distribution.buckets.push(SessionBucket {
        label: "<5 min".to_string(),
        count: 4,
        pct: "50.0".to_string(),
    });
    match app.draw_breakdown(NOW) {
        Body::Tabbed { sheet, .. } => {
            assert_eq!(sheet.title, " Durations · min 0 s · median 0 s · mean 0 s · max 0 s ");
            assert_eq!(sheet.rows, vec![vec!["<5 min", "4", "50.0%"]]);
        }
        other => panic!("unexpected {other:?}"),
    }
    press(&mut app, KeyCode::Char('l'));
    press(&mut app, KeyCode::Char('g'));
    assert_eq!(app.breakdown_kind, BreakdownKind::Clients);
}

#[test]
fn the_overview_shows_its_figures() {
    let server = MockServer::new(Fixture::Workstation);
    let mut app = server.start(&options("")).unwrap();
    {
        let overview = app.overview.as_mut().unwrap();
        overview.stats.past_n.push(PastNStat {
            name: "7 days".to_string(),
            seconds: 3_600,
            ratio: "1.0".to_string(),
            times: 3,
            day_ratio: "42.9".to_string(),
            days: 3,
            mean_usage: 1_200,
        });
        for i in 0..13 {
            overview.by_command.push(CommandStat {
                command: format!("c{i}"),
                total_seconds: 1,
                total_times: 1,
                mean_seconds: 1,
                total_seconds_hr: "01 s".to_string(),
                mean_seconds_hr: "01 s".to_string(),
            });
        }
    }
    match app.draw_overview(NOW) {
        Body::Figures { cards, detail, recent, commands } => {
            assert_eq!(cards.len(), 4);
            assert_eq!((cards[2].title.as_str(), cards[2].value.as_str()), (" Active days ", "1 (0.0%)"));
            assert_eq!(cards[3].color, Color::Magenta);
            assert_eq!(
                detail,
                " Since 2023-11-14  ·  Mean 00 h 02 m 00 s  ·  Median 0 s  ·  Last active 0 s "
            );
            assert_eq!(recent.rows, vec![vec!["7 days", "01 h 00 s", "3", "42.9%"]]);
            assert_eq!(commands.rows.len(), 12);
        }
        other => panic!("unexpected {other:?}"),
    }
    app.overview = None;
    assert!(matches!(app.draw_overview(NOW), Body::Remark(text) if text == "No statistics loaded"));
}

#[test]
fn tables_show_what_was_loaded() {
    let server = MockServer::new(Fixture::Workstation);
    let mut app = server.start(&options("workstation")).unwrap();
    app.view = View::Records;
    match app.draw(80, 24, NOW) {
        Picture::Full { header, body: Body::List { sheet, selected }, help, .. } => {
            assert_eq!(header.title, " TSPAN Admin · http://127.0.0.1:1 · workstation · UTC ");
            assert_eq!(header.tabs[2], " 3 Records ");
            assert_eq!(header.selected, 2);
            assert_eq!(sheet.title, " Records · page 1/1 · 1 total ");
            assert_eq!(
                sheet.rows[0],
                vec!["1", "2023-11-14 22:13", "workstation", "02 m 00 s", "development", "cargo test", "completed"]
            );
            assert_eq!(selected, Some(0));
            assert!(help.contains("d delete"));
        }
        other => panic!("unexpected {other:?}"),
    }
    match app.draw_active(1_700_000_230) {
        Body::List { sheet, .. } => {
            assert_eq!(sheet.title, " Active sessions · 1 ");
            assert_eq!(sheet.rows[0][3], "30 s");
        }
        other => panic!("unexpected {other:?}"),
    }
    match app.draw_tokens(NOW) {
        Body::List { sheet, .. } => {
            assert_eq!(sheet.rows, vec![vec!["tspan_test", "workstation", "test", "2023-11-14 22:13"]]);
        }
        other => panic!("unexpected {other:?}"),
    }
    match app.draw(10, 5, NOW) {
        Picture::Small { remark, .. } => assert_eq!(
            remark,
            "Terminal is too small (10x5).\nResize to at least 60x16.\n\nPress q to quit."
        ),
        other => panic!("unexpected {other:?}"),
    }
}

#[test]
fn refreshes_come_by_themselves() {
    let server = MockServer::new(Fixture::Empty);
    let mut app = server.start(&options("")).unwrap();
    app.last_refresh = 1_000;
    assert!(!app.refresh_due(10_999));
    assert!(app.refresh_due(11_000));
    assert!(!app.refresh_due(0));
    app.overlay = Some(Overlay::Help);
    assert!(!app.refresh_due(20_000));
}

#[test]
fn requests_name_their_path_and_filter() {
    let client = ApiClient::new("http://h:8080/", "admin", "secret").unwrap();
    assert_eq!(client.endpoint("//clients"), "http://h:8080/api/clients");
    let calls = client.overview("desk", &find_tz("Asia/Shanghai").unwrap());
    assert_eq!(calls[1].url, "http://h:8080/api/stats/streaks");
    assert_eq!(calls[1].query[1], ("tz".to_string(), "Asia/Shanghai".to_string()));
    assert_eq!(calls[5].query[1], ("depth".to_string(), "1".to_string()));
    let records = client.records("desk", 3, 25);
    assert_eq!(records.query[1], ("page".to_string(), "3".to_string()));
    assert_eq!(records.action, "load records");
    assert_eq!(client.delete_record(9).url, "http://h:8080/api/admin/records/9");
    assert_eq!(client.delete_record(9).method, Method::Delete);
    assert_eq!(client.end_session(9).url, "http://h:8080/api/sessions/9/end");
    assert_eq!(client.discard_session(9).method, Method::Post);
    assert_eq!(client.revoke_token("t").url, "http://h:8080/api/admin/tokens/t");
    assert_eq!(client.create_token().action, "create token");
}

#[test]
fn faults_have_a_message() {
    assert_eq!(api_error("x", &ApiFault::Status(403)), "x: administrator access is required");
    assert_eq!(api_error("x", &ApiFault::Status(500)), "x: server returned HTTP 500");
    assert_eq!(api_error("x", &ApiFault::Unreadable), "x: could not read server response");
    assert_eq!(api_error("x", &ApiFault::InvalidJson), "x: server returned invalid JSON");
    assert_eq!(api_error("x", &ApiFault::Other("timeout".to_string())), "x: timeout");
    assert_eq!(done("x", Ok(())), Ok(true));
    assert_eq!(done("x", Err(ApiFault::Status(404))), Ok(false));
    assert!(done("x", Err(ApiFault::Status(401))).unwrap_err().contains("authentication failed"));
    assert_eq!(ended(Ok(5)), Ok(Some(5)));
    assert_eq!(ended(Err(ApiFault::Status(404))), Ok(None));
    assert_eq!(
        ended(Err(ApiFault::Status(500))),
        Err("end session: server returned HTTP 500".to_string())
    );
}

#[test]
fn times_are_shown_in_the_zone() {
    let zone = find_tz("Asia/Shanghai").unwrap();
    assert_eq!(format_timestamp(1_700_000_000, &zone), "2023-11-15 06:13");
    assert_eq!(format_timestamp(i64::MAX, &zone), "invalid timestamp");
}

#[test]
fn selection_wraps_and_handles_empty_lists() {
    let mut state = TableState::default();
    select_next(&mut state, 3);
    assert_eq!(state.selected(), Some(0));
    select_previous(&mut state, 3);
    assert_eq!(state.selected(), Some(2));
    select_next(&mut state, 0);
    assert_eq!(state.selected(), None);
}

#[test]
fn page_count_never_drops_below_one() {
    assert_eq!(total_pages(0, 25), 1);
    assert_eq!(total_pages(25, 25), 1);
    assert_eq!(total_pages(26, 25), 2);
}

#[test]
fn token_redaction_keeps_context() {
    assert_eq!(redact_token("tspan_1234567890abcdef"), "tspan_1234…cdef");
    assert_eq!(redact_token("short-token"), "short-token");
}

fn command() -> clap::Command {
    clap::Command::new("tspan-tui")
        .arg(
            clap::Arg::new("verbose")
                .short('v')
                .long("verbose")
                .action(clap::ArgAction::SetTrue),
        )
        .arg(clap::Arg::new("verbose_log").long("verbose-log"))
}

#[test]
fn verbose_short_and_long_flags_are_accepted() {
    let cli = command().try_get_matches_from(["tspan-tui", "-v"]).unwrap();
    assert!(cli.get_flag("verbose"));
    assert_eq!(
        resolve_verbose_log(
            cli.get_flag("verbose"),
            cli.get_one::<String>("verbose_log").cloned()
        ),
        Some("tspan-tui-api.log".to_string())
    );
    assert!(command()
        .try_get_matches_from(["tspan-tui", "--verbose"])
        .unwrap()
        .get_flag("verbose"));
    let cli = command()
        .try_get_matches_from(["tspan-tui", "--verbose-log", "trace.log"])
        .unwrap();
    assert_eq!(
        resolve_verbose_log(
            cli.get_flag("verbose"),
            cli.get_one::<String>("verbose_log").cloned()
        ),
        Some("trace.log".to_string())
    );
    assert_eq!(resolve_verbose_log(false, None), None);
}

#[test]
fn selection_is_clamped_and_moves_to_the_ends() {
    let mut state = TableState::default();
    select_clamped(&mut state, 7, 3);
    assert_eq!(state.selected(), Some(2));
    select_clamped(&mut state, 1, 3);
    assert_eq!(state.selected(), Some(1));
    select_clamped(&mut state, 0, 0);
    assert_eq!(state.selected(), None);
    select_last(&mut state, 4);
    assert_eq!(state.selected(), Some(3));
    select_next(&mut state, 4);
    assert_eq!(state.selected(), Some(0));
    select_first(&mut state, 4);
    assert_eq!(state.selected(), Some(0));
    select_previous(&mut state, 4);
    assert_eq!(state.selected(), Some(3));
}
