//! What the server answers: each request checked against who may make it, then carried out on the
//! store.

use crate::auth;
use crate::auth::{check_api_auth, check_web_auth, AuthConfig, HttpError};
use crate::breakdown;
use crate::breakdown::{
    compute_stats_by_alias, compute_stats_by_client, compute_stats_by_command, AliasStat,
    ClientStat, CommandStat,
};
use crate::calendar;
use crate::calendar::{local_today, utc_now, MAX_TIME};
use crate::db;
use crate::db::{
    add_api_token_at, delete_api_token, delete_record, discard_session_admin, distinct_client_ids,
    end_session_admin_at, end_session_at, get_orphaned_sessions_admin, list_api_tokens,
    list_records_page, log_exec_event, start_session_at, ApiToken, Database, DbError,
};
use crate::distribution;
use crate::distribution::{compute_session_distribution, SessionDistribution};
use crate::html;
use crate::html::render_admin;
use crate::importer;
use crate::importer::{import_from_directory_at, ImportFile, ImportResult};
use crate::order;
use crate::rhythm;
use crate::rhythm::{
    compute_hourly_heatmap, compute_monthly_trend, compute_streaks, compute_weekday_weekend_stats,
    get_daily_data, HourlyHeatmap, MonthlyPoint, StreakStats, WeekdayWeekendStats,
};
use crate::stats;
use crate::stats::{compute_stats_at, Need, Stats, StatsError};
use crate::svg_calendar;
use crate::svg_calendar::{generate_all_years_svgs_on, try_generate_svg_calendar_on};
use crate::tally;
use crate::text;
use crate::text::{int_text, replace_char};
use crate::zone;
use crate::zone::{resolve_tz, Tz};
use vstd::prelude::*;

verus! {

/// What the server works on.
pub struct AppState {
    pub db: Database,
    pub auth: AuthConfig,
    pub command_token_limit: usize,
}

/// A request to start a session.
pub struct StartSessionReq {
    pub client_id: Option<String>,
    pub command: Option<String>,
    pub alias: Option<String>,
    pub process_id: Option<i64>,
}

/// The session that was started.
#[derive(Debug, Clone, Copy, PartialEq, Eq, Structural)]
pub struct StartSessionResp {
    pub session_id: i64,
    pub start_time: i64,
}

/// A report of a program that could not be started.
#[derive(Debug)]
pub struct ExecEventReq {
    pub client_id: String,
    pub command: String,
    pub process_id: i64,
    pub timestamp: i64,
    pub errno: i64,
}

/// The session that was ended.
#[derive(Debug, Clone, Copy, PartialEq, Eq, Structural)]
pub struct EndSessionResp {
    pub session_id: i64,
    pub duration_seconds: i64,
}

/// A running session.
#[derive(Debug)]
pub struct OrphanedSession {
    pub id: i64,
    pub client_id: String,
    pub start_time: i64,
    pub running_seconds: i64,
    pub command: Option<String>,
    pub alias: Option<String>,
    pub process_id: Option<i64>,
}

/// A request to import the files of a directory.
pub struct ImportReq {
    pub path: String,
    pub client_id: Option<String>,
}

/// The filters of a statistics request.
pub struct FilterQuery {
    pub client_id: Option<String>,
    pub alias: Option<String>,
    pub command: Option<String>,
    pub tz: Option<String>,
    pub depth: Option<usize>,
}

/// The calendars.
#[derive(Debug)]
pub struct SvgResp {
    pub all_time: String,
    pub years: Vec<(String, String)>,
}

/// A request to make a token.
pub struct CreateTokenReq {
    pub client_id: Option<String>,
    pub description: Option<String>,
}

/// The token that was made.
#[derive(Debug)]
pub struct CreateTokenResp {
    pub token: String,
}

/// A request for a page of records.
pub struct ListRecordsQuery {
    pub page: Option<i64>,
    pub per_page: Option<i64>,
    pub client_id: Option<String>,
    pub alias: Option<String>,
    pub command: Option<String>,
}

/// A record on a page.
#[derive(Debug)]
pub struct RecordPageItem {
    pub id: i64,
    pub client_id: String,
    pub alias: Option<String>,
    pub command: Option<String>,
    pub start_time: i64,
    pub end_time: Option<i64>,
    pub duration_seconds: Option<i64>,
    pub status: String,
}

/// A page of records.
#[derive(Debug)]
pub struct RecordsPageResp {
    pub records: Vec<RecordPageItem>,
    pub total: i64,
    pub page: i64,
    pub per_page: i64,
    pub total_pages: i64,
}

/// What a report is made of.
pub struct SummaryParts {
    pub stats: Stats,
    pub all_svg: String,
    pub year_svgs: Vec<(String, String)>,
}

impl AppState {
    /// The store is well-formed.
    pub open spec fn wf(&self) -> bool {
        self.db.wf()
    }

    /// Whether a header carries the credentials of the web interface.
    pub open spec fn admits(&self, header: Option<&str>) -> bool {
        auth::web_authorized(self.auth, text::opt_str(header))
    }
}

/// Whether two states differ at most in their stores.
pub open spec fn same_setup(a: AppState, b: AppState) -> bool {
    a.auth == b.auth && a.command_token_limit == b.command_token_limit
}

/// A given text, or another one where none is given.
pub open spec fn given_or(t: Option<String>, other: Seq<char>) -> Seq<char> {
    match t {
        Some(s) => s@,
        None => other,
    }
}

fn text_or(t: &Option<String>, other: &str) -> (r: String)
    ensures
        r@ == given_or(*t, other@),
{
    match t {
        Some(s) => s.clone(),
        None => other.to_owned(),
    }
}

fn as_borrowed(t: &Option<String>) -> (r: Option<&str>)
    ensures
        text::opt_str(r) == text::opt_text(*t),
{
    match t {
        Some(s) => Some(s.as_str()),
        None => None,
    }
}

impl FilterQuery {
    /// The client asked for; all of them where none is named.
    pub open spec fn client(&self) -> Seq<char> {
        given_or(self.client_id, "__global__"@)
    }

    /// The alias asked for.
    pub open spec fn alias_text(&self) -> Seq<char> {
        given_or(self.alias, ""@)
    }

    /// The command pattern asked for.
    pub open spec fn command_text(&self) -> Seq<char> {
        given_or(self.command, ""@)
    }

    /// The zone asked for: `UTC` where none is named or it is unknown.
    pub open spec fn zone(&self) -> Seq<char> {
        match self.tz {
            Some(name) => if zone::zone_known(name@) {
                name@
            } else {
                "UTC"@
            },
            None => "UTC"@,
        }
    }

    /// Whether a record is held against a command pattern with too many bytes.
    pub open spec fn refused(&self, d: db::DbView, need: Need) -> bool {
        stats::refused(d.records, self.client(), self.alias_text(), self.command_text(), need)
    }

    /// The number of words to group commands by; whole commands where none is given.
    pub open spec fn words(&self) -> usize {
        match self.depth {
            Some(d) => d,
            None => 0,
        }
    }

    fn tz(&self) -> (r: Tz)
        ensures
            r@ == self.zone(),
    {
        resolve_tz(as_borrowed(&self.tz))
    }
}

/// Who makes a request: a client with a token, or the administrator.
pub open spec fn caller_of(state: AppState, header: Option<Seq<char>>) -> Option<
    (bool, Seq<char>),
> {
    match auth::api_client(state.db@, header) {
        Some(client) => Some((false, client)),
        None => if auth::web_authorized(state.auth, header) {
            Some((true, "__global__"@))
        } else {
            None
        },
    }
}

/// Who makes a request: the client of a stored token, else the administrator of the web
/// interface. The first part tells whether it is the administrator.
pub fn resolve_auth(state: &AppState, header: Option<&str>) -> (r: Result<(bool, String), HttpError>)
    requires
        state.wf(),
    ensures
        match r {
            Ok((admin, client)) => caller_of(*state, text::opt_str(header)) == Some(
                (admin, client@),
            ),
            Err(e) => e == HttpError::Unauthorized && caller_of(
                *state,
                text::opt_str(header),
            ) is None,
        },
{
    match check_api_auth(&state.db, header) {
        Ok(client) => Ok((false, client)),
        Err(_e) => match check_web_auth(&state.auth, header) {
            Ok(_) => Ok((true, "__global__".to_owned())),
            Err(e) => Err(e),
        },
    }
}

// ---------------------------------------------------------------------------------------------
// Sessions
// ---------------------------------------------------------------------------------------------

/// What a request to start a session at `now` leaves behind and answers. Without a stored token it
/// is refused and nothing changes; a client that the request names stands in for that of the
/// token.
pub open spec fn start_answered(
    before: AppState,
    header: Option<Seq<char>>,
    req: StartSessionReq,
    now: i64,
    after: AppState,
    r: Result<StartSessionResp, HttpError>,
) -> bool {
    &&& same_setup(before, after)
    &&& match auth::api_client(before.db@, header) {
        None => r == Err::<StartSessionResp, HttpError>(HttpError::Unauthorized) && after.db@
            == before.db@,
        Some(client) => {
            &&& db::session_started(
                before.db@,
                given_or(req.client_id, client),
                text::opt_text(req.command),
                text::opt_text(req.alias),
                req.process_id,
                now,
                after.db@,
                next_id(before.db@),
            )
            &&& r == match next_id(before.db@) {
                Ok(id) => Ok::<StartSessionResp, HttpError>(
                    StartSessionResp { session_id: id, start_time: now },
                ),
                Err(_) => Err::<StartSessionResp, HttpError>(HttpError::Internal),
            }
        },
    }
}

/// The id that the next record gets.
pub open spec fn next_id(d: db::DbView) -> Result<i64, DbError> {
    if d.last_id == i64::MAX {
        Err(DbError::Full)
    } else {
        Ok((d.last_id + 1) as i64)
    }
}

/// Starts a session at `now`.
pub fn api_start_session_at(
    state: &mut AppState,
    header: Option<&str>,
    req: &StartSessionReq,
    now: i64,
) -> (r: Result<StartSessionResp, HttpError>)
    requires
        old(state).wf(),
        0 <= now <= MAX_TIME,
    ensures
        final(state).wf(),
        start_answered(*old(state), text::opt_str(header), *req, now, *final(state), r),
{
    let token_client = match check_api_auth(&state.db, header) {
        Ok(c) => c,
        Err(e) => {
            return Err(e);
        },
    };
    let client = text_or(&req.client_id, token_client.as_str());
    let outcome = start_session_at(
        &mut state.db,
        client.as_str(),
        as_borrowed(&req.command),
        as_borrowed(&req.alias),
        req.process_id,
        now,
    );
    assert(outcome == next_id(old(state).db@));
    match outcome {
        Ok(id) => Ok(StartSessionResp { session_id: id, start_time: now }),
        Err(_e) => Err(HttpError::Internal),
    }
}

/// Starts a session now.
pub fn api_start_session(state: &mut AppState, header: Option<&str>, req: &StartSessionReq) -> (r:
    Result<StartSessionResp, HttpError>)
    requires
        old(state).wf(),
    ensures
        final(state).wf(),
        exists|now: i64|
            0 <= now <= MAX_TIME && #[trigger] start_answered(
                *old(state),
                text::opt_str(header),
                *req,
                now,
                *final(state),
                r,
            ),
{
    let now: i64 = utc_now();
    api_start_session_at(state, header, req, now)
}

/// The client whose sessions a caller may end; `None` for the administrator, who may end any.
pub open spec fn reach_of(who: (bool, Seq<char>)) -> Option<Seq<char>> {
    if who.0 {
        None
    } else {
        Some(who.1)
    }
}

/// What a request that reports a program that could not be started leaves behind and answers: the id
/// under which the report is stored. Without a stored token it is refused and nothing changes.
pub open spec fn exec_event_answered(
    before: AppState,
    header: Option<Seq<char>>,
    req: ExecEventReq,
    after: AppState,
    r: Result<i64, HttpError>,
) -> bool {
    &&& same_setup(before, after)
    &&& match auth::api_client(before.db@, header) {
        None => r == Err::<i64, HttpError>(HttpError::Unauthorized) && after.db@ == before.db@,
        Some(_) => {
            &&& db::exec_event_logged(
                before.db@,
                req.client_id@,
                req.command@,
                req.process_id,
                req.timestamp,
                req.errno,
                after.db@,
                next_event_id(before.db@),
            )
            &&& r == match next_event_id(before.db@) {
                Ok(id) => Ok::<i64, HttpError>(id),
                Err(_) => Err::<i64, HttpError>(HttpError::Internal),
            }
        },
    }
}

/// The id that the next report of a program that could not be started gets.
pub open spec fn next_event_id(d: db::DbView) -> Result<i64, DbError> {
    if d.last_event_id == i64::MAX {
        Err(DbError::Full)
    } else {
        Ok((d.last_event_id + 1) as i64)
    }
}

/// Stores the report of a program that could not be started.
pub fn api_log_exec_event(state: &mut AppState, header: Option<&str>, req: &ExecEventReq) -> (r:
    Result<i64, HttpError>)
    requires
        old(state).wf(),
    ensures
        final(state).wf(),
        exec_event_answered(*old(state), text::opt_str(header), *req, *final(state), r),
{
    if let Err(e) = check_api_auth(&state.db, header) {
        return Err(e);
    }
    let outcome = log_exec_event(
        &mut state.db,
        req.client_id.as_str(),
        req.command.as_str(),
        req.process_id,
        req.timestamp,
        req.errno,
    );
    assert(outcome == next_event_id(old(state).db@));
    match outcome {
        Ok(id) => Ok(id),
        Err(_e) => Err(HttpError::Internal),
    }
}

/// What a request to end the session `id` at `now` leaves behind and answers. A client ends its
/// own running sessions, the administrator any; otherwise nothing changes.
pub open spec fn end_answered(
    before: AppState,
    header: Option<Seq<char>>,
    id: i64,
    now: i64,
    after: AppState,
    r: Result<EndSessionResp, HttpError>,
) -> bool {
    &&& same_setup(before, after)
    &&& match caller_of(before, header) {
        None => r == Err::<EndSessionResp, HttpError>(HttpError::Unauthorized) && after.db@
            == before.db@,
        Some(who) => exists|outcome: Option<i64>|
            {
                &&& #[trigger] db::session_ended(
                    before.db@,
                    id,
                    reach_of(who),
                    now,
                    after.db@,
                    outcome,
                )
                &&& r == match outcome {
                    Some(d) => Ok::<EndSessionResp, HttpError>(
                        EndSessionResp { session_id: id, duration_seconds: d },
                    ),
                    None => Err::<EndSessionResp, HttpError>(HttpError::NotFound),
                }
            },
    }
}

/// Ends a session at `now`.
pub fn api_end_session_at(state: &mut AppState, header: Option<&str>, id: i64, now: i64) -> (r:
    Result<EndSessionResp, HttpError>)
    requires
        old(state).wf(),
        0 <= now <= MAX_TIME,
    ensures
        final(state).wf(),
        end_answered(*old(state), text::opt_str(header), id, now, *final(state), r),
{
    let (admin, client) = match resolve_auth(state, header) {
        Ok(who) => who,
        Err(e) => {
            return Err(e);
        },
    };
    let outcome: Option<i64> = if admin {
        end_session_admin_at(&mut state.db, id, now)
    } else {
        end_session_at(&mut state.db, id, client.as_str(), now)
    };
    assert(db::session_ended(
        old(state).db@,
        id,
        reach_of((admin, client@)),
        now,
        state.db@,
        outcome,
    ));
    match outcome {
        Some(d) => Ok(EndSessionResp { session_id: id, duration_seconds: d }),
        None => Err(HttpError::NotFound),
    }
}

/// Ends a session now.
pub fn api_end_session(state: &mut AppState, header: Option<&str>, id: i64) -> (r: Result<
    EndSessionResp,
    HttpError,
>)
    requires
        old(state).wf(),
    ensures
        final(state).wf(),
        exists|now: i64|
            0 <= now <= MAX_TIME && #[trigger] end_answered(
                *old(state),
                text::opt_str(header),
                id,
                now,
                *final(state),
                r,
            ),
{
    let now: i64 = utc_now();
    api_end_session_at(state, header, id, now)
}

/// Throws a running session away, for the administrator.
pub fn api_discard_session(state: &mut AppState, header: Option<&str>, id: i64) -> (r: Result<
    (),
    HttpError,
>)
    requires
        old(state).wf(),
    ensures
        final(state).wf(),
        same_setup(*old(state), *final(state)),
        if old(state).admits(header) {
            &&& db::session_discarded(old(state).db@, id, None, final(state).db@, r is Ok)
            &&& r is Err ==> r->Err_0 == HttpError::NotFound
        } else {
            r == Err::<(), HttpError>(HttpError::Unauthorized) && final(state).db@ == old(state).db@
        },
{
    if let Err(e) = check_web_auth(&state.auth, header) {
        return Err(e);
    }
    if discard_session_admin(&mut state.db, id) {
        Ok(())
    } else {
        Err(HttpError::NotFound)
    }
}

/// A running session, by value.
#[verifier::ext_equal]
pub struct OrphanView {
    pub id: i64,
    pub client_id: Seq<char>,
    pub start_time: i64,
    pub running_seconds: int,
    pub command: Option<Seq<char>>,
    pub alias: Option<Seq<char>>,
    pub process_id: Option<i64>,
}

impl View for OrphanedSession {
    type V = OrphanView;

    open spec fn view(&self) -> OrphanView {
        OrphanView {
            id: self.id,
            client_id: self.client_id@,
            start_time: self.start_time,
            running_seconds: self.running_seconds as int,
            command: text::opt_text(self.command),
            alias: text::opt_text(self.alias),
            process_id: self.process_id,
        }
    }
}

/// A running session as of `now`.
pub open spec fn orphan_of(r: db::ListedView, now: int) -> OrphanView {
    OrphanView {
        id: r.id,
        client_id: r.client_id,
        start_time: r.start_time,
        running_seconds: now - r.start_time,
        command: r.command,
        alias: r.alias,
        process_id: r.process_id,
    }
}

/// The values of running sessions.
pub open spec fn orphan_views(s: Seq<OrphanedSession>) -> Seq<OrphanView> {
    s.map_values(|o: OrphanedSession| o@)
}

/// The running sessions of all clients as of `now`, the latest start first.
pub open spec fn orphans(d: db::DbView, now: int) -> Seq<OrphanView> {
    db::latest_first(order::kept(d.records, db::wants_running(None))).map_values(
        |r: db::ListedView| orphan_of(r, now),
    )
}

/// The running sessions of all clients as of `now`, for the administrator.
pub fn api_get_orphaned_at(state: &AppState, header: Option<&str>, now: i64) -> (r: Result<
    Vec<OrphanedSession>,
    HttpError,
>)
    requires
        state.wf(),
        0 <= now <= MAX_TIME,
    ensures
        match r {
            Ok(list) => state.admits(header) && orphan_views(list@) == orphans(
                state.db@,
                now as int,
            ),
            Err(e) => e == HttpError::Unauthorized && !state.admits(header),
        },
{
    if let Err(e) = check_web_auth(&state.auth, header) {
        return Err(e);
    }
    let rows = get_orphaned_sessions_admin(&state.db);
    let mut r: Vec<OrphanedSession> = Vec::new();
    for i in 0..rows.len()
        invariant
            0 <= now <= MAX_TIME,
            forall|k: int|
                0 <= k < rows@.len() ==> 0 <= (#[trigger] rows@[k]).start_time <= MAX_TIME,
            r@.len() == i,
            forall|k: int| 0 <= k < i ==> #[trigger] r@[k]@ == orphan_of(rows@[k]@, now as int),
    {
        let row = &rows[i];
        assert(0 <= rows@[i as int].start_time <= MAX_TIME);
        r.push(
            OrphanedSession {
                id: row.id,
                client_id: row.client_id.clone(),
                start_time: row.start_time,
                running_seconds: now - row.start_time,
                command: text::copy_opt(&row.command),
                alias: text::copy_opt(&row.alias),
                process_id: row.process_id,
            },
        );
    }
    proof {
        let listed = db::listed_views(rows@);
        assert forall|k: int| 0 <= k < r@.len() implies #[trigger] orphan_views(r@)[k] == orphans(
            state.db@,
            now as int,
        )[k] by {
            assert(listed[k] == rows@[k]@);
        }
        assert(orphan_views(r@) =~= orphans(state.db@, now as int));
    }
    Ok(r)
}

/// The running sessions of all clients as of now, for the administrator.
pub fn api_get_orphaned(state: &AppState, header: Option<&str>) -> (r: Result<
    Vec<OrphanedSession>,
    HttpError,
>)
    requires
        state.wf(),
    ensures
        match r {
            Ok(list) => state.admits(header) && exists|now: int|
                0 <= now <= MAX_TIME && orphan_views(list@) == #[trigger] orphans(state.db@, now),
            Err(e) => e == HttpError::Unauthorized && !state.admits(header),
        },
{
    let now: i64 = utc_now();
    api_get_orphaned_at(state, header, now)
}

// ---------------------------------------------------------------------------------------------
// Statistics
// ---------------------------------------------------------------------------------------------

/// The summary as of `now`, for the administrator.
pub fn api_get_stats_at(state: &AppState, header: Option<&str>, q: &FilterQuery, now: i64) -> (r:
    Result<Stats, HttpError>)
    requires
        state.wf(),
        0 <= now <= MAX_TIME,
    ensures
        ({
            let rows = stats::by_start(
                stats::wanted_rows(
                    state.db@.records,
                    q.client(),
                    q.alias_text(),
                    q.command_text(),
                    Need::Nothing,
                ),
            );
            match r {
                Ok(s) => state.admits(header) && !q.refused(state.db@, Need::Nothing)
                    && stats::stats_of(q.zone(), rows, now as int) == Some(s@),
                Err(e) => if state.admits(header) {
                    e == HttpError::Internal && (q.refused(state.db@, Need::Nothing) || stats::stats_of(
                        q.zone(),
                        rows,
                        now as int,
                    ) is None)
                } else {
                    e == HttpError::Unauthorized
                },
            }
        }),
{
    if let Err(e) = check_web_auth(&state.auth, header) {
        return Err(e);
    }
    let client = text_or(&q.client_id, "__global__");
    let alias = text_or(&q.alias, "");
    let command = text_or(&q.command, "");
    let tz = q.tz();
    match compute_stats_at(
        &state.db,
        client.as_str(),
        alias.as_str(),
        command.as_str(),
        &tz,
        now,
    ) {
        Ok(s) => Ok(s),
        Err(_e) => Err(HttpError::Internal),
    }
}

/// The summary as of now, for the administrator.
pub fn api_get_stats(state: &AppState, header: Option<&str>, q: &FilterQuery) -> (r: Result<
    Stats,
    HttpError,
>)
    requires
        state.wf(),
    ensures
        ({
            let rows = stats::by_start(
                stats::wanted_rows(
                    state.db@.records,
                    q.client(),
                    q.alias_text(),
                    q.command_text(),
                    Need::Nothing,
                ),
            );
            match r {
                Ok(s) => state.admits(header) && !q.refused(state.db@, Need::Nothing) && exists|
                    now: int,
                |
                    0 <= now <= MAX_TIME && #[trigger] stats::stats_of(q.zone(), rows, now) == Some(
                        s@,
                    ),
                Err(e) => if state.admits(header) {
                    e == HttpError::Internal && (q.refused(state.db@, Need::Nothing) || exists|now: int|
                        0 <= now <= MAX_TIME && #[trigger] stats::stats_of(
                            q.zone(),
                            rows,
                            now,
                        ) is None)
                } else {
                    e == HttpError::Unauthorized
                },
            }
        }),
{
    let now: i64 = utc_now();
    api_get_stats_at(state, header, q, now)
}

/// Completed sessions by client, for the administrator.
pub fn api_get_stats_by_client(state: &AppState, header: Option<&str>, q: &FilterQuery) -> (r:
    Result<Vec<ClientStat>, HttpError>)
    requires
        state.wf(),
    ensures
        ({
            let answer = breakdown::breakdown_by(
                state.db@.records,
                q.client(),
                breakdown::Grouping::Client,
            );
            match r {
                Ok(lines) => state.admits(header) && answer == Ok::<
                    Seq<breakdown::LineView>,
                    StatsError,
                >(breakdown::client_lines(lines@)),
                Err(e) => if state.admits(header) {
                    e == HttpError::Internal && answer is Err
                } else {
                    e == HttpError::Unauthorized
                },
            }
        }),
{
    if let Err(e) = check_web_auth(&state.auth, header) {
        return Err(e);
    }
    let client = text_or(&q.client_id, "__global__");
    match compute_stats_by_client(&state.db, client.as_str()) {
        Ok(lines) => Ok(lines),
        Err(_e) => Err(HttpError::Internal),
    }
}

/// Completed sessions by alias, for the administrator.
pub fn api_get_stats_by_alias(state: &AppState, header: Option<&str>, q: &FilterQuery) -> (r:
    Result<Vec<AliasStat>, HttpError>)
    requires
        state.wf(),
    ensures
        ({
            let answer = breakdown::breakdown_by(
                state.db@.records,
                q.client(),
                breakdown::Grouping::Alias,
            );
            match r {
                Ok(lines) => state.admits(header) && answer == Ok::<
                    Seq<breakdown::LineView>,
                    StatsError,
                >(breakdown::alias_lines(lines@)),
                Err(e) => if state.admits(header) {
                    e == HttpError::Internal && answer is Err
                } else {
                    e == HttpError::Unauthorized
                },
            }
        }),
{
    if let Err(e) = check_web_auth(&state.auth, header) {
        return Err(e);
    }
    let client = text_or(&q.client_id, "__global__");
    match compute_stats_by_alias(&state.db, client.as_str()) {
        Ok(lines) => Ok(lines),
        Err(_e) => Err(HttpError::Internal),
    }
}

/// Completed sessions by command, for the administrator. Commands are told apart by as many words
/// as the request asks for, up to the limit of the server.
pub fn api_get_stats_by_command(state: &AppState, header: Option<&str>, q: &FilterQuery) -> (r:
    Result<Vec<CommandStat>, HttpError>)
    requires
        state.wf(),
    ensures
        ({
            let answer = breakdown::breakdown_by(
                state.db@.records,
                q.client(),
                breakdown::command_grouping(q.words(), state.command_token_limit),
            );
            match r {
                Ok(lines) => state.admits(header) && answer == Ok::<
                    Seq<breakdown::LineView>,
                    StatsError,
                >(breakdown::command_lines(lines@)),
                Err(e) => if state.admits(header) {
                    e == HttpError::Internal && answer is Err
                } else {
                    e == HttpError::Unauthorized
                },
            }
        }),
{
    if let Err(e) = check_web_auth(&state.auth, header) {
        return Err(e);
    }
    let client = text_or(&q.client_id, "__global__");
    let depth: usize = match q.depth {
        Some(d) => d,
        None => 0,
    };
    match compute_stats_by_command(&state.db, client.as_str(), depth, state.command_token_limit) {
        Ok(lines) => Ok(lines),
        Err(_e) => Err(HttpError::Internal),
    }
}

/// The distribution of session lengths, for the administrator.
pub fn api_get_session_distribution(
    state: &AppState,
    header: Option<&str>,
    q: &FilterQuery,
) -> (r: Result<SessionDistribution, HttpError>)
    requires
        state.wf(),
    ensures
        ({
            let answer = distribution::distribution_of(
                distribution::lengths(
                    stats::wanted_rows(
                        state.db@.records,
                        q.client(),
                        q.alias_text(),
                        q.command_text(),
                        Need::Known,
                    ),
                ),
            );
            match r {
                Ok(d) => state.admits(header) && !q.refused(state.db@, Need::Known) && answer == Some(d@),
                Err(e) => if state.admits(header) {
                    e == HttpError::Internal && (q.refused(state.db@, Need::Known) || answer is None)
                } else {
                    e == HttpError::Unauthorized
                },
            }
        }),
{
    if let Err(e) = check_web_auth(&state.auth, header) {
        return Err(e);
    }
    let client = text_or(&q.client_id, "__global__");
    let alias = text_or(&q.alias, "");
    let command = text_or(&q.command, "");
    match compute_session_distribution(
        &state.db,
        client.as_str(),
        alias.as_str(),
        command.as_str(),
    ) {
        Ok(d) => Ok(d),
        Err(_e) => Err(HttpError::Internal),
    }
}

/// Sessions on working days and weekends, for the administrator.
pub fn api_get_weekday_weekend_stats(
    state: &AppState,
    header: Option<&str>,
    q: &FilterQuery,
) -> (r: Result<WeekdayWeekendStats, HttpError>)
    requires
        state.wf(),
    ensures
        ({
            let answer = rhythm::week_of(
                q.zone(),
                stats::wanted_rows(
                    state.db@.records,
                    q.client(),
                    q.alias_text(),
                    q.command_text(),
                    Need::Nothing,
                ),
            );
            match r {
                Ok(w) => state.admits(header) && !q.refused(state.db@, Need::Nothing) && answer == Some(w@),
                Err(e) => if state.admits(header) {
                    e == HttpError::Internal && (q.refused(state.db@, Need::Nothing) || answer is None)
                } else {
                    e == HttpError::Unauthorized
                },
            }
        }),
{
    if let Err(e) = check_web_auth(&state.auth, header) {
        return Err(e);
    }
    let client = text_or(&q.client_id, "__global__");
    let alias = text_or(&q.alias, "");
    let command = text_or(&q.command, "");
    let tz = q.tz();
    match compute_weekday_weekend_stats(
        &state.db,
        client.as_str(),
        alias.as_str(),
        command.as_str(),
        &tz,
    ) {
        Ok(w) => Ok(w),
        Err(_e) => Err(HttpError::Internal),
    }
}

/// Streaks, for the administrator.
pub fn api_get_streaks(state: &AppState, header: Option<&str>, q: &FilterQuery) -> (r: Result<
    StreakStats,
    HttpError,
>)
    requires
        state.wf(),
    ensures
        match r {
            Ok(s) => state.admits(header) && !q.refused(state.db@, Need::Positive) && rhythm::tells_streaks(
                q.zone(),
                stats::wanted_rows(
                    state.db@.records,
                    q.client(),
                    q.alias_text(),
                    q.command_text(),
                    Need::Positive,
                ),
                s,
            ),
            Err(e) => if state.admits(header) {
                e == HttpError::Internal && q.refused(state.db@, Need::Positive)
            } else {
                e == HttpError::Unauthorized
            },
        },
{
    if let Err(e) = check_web_auth(&state.auth, header) {
        return Err(e);
    }
    let client = text_or(&q.client_id, "__global__");
    let alias = text_or(&q.alias, "");
    let command = text_or(&q.command, "");
    let tz = q.tz();
    match compute_streaks(&state.db, client.as_str(), alias.as_str(), command.as_str(), &tz) {
        Ok(s) => Ok(s),
        Err(_e) => Err(HttpError::Internal),
    }
}

/// Sessions by month, for the administrator.
pub fn api_get_monthly_trend(state: &AppState, header: Option<&str>, q: &FilterQuery) -> (r: Result<
    Vec<MonthlyPoint>,
    HttpError,
>)
    requires
        state.wf(),
    ensures
        ({
            let answer = tally::tally(
                rhythm::monthly_items(
                    q.zone(),
                    stats::by_start(
                        stats::wanted_rows(
                            state.db@.records,
                            q.client(),
                            q.alias_text(),
                            q.command_text(),
                            Need::Nothing,
                        ),
                    ),
                ),
            );
            match r {
                Ok(months) => state.admits(header) && !q.refused(state.db@, Need::Nothing) && answer is Some && rhythm::month_views(
                    months@,
                ) == rhythm::months_of(answer->0),
                Err(e) => if state.admits(header) {
                    e == HttpError::Internal && (q.refused(state.db@, Need::Nothing) || answer is None)
                } else {
                    e == HttpError::Unauthorized
                },
            }
        }),
{
    if let Err(e) = check_web_auth(&state.auth, header) {
        return Err(e);
    }
    let client = text_or(&q.client_id, "__global__");
    let alias = text_or(&q.alias, "");
    let command = text_or(&q.command, "");
    let tz = q.tz();
    match compute_monthly_trend(
        &state.db,
        client.as_str(),
        alias.as_str(),
        command.as_str(),
        &tz,
    ) {
        Ok(months) => Ok(months),
        Err(_e) => Err(HttpError::Internal),
    }
}

/// Sessions by hour of the week, for the administrator.
pub fn api_get_hourly_heatmap(state: &AppState, header: Option<&str>, q: &FilterQuery) -> (r:
    Result<HourlyHeatmap, HttpError>)
    requires
        state.wf(),
    ensures
        ({
            let rows = stats::wanted_rows(
                state.db@.records,
                q.client(),
                q.alias_text(),
                q.command_text(),
                Need::Nothing,
            );
            match r {
                Ok(map) => state.admits(header) && !q.refused(state.db@, Need::Nothing) && rhythm::maps_hours(q.zone(), rows, map),
                Err(e) => if state.admits(header) {
                    e == HttpError::Internal && (q.refused(state.db@, Need::Nothing) || !rhythm::cells_fit(q.zone(), rows))
                } else {
                    e == HttpError::Unauthorized
                },
            }
        }),
{
    if let Err(e) = check_web_auth(&state.auth, header) {
        return Err(e);
    }
    let client = text_or(&q.client_id, "__global__");
    let alias = text_or(&q.alias, "");
    let command = text_or(&q.command, "");
    let tz = q.tz();
    match compute_hourly_heatmap(
        &state.db,
        client.as_str(),
        alias.as_str(),
        command.as_str(),
        &tz,
    ) {
        Ok(map) => Ok(map),
        Err(_e) => Err(HttpError::Internal),
    }
}

impl FilterQuery {
    /// The days that a request asks for, or `None` where its pattern is refused or a day's total
    /// does not fit.
    pub open spec fn days(&self, d: db::DbView) -> Option<Seq<(Seq<char>, i64)>> {
        if self.refused(d, Need::Nothing) {
            None
        } else {
            match tally::tally(
                rhythm::daily_items(
                    self.zone(),
                    stats::wanted_rows(
                        d.records,
                        self.client(),
                        self.alias_text(),
                        self.command_text(),
                        Need::Nothing,
                    ),
                ),
            ) {
                Some(groups) => Some(rhythm::day_pairs(groups)),
                None => None,
            }
        }
    }
}

/// Session time by day, for the administrator.
pub fn api_get_daily_data(state: &AppState, header: Option<&str>, q: &FilterQuery) -> (r: Result<
    Vec<(String, i64)>,
    HttpError,
>)
    requires
        state.wf(),
    ensures
        match r {
            Ok(days) => state.admits(header) && q.days(state.db@) == Some(
                rhythm::day_views(days@),
            ),
            Err(e) => if state.admits(header) {
                e == HttpError::Internal && q.days(state.db@) is None
            } else {
                e == HttpError::Unauthorized
            },
        },
{
    if let Err(e) = check_web_auth(&state.auth, header) {
        return Err(e);
    }
    let client = text_or(&q.client_id, "__global__");
    let alias = text_or(&q.alias, "");
    let command = text_or(&q.command, "");
    let tz = q.tz();
    match get_daily_data(&state.db, client.as_str(), alias.as_str(), command.as_str(), &tz) {
        Ok(days) => Ok(days),
        Err(_e) => Err(HttpError::Internal),
    }
}

/// Whether calendars are those of the data, as of the date `today`.
pub open spec fn are_calendars(
    data: Seq<(Seq<char>, i64)>,
    today: int,
    all_time: Seq<char>,
    years: Seq<(String, String)>,
) -> bool {
    &&& all_time == svg_calendar::calendar_of(data, None, today)
    &&& exists|list: Seq<int>| #[trigger]
        svg_calendar::are_years(data, list) && svg_calendar::named(years)
            == svg_calendar::year_calendars(data, list, today)
}

/// The calendars as of the date `today`, for the administrator. Data that cannot be drawn are an
/// error of the server.
pub fn api_get_svg_on(state: &AppState, header: Option<&str>, q: &FilterQuery, today: i64) -> (r:
    Result<SvgResp, HttpError>)
    requires
        state.wf(),
        calendar::day_in_range(today as int),
    ensures
        match r {
            Ok(s) => {
                &&& state.admits(header)
                &&& q.days(state.db@) is Some
                &&& svg_calendar::drawable(q.days(state.db@)->0, None, today as int)
                &&& are_calendars(q.days(state.db@)->0, today as int, s.all_time@, s.years@)
            },
            Err(e) => if state.admits(header) {
                e == HttpError::Internal && (q.days(state.db@) is None || !svg_calendar::drawable(
                    q.days(state.db@)->0,
                    None,
                    today as int,
                ))
            } else {
                e == HttpError::Unauthorized
            },
        },
{
    let days = match api_get_daily_data(state, header, q) {
        Ok(d) => d,
        Err(e) => {
            return Err(e);
        },
    };
    match try_generate_svg_calendar_on(days.as_slice(), None, today) {
        Some(all_time) => {
            let years = generate_all_years_svgs_on(days.as_slice(), today);
            Ok(SvgResp { all_time, years })
        },
        None => Err(HttpError::Internal),
    }
}

/// The calendars as of the present date, for the administrator.
pub fn api_get_svg(state: &AppState, header: Option<&str>, q: &FilterQuery) -> (r: Result<
    SvgResp,
    HttpError,
>)
    requires
        state.wf(),
    ensures
        match r {
            Ok(s) => state.admits(header) && q.days(state.db@) is Some && exists|today: int| #[trigger]
                calendar::day_in_range(today) && are_calendars(
                    q.days(state.db@)->0,
                    today,
                    s.all_time@,
                    s.years@,
                ),
            Err(e) => if state.admits(header) {
                e == HttpError::Internal && (q.days(state.db@) is None || exists|today: int| #[trigger]
                    calendar::day_in_range(today) && !svg_calendar::drawable(
                        q.days(state.db@)->0,
                        None,
                        today,
                    ))
            } else {
                e == HttpError::Unauthorized
            },
        },
{
    let today: i64 = local_today();
    let r = api_get_svg_on(state, header, q, today);
    assert(calendar::day_in_range(today as int));
    r
}

/// What a request for the summary is answered as of `now` and the date `today`. Sums that are too
/// large and data that cannot be drawn are an error of the server.
pub open spec fn summary_answered(
    state: AppState,
    header: Option<&str>,
    q: FilterQuery,
    now: int,
    today: int,
    r: Result<SummaryParts, HttpError>,
) -> bool {
    let answer = stats::stats_of(
        q.zone(),
        stats::by_start(
            stats::wanted_rows(
                state.db@.records,
                q.client(),
                q.alias_text(),
                q.command_text(),
                Need::Nothing,
            ),
        ),
        now,
    );
    match r {
        Ok(p) => {
            &&& state.admits(header)
            &&& !q.refused(state.db@, Need::Nothing)
            &&& answer == Some(p.stats@)
            &&& q.days(state.db@) is Some
            &&& svg_calendar::drawable(q.days(state.db@)->0, None, today)
            &&& are_calendars(q.days(state.db@)->0, today, p.all_svg@, p.year_svgs@)
        },
        Err(e) => if state.admits(header) {
            e == HttpError::Internal && (q.refused(state.db@, Need::Nothing) || answer is None || q.days(state.db@) is None
                || !svg_calendar::drawable(q.days(state.db@)->0, None, today))
        } else {
            e == HttpError::Unauthorized
        },
    }
}

/// What the report of a summary is made of, as of `now` and the date `today`, for the
/// administrator.
pub fn api_get_summary_md_at(
    state: &AppState,
    header: Option<&str>,
    q: &FilterQuery,
    now: i64,
    today: i64,
) -> (r: Result<SummaryParts, HttpError>)
    requires
        state.wf(),
        0 <= now <= MAX_TIME,
        calendar::day_in_range(today as int),
    ensures
        summary_answered(*state, header, *q, now as int, today as int, r),
{
    let summary = match api_get_stats_at(state, header, q, now) {
        Ok(s) => s,
        Err(e) => {
            return Err(e);
        },
    };
    match api_get_svg_on(state, header, q, today) {
        Ok(svg) => Ok(
            SummaryParts { stats: summary, all_svg: svg.all_time, year_svgs: svg.years },
        ),
        Err(e) => Err(e),
    }
}

/// What the report of a summary is made of, as of now, for the administrator.
pub fn api_get_summary_md(state: &AppState, header: Option<&str>, q: &FilterQuery) -> (r: Result<
    SummaryParts,
    HttpError,
>)
    requires
        state.wf(),
    ensures
        exists|now: int, today: int|
            {
                &&& 0 <= now <= MAX_TIME
                &&& calendar::day_in_range(today)
                &&& #[trigger] summary_answered(*state, header, *q, now, today, r)
            },
{
    let now: i64 = utc_now();
    let today: i64 = local_today();
    let r = api_get_summary_md_at(state, header, q, now, today);
    assert(summary_answered(*state, header, *q, now as int, today as int, r));
    r
}

/// The aliases that have sessions, the one with the largest total first.
pub open spec fn alias_names(lines: Seq<breakdown::LineView>) -> Seq<Seq<char>> {
    lines.map_values(|l: breakdown::LineView| l.key)
}

/// The aliases of all clients, for the administrator.
pub fn api_get_aliases(state: &AppState, header: Option<&str>) -> (r: Result<
    Vec<String>,
    HttpError,
>)
    requires
        state.wf(),
    ensures
        ({
            let answer = breakdown::breakdown_by(
                state.db@.records,
                "__global__"@,
                breakdown::Grouping::Alias,
            );
            match r {
                Ok(names) => state.admits(header) && answer is Ok && text::texts(names@)
                    == alias_names(answer->Ok_0),
                Err(e) => if state.admits(header) {
                    e == HttpError::Internal && answer is Err
                } else {
                    e == HttpError::Unauthorized
                },
            }
        }),
{
    if let Err(e) = check_web_auth(&state.auth, header) {
        return Err(e);
    }
    let lines = match compute_stats_by_alias(&state.db, "__global__") {
        Ok(l) => l,
        Err(_e) => {
            return Err(HttpError::Internal);
        },
    };
    let mut r: Vec<String> = Vec::new();
    for i in 0..lines.len()
        invariant
            r@.len() == i,
            forall|k: int| 0 <= k < i ==> #[trigger] r@[k]@ == lines@[k].alias@,
    {
        r.push(lines[i].alias.clone());
    }
    assert(text::texts(r@) =~= alias_names(breakdown::alias_lines(lines@)));
    Ok(r)
}

// ---------------------------------------------------------------------------------------------
// Records, clients and tokens
// ---------------------------------------------------------------------------------------------

/// A record on a page, by value.
#[verifier::ext_equal]
pub struct PageItemView {
    pub id: i64,
    pub client_id: Seq<char>,
    pub alias: Option<Seq<char>>,
    pub command: Option<Seq<char>>,
    pub start_time: i64,
    pub end_time: Option<i64>,
    pub duration_seconds: Option<i64>,
    pub status: Seq<char>,
}

impl View for RecordPageItem {
    type V = PageItemView;

    open spec fn view(&self) -> PageItemView {
        PageItemView {
            id: self.id,
            client_id: self.client_id@,
            alias: text::opt_text(self.alias),
            command: text::opt_text(self.command),
            start_time: self.start_time,
            end_time: self.end_time,
            duration_seconds: self.duration_seconds,
            status: self.status@,
        }
    }
}

/// A listed record on a page.
pub open spec fn page_item(r: db::ListedView) -> PageItemView {
    PageItemView {
        id: r.id,
        client_id: r.client_id,
        alias: r.alias,
        command: r.command,
        start_time: r.start_time,
        end_time: r.end_time,
        duration_seconds: r.duration_seconds,
        status: r.status,
    }
}

/// The values of the records on a page.
pub open spec fn item_views(s: Seq<RecordPageItem>) -> Seq<PageItemView> {
    s.map_values(|i: RecordPageItem| i@)
}

/// Listed records on a page.
pub open spec fn page_items(s: Seq<db::ListedView>) -> Seq<PageItemView> {
    s.map_values(|r: db::ListedView| page_item(r))
}

impl ListRecordsQuery {
    /// The page asked for, at least the first.
    pub open spec fn page_number(&self) -> int {
        match self.page {
            Some(p) => if p > 1 {
                p as int
            } else {
                1
            },
            None => 1,
        }
    }

    /// The size of a page: 50 unless asked otherwise, from 1 to 500.
    pub open spec fn page_size(&self) -> int {
        match self.per_page {
            Some(n) => if n < 1 {
                1
            } else if n > 500 {
                500
            } else {
                n as int
            },
            None => 50,
        }
    }

    /// The records asked for, of all pages.
    pub open spec fn hits(&self, d: db::DbView) -> Seq<db::RecordView> {
        order::kept(
            d.records,
            db::wants_listed(
                given_or(self.client_id, ""@),
                given_or(self.alias, ""@),
                given_or(self.command, ""@),
            ),
        )
    }

    /// Whether a record is held against a pattern with too many bytes.
    pub open spec fn refused(&self, d: db::DbView) -> bool {
        db::listing_refused(
            d.records,
            given_or(self.client_id, ""@),
            given_or(self.alias, ""@),
            given_or(self.command, ""@),
        )
    }

    fn number(&self) -> (r: i64)
        ensures
            r == self.page_number(),
    {
        match self.page {
            Some(p) => if p > 1 {
                p
            } else {
                1
            },
            None => 1,
        }
    }

    fn size(&self) -> (r: i64)
        ensures
            r == self.page_size(),
    {
        match self.per_page {
            Some(n) => if n < 1 {
                1
            } else if n > 500 {
                500
            } else {
                n
            },
            None => 50,
        }
    }

    /// Whether the number of records before the page can be told.
    pub fn in_reach(&self) -> (r: bool)
        ensures
            r == crate::arith::fits((self.page_number() - 1) * self.page_size()),
    {
        let before: i64 = self.number() - 1;
        let size: i64 = self.size();
        let r = before.checked_mul(size).is_some();
        proof {
            assert(before * size >= 0) by (nonlinear_arith)
                requires
                    before >= 0,
                    size > 0,
            ;
        }
        r
    }
}

/// A page of the records of sessions that no longer run, for the administrator.
pub fn api_list_records(state: &AppState, header: Option<&str>, q: &ListRecordsQuery) -> (r: Result<
    RecordsPageResp,
    HttpError,
>)
    requires
        state.wf(),
        crate::arith::fits((q.page_number() - 1) * q.page_size()),
    ensures
        match r {
            Ok(p) => {
                let hits = q.hits(state.db@);
                &&& state.admits(header)
                &&& !q.refused(state.db@)
                &&& item_views(p.records@) == page_items(
                    db::window(
                        db::latest_first(hits),
                        q.page_size(),
                        (q.page_number() - 1) * q.page_size(),
                    ),
                )
                &&& p.total == hits.len()
                &&& p.page == q.page_number()
                &&& p.per_page == q.page_size()
                &&& p.total_pages == (hits.len() + q.page_size() - 1) / q.page_size()
            },
            Err(e) => if state.admits(header) {
                e == HttpError::Internal && q.refused(state.db@)
            } else {
                e == HttpError::Unauthorized
            },
        },
{
    if let Err(e) = check_web_auth(&state.auth, header) {
        return Err(e);
    }
    let client = text_or(&q.client_id, "");
    let alias = text_or(&q.alias, "");
    let command = text_or(&q.command, "");
    let page: i64 = q.number();
    let per_page: i64 = q.size();
    let (rows, total) = match list_records_page(
        &state.db,
        client.as_str(),
        alias.as_str(),
        command.as_str(),
        page,
        per_page,
    ) {
        Ok(found) => found,
        Err(_e) => {
            return Err(HttpError::Internal);
        },
    };
    let mut items: Vec<RecordPageItem> = Vec::new();
    for i in 0..rows.len()
        invariant
            items@.len() == i,
            forall|k: int| 0 <= k < i ==> #[trigger] items@[k]@ == page_item(rows@[k]@),
    {
        let row = &rows[i];
        items.push(
            RecordPageItem {
                id: row.id,
                client_id: row.client_id.clone(),
                alias: text::copy_opt(&row.alias),
                command: text::copy_opt(&row.command),
                start_time: row.start_time,
                end_time: row.end_time,
                duration_seconds: row.duration_seconds,
                status: row.status.clone(),
            },
        );
    }
    proof {
        assert(item_views(items@) =~= page_items(db::listed_views(rows@)));
    }
    let total_pages: i64 = pages_for(total, per_page);
    Ok(RecordsPageResp { records: items, total, page, per_page, total_pages })
}

/// How many pages of a size hold so many records.
fn pages_for(total: i64, per_page: i64) -> (r: i64)
    requires
        0 <= total,
        1 <= per_page <= 500,
    ensures
        r == (total + per_page - 1) / per_page as int,
{
    let whole: i64 = total / per_page;
    let rest: i64 = total % per_page;
    proof {
        assert((total + per_page - 1) / per_page as int == whole + (if rest > 0 {
            1int
        } else {
            0
        })) by (nonlinear_arith)
            requires
                whole == total as int / per_page as int,
                rest == total as int % per_page as int,
                0 <= total,
                1 <= per_page,
        ;
        assert(0 <= whole <= total && (rest > 0 ==> whole < total || total == 0 || per_page == 1
            || whole < i64::MAX)) by (nonlinear_arith)
            requires
                whole == total as int / per_page as int,
                rest == total as int % per_page as int,
                0 <= total,
                1 <= per_page,
                total <= i64::MAX,
        ;
    }
    if rest > 0 {
        whole + 1
    } else {
        whole
    }
}

/// The clients that have records, for the administrator.
pub fn api_list_clients(state: &AppState, header: Option<&str>) -> (r: Result<
    Vec<String>,
    HttpError,
>)
    requires
        state.wf(),
    ensures
        match r {
            Ok(names) => state.admits(header) && db::lists_clients(
                state.db@,
                text::texts(names@),
            ),
            Err(e) => e == HttpError::Unauthorized && !state.admits(header),
        },
{
    if let Err(e) = check_web_auth(&state.auth, header) {
        return Err(e);
    }
    Ok(distinct_client_ids(&state.db))
}

/// The tokens, the one made last first, for the administrator.
pub fn api_list_tokens(state: &AppState, header: Option<&str>) -> (r: Result<
    Vec<ApiToken>,
    HttpError,
>)
    ensures
        match r {
            Ok(tokens) => state.admits(header) && db::token_views(tokens@) == order::sorted(
                state.db@.api_tokens,
                state.db@.api_tokens.map_values(|t: db::TokenView| t.created_at),
                true,
            ),
            Err(e) => e == HttpError::Unauthorized && !state.admits(header),
        },
{
    if let Err(e) = check_web_auth(&state.auth, header) {
        return Err(e);
    }
    Ok(list_api_tokens(&state.db))
}

/// Whether a text has the shape of a UUID: 32 hexadecimal digits in groups of 8, 4, 4, 4 and 12
/// with dashes between them.
pub open spec fn is_uuid(s: Seq<char>) -> bool {
    &&& s.len() == 36
    &&& forall|i: int|
        0 <= i < 36 ==> if i == 8 || i == 13 || i == 18 || i == 23 {
            #[trigger] s[i] == '-'
        } else {
            ('0' <= s[i] && s[i] <= '9') || ('a' <= s[i] && s[i] <= 'f')
        }
}

/// `uuid::Uuid::new_v4` as text: a random identifier. Of its value only the shape is claimed.
#[verifier::external_body]
fn random_uuid() -> (r: String)
    ensures
        is_uuid(r@),
{
    uuid::Uuid::new_v4().to_string()
}

/// The token of an identifier: `tspan_` and its digits.
pub open spec fn token_text(id: Seq<char>) -> Seq<char> {
    "tspan_"@ + text::replaced(id, '-', ""@)
}

/// The token of an identifier.
pub fn token_from(id: &str) -> (r: String)
    ensures
        r@ == token_text(id@),
{
    let mut r = "tspan_".to_owned();
    r.append(replace_char(id, '-', "").as_str());
    r
}

/// A fresh token.
pub fn new_token() -> (r: String)
    ensures
        exists|id: Seq<char>| #[trigger] is_uuid(id) && r@ == token_text(id),
{
    let id = random_uuid();
    token_from(id.as_str())
}

/// What a request for a token at `now` leaves behind and answers, where `token` is the fresh one.
pub open spec fn token_answered(
    before: AppState,
    header: Option<&str>,
    req: CreateTokenReq,
    token: Seq<char>,
    now: i64,
    after: AppState,
    r: Result<CreateTokenResp, HttpError>,
) -> bool {
    &&& same_setup(before, after)
    &&& if !before.admits(header) {
        r is Err && r->Err_0 == HttpError::Unauthorized && after.db@ == before.db@
    } else if before.db@.has_token(token) {
        r is Err && r->Err_0 == HttpError::Internal && after.db@ == before.db@
    } else {
        &&& r is Ok
        &&& r->Ok_0.token@ == token
        &&& after.db@ == before.db@.with_token(
            db::TokenView {
                token,
                client_id: given_or(req.client_id, "default"@),
                description: text::opt_text(req.description),
                created_at: now,
            },
        )
    }
}

/// Makes a token at `now` out of a fresh one, for the administrator.
pub fn api_create_token_at(
    state: &mut AppState,
    header: Option<&str>,
    req: &CreateTokenReq,
    token: String,
    now: i64,
) -> (r: Result<CreateTokenResp, HttpError>)
    requires
        old(state).wf(),
    ensures
        final(state).wf(),
        token_answered(*old(state), header, *req, token@, now, *final(state), r),
{
    if let Err(e) = check_web_auth(&state.auth, header) {
        return Err(e);
    }
    let client = text_or(&req.client_id, "default");
    match add_api_token_at(
        &mut state.db,
        token.as_str(),
        client.as_str(),
        as_borrowed(&req.description),
        now,
    ) {
        Ok(_) => Ok(CreateTokenResp { token }),
        Err(_e) => Err(HttpError::Internal),
    }
}

/// Makes a token now, for the administrator.
pub fn api_create_token(state: &mut AppState, header: Option<&str>, req: &CreateTokenReq) -> (r:
    Result<CreateTokenResp, HttpError>)
    requires
        old(state).wf(),
    ensures
        final(state).wf(),
        exists|id: Seq<char>, now: i64|
            {
                &&& #[trigger] is_uuid(id)
                &&& 0 <= now <= MAX_TIME
                &&& #[trigger] token_answered(
                    *old(state),
                    header,
                    *req,
                    token_text(id),
                    now,
                    *final(state),
                    r,
                )
            },
{
    let token = new_token();
    let now: i64 = utc_now();
    let ghost id = choose|id: Seq<char>| #[trigger] is_uuid(id) && token@ == token_text(id);
    let r = api_create_token_at(state, header, req, token, now);
    assert(token_answered(*old(state), header, *req, token_text(id), now, *state, r));
    r
}

/// Deletes a token, for the administrator.
pub fn api_revoke_token(state: &mut AppState, header: Option<&str>, token: &str) -> (r: Result<
    (),
    HttpError,
>)
    requires
        old(state).wf(),
    ensures
        final(state).wf(),
        same_setup(*old(state), *final(state)),
        if old(state).admits(header) {
            &&& db::token_deleted(old(state).db@, token@, final(state).db@, r is Ok)
            &&& r is Err ==> r->Err_0 == HttpError::NotFound
        } else {
            r == Err::<(), HttpError>(HttpError::Unauthorized) && final(state).db@ == old(state).db@
        },
{
    if let Err(e) = check_web_auth(&state.auth, header) {
        return Err(e);
    }
    if delete_api_token(&mut state.db, token) {
        Ok(())
    } else {
        Err(HttpError::NotFound)
    }
}

/// Deletes a record, for the administrator.
pub fn api_delete_record(state: &mut AppState, header: Option<&str>, id: i64) -> (r: Result<
    (),
    HttpError,
>)
    requires
        old(state).wf(),
    ensures
        final(state).wf(),
        same_setup(*old(state), *final(state)),
        if old(state).admits(header) {
            &&& db::record_deleted(old(state).db@, id, final(state).db@, r is Ok)
            &&& r is Err ==> r->Err_0 == HttpError::NotFound
        } else {
            r == Err::<(), HttpError>(HttpError::Unauthorized) && final(state).db@ == old(state).db@
        },
{
    if let Err(e) = check_web_auth(&state.auth, header) {
        return Err(e);
    }
    if delete_record(&mut state.db, id) {
        Ok(())
    } else {
        Err(HttpError::NotFound)
    }
}

/// What a request to import the files of a directory at `now` leaves behind and answers.
pub open spec fn import_answered(
    before: AppState,
    header: Option<&str>,
    req: ImportReq,
    files: Seq<ImportFile>,
    now: i64,
    after: AppState,
    r: Result<ImportResult, HttpError>,
) -> bool {
    &&& same_setup(before, after)
    &&& match r {
        Ok(done) => {
            let p = importer::imported(
                before.db@,
                given_or(req.client_id, "default"@),
                files,
                None,
                None,
                now,
                files.len() as int,
            );
            &&& before.admits(header)
            &&& after.db@ == p.store
            &&& done.imported == p.imported
            &&& text::texts(done.errors@) == p.errors
            &&& done.failed == p.errors.len()
        },
        Err(e) => e == HttpError::Unauthorized && !before.admits(header) && after.db@ == before.db@,
    }
}

/// Imports the files of a directory with the clock at `now`, for the administrator.
pub fn api_import_at(
    state: &mut AppState,
    header: Option<&str>,
    req: &ImportReq,
    files: &Vec<ImportFile>,
    now: i64,
) -> (r: Result<ImportResult, HttpError>)
    requires
        old(state).wf(),
    ensures
        final(state).wf(),
        import_answered(*old(state), header, *req, files@, now, *final(state), r),
{
    if let Err(e) = check_web_auth(&state.auth, header) {
        return Err(e);
    }
    let client = text_or(&req.client_id, "default");
    Ok(import_from_directory_at(&mut state.db, client.as_str(), files, None, None, now))
}

/// Imports the files of a directory now, for the administrator.
pub fn api_import(
    state: &mut AppState,
    header: Option<&str>,
    req: &ImportReq,
    files: &Vec<ImportFile>,
) -> (r: Result<ImportResult, HttpError>)
    requires
        old(state).wf(),
    ensures
        final(state).wf(),
        exists|now: i64|
            0 <= now <= MAX_TIME && #[trigger] import_answered(
                *old(state),
                header,
                *req,
                files@,
                now,
                *final(state),
                r,
            ),
{
    let now: i64 = utc_now();
    api_import_at(state, header, req, files, now)
}

// ---------------------------------------------------------------------------------------------
// Pages
// ---------------------------------------------------------------------------------------------

/// The file that a snapshot of the store is written to before it is handed out.
pub open spec fn snapshot_path(now: int) -> Seq<char> {
    "/tmp/wyd_backup_"@ + text::dec(now) + ".db"@
}

/// The file that a snapshot of the store is written to, where the snapshot may be handed out.
pub fn api_backup_at(state: &AppState, header: Option<&str>, now: i64) -> (r: Result<
    String,
    HttpError,
>)
    ensures
        match r {
            Ok(path) => state.admits(header) && path@ == snapshot_path(now as int),
            Err(e) => !state.admits(header) && e == HttpError::Unauthorized,
        },
{
    if let Err(e) = check_web_auth(&state.auth, header) {
        return Err(e);
    }
    let mut path = "/tmp/wyd_backup_".to_owned();
    path.append(int_text(now).as_str());
    path.append(".db");
    Ok(path)
}

/// The file that a snapshot of the store taken now is written to, where it may be handed out.
pub fn api_backup(state: &AppState, header: Option<&str>) -> (r: Result<String, HttpError>)
    ensures
        match r {
            Ok(path) => state.admits(header) && exists|now: int|
                0 <= now <= MAX_TIME && path@ == #[trigger] snapshot_path(now),
            Err(e) => !state.admits(header) && e == HttpError::Unauthorized,
        },
{
    let now: i64 = utc_now();
    api_backup_at(state, header, now)
}

/// Whether the store is checked at the end of this hour of running: at the end of every sixth.
pub fn integrity_due(hours: u64) -> (r: bool)
    ensures
        r == (hours % 6 == 0),
{
    hours % 6 == 0
}

/// Whether the start page may be handed out.
pub fn web_index(state: &AppState, header: Option<&str>) -> (r: Result<(), HttpError>)
    ensures
        r is Ok == state.admits(header),
        r is Err ==> r->Err_0 == HttpError::Unauthorized,
{
    check_web_auth(&state.auth, header)
}

/// The administration page as of `now`.
pub open spec fn admin_html(d: db::DbView, now: int) -> Seq<char> {
    html::admin_page(
        db::latest_first(order::kept(d.records, db::wants_running(None))),
        order::sorted(
            d.api_tokens,
            d.api_tokens.map_values(|t: db::TokenView| t.created_at),
            true,
        ),
        now,
    )
}

/// The administration page as of `now`, for the administrator.
pub fn web_admin_at(state: &AppState, header: Option<&str>, now: i64) -> (r: Result<
    String,
    HttpError,
>)
    requires
        state.wf(),
        0 <= now <= MAX_TIME,
    ensures
        match r {
            Ok(page) => state.admits(header) && page@ == admin_html(state.db@, now as int),
            Err(e) => e == HttpError::Unauthorized && !state.admits(header),
        },
{
    if let Err(e) = check_web_auth(&state.auth, header) {
        return Err(e);
    }
    let sessions = get_orphaned_sessions_admin(&state.db);
    let tokens = list_api_tokens(&state.db);
    Ok(render_admin(&sessions, &tokens, now))
}

/// The administration page as of now, for the administrator.
pub fn web_admin(state: &AppState, header: Option<&str>) -> (r: Result<String, HttpError>)
    requires
        state.wf(),
    ensures
        match r {
            Ok(page) => state.admits(header) && exists|now: int|
                0 <= now <= MAX_TIME && page@ == #[trigger] admin_html(state.db@, now),
            Err(e) => e == HttpError::Unauthorized && !state.admits(header),
        },
{
    let now: i64 = utc_now();
    web_admin_at(state, header, now)
}

// ---------------------------------------------------------------------------------------------
// Start-up
// ---------------------------------------------------------------------------------------------

/// What making the first token at `now` leaves behind and returns.
pub open spec fn first_token_made(
    before: db::DbView,
    token: Seq<char>,
    now: i64,
    after: db::DbView,
    r: Option<String>,
) -> bool {
    if before.api_tokens.len() > 0 {
        r is None && after == before
    } else {
        &&& r is Some
        &&& r->0@ == token
        &&& after == before.with_token(
            db::TokenView {
                token: token,
                client_id: "default"@,
                description: Some("auto-generated initial token"@),
                created_at: now,
            },
        )
    }
}

/// Makes the first token at `now` where there is none: a fresh one of the client `default`.
/// Returns it where it was made.
pub fn ensure_first_token_at(db: &mut Database, token: String, now: i64) -> (r: Option<String>)
    requires
        old(db).wf(),
    ensures
        final(db).wf(),
        final(db)@.api_tokens.len() > 0,
        first_token_made(old(db)@, token@, now, final(db)@, r),
{
    proof {
        db.lemma_wf();
    }
    let stored: usize = db.api_tokens().len();
    if stored > 0 {
        return None;
    }
    let _added = add_api_token_at(
        db,
        token.as_str(),
        "default",
        Some("auto-generated initial token"),
        now,
    );
    Some(token)
}

/// Makes the first token now where there is none. Returns it where it was made.
pub fn ensure_first_token(db: &mut Database) -> (r: Option<String>)
    requires
        old(db).wf(),
    ensures
        final(db).wf(),
        final(db)@.api_tokens.len() > 0,
        exists|id: Seq<char>, now: i64|
            {
                &&& #[trigger] is_uuid(id)
                &&& 0 <= now <= MAX_TIME
                &&& #[trigger] first_token_made(old(db)@, token_text(id), now, final(db)@, r)
            },
{
    let token = new_token();
    let now: i64 = utc_now();
    let ghost id = choose|id: Seq<char>| #[trigger] is_uuid(id) && token@ == token_text(id);
    let r = ensure_first_token_at(db, token, now);
    assert(first_token_made(old(db)@, token_text(id), now, db@, r));
    r
}

/// The address under which a server that listens on `bind` is reached from this machine.
pub open spec fn access_address(bind: Seq<char>) -> Seq<char> {
    if text::starts_with(bind, "0.0.0.0:"@) {
        "127.0.0.1"@ + bind.skip(7)
    } else if text::starts_with(bind, "[::]:"@) {
        "[::1]"@ + bind.skip(4)
    } else {
        bind
    }
}

/// The address under which a server that listens on `bind` is reached from this machine.
pub fn access_url(bind: &str) -> (r: String)
    ensures
        r@ == access_address(bind@),
{
    proof {
        reveal_strlit("0.0.0.0:");
        reveal_strlit("[::]:");
        reveal_strlit(":");
    }
    if let Some(port) = text::strip_prefix(bind, "0.0.0.0:") {
        let mut r = "127.0.0.1".to_owned();
        r.push(':');
        r.append(port.as_str());
        assert(bind@.take(8)[7] == ':');
        assert(r@ =~= "127.0.0.1"@ + bind@.skip(7));
        return r;
    }
    if let Some(port) = text::strip_prefix(bind, "[::]:") {
        let mut r = "[::1]".to_owned();
        r.push(':');
        r.append(port.as_str());
        assert(bind@.take(5)[4] == ':');
        assert(r@ =~= "[::1]"@ + bind@.skip(4));
        return r;
    }
    bind.to_owned()
}

} // verus!
