//! What holds across several operations of the store, the server and the reports.

use crate::arith;
use crate::auth;
use crate::db;
use crate::db::{DbView, RecordView, Status};
use crate::distribution;
use crate::exporter;
use crate::order;
use crate::rhythm;
use crate::server;
use crate::server::{AppState, EndSessionResp, ExecEventReq, StartSessionReq, StartSessionResp};
use crate::stats;
use crate::stats::{Need, Row};
use crate::tally;
use crate::text;
use vstd::prelude::*;

verus! {

// ---------------------------------------------------------------------------------------------
// Sessions
// ---------------------------------------------------------------------------------------------

/// A session that a client starts and then ends is stored as completed, with the time between
/// the two as its duration, which is also what ending it returns. No other record changes.
pub proof fn law_start_then_end(
    before: DbView,
    client: Seq<char>,
    command: Option<Seq<char>>,
    alias: Option<Seq<char>>,
    process_id: Option<i64>,
    started: i64,
    between: DbView,
    id: i64,
    ended: i64,
    after: DbView,
    duration: Option<i64>,
)
    requires
        before.wf(),
        0 <= started,
        0 <= ended,
        db::session_started(
            before,
            client,
            command,
            alias,
            process_id,
            started,
            between,
            Ok(id),
        ),
        db::session_ended(between, id, Some(client), ended, after, duration),
    ensures
        duration is Some,
        duration->0 == ended - started,
        after.records == before.records.push(
            db::new_session(id, client, command, alias, process_id, started).ended(ended),
        ),
        after.records.last().status == Status::Completed,
        after.records.last().duration_seconds == duration,
{
    let n = before.records.len() as int;
    let row = db::new_session(id, client, command, alias, process_id, started);
    assert(between.records == before.records.push(row));
    assert(between.running(n, id, Some(client)));
    let i = choose|i: int|
        {
            &&& #[trigger] between.running(i, id, Some(client))
            &&& after == between.with_row(i, between.records[i].ended(ended))
            &&& duration->0 == ended - between.records[i].start_time
        };
    if i < n {
        assert(before.records[i].id <= before.last_id);
    }
    assert(after.records =~= before.records.push(row.ended(ended)));
}

/// A session runs from its start on: it is among the running ones of its client at once.
pub proof fn law_started_runs(
    before: DbView,
    client: Seq<char>,
    command: Option<Seq<char>>,
    alias: Option<Seq<char>>,
    process_id: Option<i64>,
    now: i64,
    after: DbView,
    id: i64,
)
    requires
        db::session_started(before, client, command, alias, process_id, now, after, Ok(id)),
    ensures
        after.is_running(id, Some(client)),
        after.is_running(id, None),
{
    let n = before.records.len() as int;
    assert(after.running(n, id, Some(client)));
    assert(after.running(n, id, None));
}

proof fn lemma_one_row(d: DbView, i: int, j: int)
    requires
        d.wf(),
        0 <= i < d.records.len(),
        0 <= j < d.records.len(),
        d.records[i].id == d.records[j].id,
    ensures
        i == j,
{
    if i < j {
        assert(d.records[i].id < d.records[j].id);
    }
    if j < i {
        assert(d.records[j].id < d.records[i].id);
    }
}

proof fn lemma_row_rests(before: DbView, i: int, row: RecordView, id: i64, client: Option<Seq<char>>)
    requires
        before.wf(),
        before.running(i, id, client),
        row.id == id,
        row.status != Status::Active,
    ensures
        !before.with_row(i, row).is_running(id, None),
        forall|c: Option<Seq<char>>| !(#[trigger] before.with_row(i, row).is_running(id, c)),
{
    let after = before.with_row(i, row);
    assert forall|c: Option<Seq<char>>| !(#[trigger] after.is_running(id, c)) by {
        if after.is_running(id, c) {
            let j = choose|j: int| after.running(j, id, c);
            if j != i {
                lemma_one_row(before, i, j);
            }
        }
    }
}

/// A session that was ended does not run any more: to end or discard it once more, by whomever,
/// finds nothing and changes nothing.
pub proof fn law_end_is_final(
    before: DbView,
    id: i64,
    client: Option<Seq<char>>,
    now: i64,
    after: DbView,
    duration: i64,
    other: Option<Seq<char>>,
    later: i64,
    last: DbView,
    again: Option<i64>,
    last_discarded: DbView,
    discarded: bool,
)
    requires
        before.wf(),
        db::session_ended(before, id, client, now, after, Some(duration)),
        db::session_ended(after, id, other, later, last, again),
        db::session_discarded(after, id, other, last_discarded, discarded),
    ensures
        !after.is_running(id, None),
        again is None && last == after,
        !discarded && last_discarded == after,
{
    let i = choose|i: int|
        {
            &&& #[trigger] before.running(i, id, client)
            &&& after == before.with_row(i, before.records[i].ended(now))
            &&& duration == now - before.records[i].start_time
        };
    lemma_row_rests(before, i, before.records[i].ended(now), id, client);
    assert(!after.is_running(id, other));
    if again is Some {
        let j = choose|j: int| #[trigger] after.running(j, id, other);
        assert(after.is_running(id, other));
    }
    if discarded {
        let j = choose|j: int| #[trigger] after.running(j, id, other);
        assert(after.is_running(id, other));
    }
}

/// A session that was discarded does not run any more: to end or discard it once more finds
/// nothing and changes nothing.
pub proof fn law_discard_is_final(
    before: DbView,
    id: i64,
    client: Option<Seq<char>>,
    after: DbView,
    other: Option<Seq<char>>,
    later: i64,
    last: DbView,
    again: Option<i64>,
    last_discarded: DbView,
    discarded: bool,
)
    requires
        before.wf(),
        db::session_discarded(before, id, client, after, true),
        db::session_ended(after, id, other, later, last, again),
        db::session_discarded(after, id, other, last_discarded, discarded),
    ensures
        !after.is_running(id, None),
        again is None && last == after,
        !discarded && last_discarded == after,
{
    let i = choose|i: int|
        {
            &&& #[trigger] before.running(i, id, client)
            &&& after == before.with_row(i, before.records[i].thrown_away())
        };
    lemma_row_rests(before, i, before.records[i].thrown_away(), id, client);
    assert(!after.is_running(id, other));
    if again is Some {
        let j = choose|j: int| #[trigger] after.running(j, id, other);
        assert(after.is_running(id, other));
    }
    if discarded {
        let j = choose|j: int| #[trigger] after.running(j, id, other);
        assert(after.is_running(id, other));
    }
}

/// To end or discard a session touches that one record: all others, the clients and the tokens
/// stay as they are.
pub proof fn law_only_that_session(
    before: DbView,
    id: i64,
    client: Option<Seq<char>>,
    now: i64,
    ended: DbView,
    duration: Option<i64>,
    discarded: DbView,
    ran: bool,
    k: int,
)
    requires
        before.wf(),
        db::session_ended(before, id, client, now, ended, duration),
        db::session_discarded(before, id, client, discarded, ran),
        0 <= k < before.records.len(),
        before.records[k].id != id,
    ensures
        ended.records.len() == discarded.records.len() == before.records.len(),
        ended.records[k] == before.records[k],
        discarded.records[k] == before.records[k],
        ended.clients == before.clients && ended.api_tokens == before.api_tokens,
        discarded.clients == before.clients && discarded.api_tokens == before.api_tokens,
        ended.last_id == before.last_id && discarded.last_id == before.last_id,
{
}

/// A client cannot end or discard a session that runs for another client: nothing is found and
/// nothing changes.
pub proof fn law_sessions_of_others_are_safe(
    before: DbView,
    i: int,
    id: i64,
    client: Seq<char>,
    now: i64,
    ended: DbView,
    duration: Option<i64>,
    discarded: DbView,
    ran: bool,
)
    requires
        before.wf(),
        before.running(i, id, None),
        before.records[i].client_id != client,
        db::session_ended(before, id, Some(client), now, ended, duration),
        db::session_discarded(before, id, Some(client), discarded, ran),
    ensures
        duration is None && ended == before,
        !ran && discarded == before,
{
    assert forall|j: int| !(#[trigger] before.running(j, id, Some(client))) by {
        if before.running(j, id, Some(client)) {
            lemma_one_row(before, i, j);
        }
    }
}

/// A new session gets an id that no record has, larger than all of them.
pub proof fn law_ids_are_new(
    before: DbView,
    client: Seq<char>,
    command: Option<Seq<char>>,
    alias: Option<Seq<char>>,
    process_id: Option<i64>,
    now: i64,
    after: DbView,
    id: i64,
    k: int,
)
    requires
        before.wf(),
        db::session_started(before, client, command, alias, process_id, now, after, Ok(id)),
        0 <= k < before.records.len(),
    ensures
        before.records[k].id < id,
        !before.has_record(id),
        after.has_record(id),
{
    assert(before.records[k].id <= before.last_id);
    if before.has_record(id) {
        let j = choose|j: int|
            0 <= j < before.records.len() && #[trigger] before.records[j].id == id;
        assert(before.records[j].id <= before.last_id);
    }
    assert(after.records[before.records.len() as int].id == id);
}

/// The id of a deleted record is not given out again.
pub proof fn law_ids_are_not_reused(
    before: DbView,
    gone: i64,
    between: DbView,
    client: Seq<char>,
    command: Option<Seq<char>>,
    alias: Option<Seq<char>>,
    process_id: Option<i64>,
    now: i64,
    after: DbView,
    id: i64,
)
    requires
        before.wf(),
        db::record_deleted(before, gone, between, true),
        db::session_started(between, client, command, alias, process_id, now, after, Ok(id)),
    ensures
        id > gone,
        !between.has_record(gone),
{
    let i = choose|i: int|
        {
            &&& 0 <= i < before.records.len()
            &&& #[trigger] before.records[i].id == gone
            &&& between == before.without_row(i)
        };
    assert(before.records[i].id <= before.last_id);
    if between.has_record(gone) {
        let j = choose|j: int|
            0 <= j < between.records.len() && #[trigger] between.records[j].id == gone;
        let j0 = if j < i {
            j
        } else {
            j + 1
        };
        assert(before.records[j0].id == gone);
        lemma_one_row(before, i, j0);
    }
}

// ---------------------------------------------------------------------------------------------
// Tokens
// ---------------------------------------------------------------------------------------------

proof fn lemma_client_of(d: DbView, i: int, token: Seq<char>)
    requires
        d.wf(),
        0 <= i < d.api_tokens.len(),
        d.api_tokens[i].token == token,
    ensures
        d.has_token(token),
        d.client_of(token) == d.api_tokens[i].client_id,
{
    let j = choose|j: int|
        0 <= j < d.api_tokens.len() && #[trigger] d.api_tokens[j].token == token;
    if i < j {
        assert(d.api_tokens[i].token != d.api_tokens[j].token);
    }
    if j < i {
        assert(d.api_tokens[j].token != d.api_tokens[i].token);
    }
}

/// A request that shows a token is made on behalf of the client that the token was entered for,
/// from then until the token is deleted; after that it is refused. Other tokens are not affected.
pub proof fn law_token_works_until_deleted(
    before: DbView,
    token: Seq<char>,
    client: Seq<char>,
    description: Option<Seq<char>>,
    now: i64,
    between: DbView,
    after: DbView,
    deleted: bool,
    other: Seq<char>,
)
    requires
        before.wf(),
        between.wf(),
        db::token_added(before, token, client, description, now, between, Ok(())),
        db::token_deleted(between, token, after, deleted),
        other != token,
    ensures
        auth::api_client(between, Some("Bearer "@ + token)) == Some(client),
        deleted,
        auth::api_client(after, Some("Bearer "@ + token)) is None,
        after.has_token(other) == before.has_token(other),
{
    let shown = "Bearer "@ + token;
    assert(shown.take("Bearer "@.len() as int) =~= "Bearer "@);
    assert(shown.skip("Bearer "@.len() as int) =~= token);
    let n = before.api_tokens.len() as int;
    assert(between.api_tokens[n].token == token);
    lemma_client_of(between, n, token);
    let i = choose|i: int|
        {
            &&& 0 <= i < between.api_tokens.len()
            &&& #[trigger] between.api_tokens[i].token == token
            &&& after == between.without_token(i)
        };
    if after.has_token(token) {
        let j = choose|j: int|
            0 <= j < after.api_tokens.len() && #[trigger] after.api_tokens[j].token == token;
        let j0 = if j < i {
            j
        } else {
            j + 1
        };
        assert(between.api_tokens[j0].token == token);
        if i < j0 {
            assert(between.api_tokens[i].token != between.api_tokens[j0].token);
        } else {
            assert(between.api_tokens[j0].token != between.api_tokens[i].token);
        }
    }
    if before.has_token(other) {
        let j = choose|j: int|
            0 <= j < before.api_tokens.len() && #[trigger] before.api_tokens[j].token == other;
        assert(between.api_tokens[j].token == other);
        if j < i {
            assert(after.api_tokens[j].token == other);
        } else {
            assert(after.api_tokens[j - 1].token == other);
        }
    }
    if after.has_token(other) {
        let j = choose|j: int|
            0 <= j < after.api_tokens.len() && #[trigger] after.api_tokens[j].token == other;
        let j0 = if j < i {
            j
        } else {
            j + 1
        };
        assert(between.api_tokens[j0].token == other);
        assert(before.api_tokens[j0].token == other);
    }
}

/// A token stays valid, for the same client, whatever else happens to the store: sessions that
/// start, are entered, end or are thrown away, records that are deleted, programs that could not be
/// started, other tokens that come and go.
pub proof fn law_other_changes_keep_a_token(
    before: DbView,
    token: Seq<char>,
    client: Seq<char>,
    command: Option<Seq<char>>,
    alias: Option<Seq<char>>,
    process_id: Option<i64>,
    now: i64,
    started: DbView,
    start: Result<i64, db::DbError>,
    end_time: i64,
    seconds: i64,
    entered: DbView,
    entry: Result<(), db::DbError>,
    id: i64,
    owner: Option<Seq<char>>,
    ended: DbView,
    duration: Option<i64>,
    discarded: DbView,
    ran: bool,
    pruned: DbView,
    found: bool,
    other: Seq<char>,
    description: Option<Seq<char>>,
    added: DbView,
    addition: Result<(), db::DbError>,
    revoked: DbView,
    revocation: bool,
    failed: Seq<char>,
    errno: i64,
    logged: DbView,
    log: Result<i64, db::DbError>,
)
    requires
        before.wf(),
        other != token,
        db::session_started(before, client, command, alias, process_id, now, started, start),
        db::session_imported(
            before,
            client,
            now,
            end_time,
            seconds,
            command,
            alias,
            now,
            entered,
            entry,
        ),
        db::session_ended(before, id, owner, now, ended, duration),
        db::session_discarded(before, id, owner, discarded, ran),
        db::record_deleted(before, id, pruned, found),
        db::token_added(before, other, client, description, now, added, addition),
        db::token_deleted(before, other, revoked, revocation),
        db::exec_event_logged(before, client, failed, id, now, errno, logged, log),
    ensures
        token_standing(logged, token) == token_standing(before, token),
        token_standing(started, token) == token_standing(before, token),
        token_standing(entered, token) == token_standing(before, token),
        token_standing(ended, token) == token_standing(before, token),
        token_standing(discarded, token) == token_standing(before, token),
        token_standing(pruned, token) == token_standing(before, token),
        token_standing(added, token) == token_standing(before, token),
        token_standing(revoked, token) == token_standing(before, token),
{
    lemma_same_tokens(before, started, token);
    lemma_same_tokens(before, entered, token);
    lemma_same_tokens(before, ended, token);
    lemma_same_tokens(before, discarded, token);
    lemma_same_tokens(before, pruned, token);
    lemma_same_tokens(before, logged, token);
    if addition is Ok {
        assert(added.api_tokens.drop_last() =~= before.api_tokens);
    }
    lemma_standing_after_push(before, added, token);
    if revocation {
        let i = choose|i: int|
            {
                &&& 0 <= i < before.api_tokens.len()
                &&& #[trigger] before.api_tokens[i].token == other
                &&& revoked == before.without_token(i)
            };
        lemma_standing_after_remove(before, revoked, i, token);
    }
}

/// The client that a token stands for, where it is stored.
pub open spec fn token_standing(d: DbView, token: Seq<char>) -> Option<Seq<char>> {
    if d.has_token(token) {
        Some(d.client_of(token))
    } else {
        None
    }
}

proof fn lemma_standing_after_push(before: DbView, after: DbView, token: Seq<char>)
    requires
        before.wf(),
        after.api_tokens == before.api_tokens || (after.api_tokens.len()
            == before.api_tokens.len() + 1 && after.api_tokens.drop_last() == before.api_tokens
            && after.api_tokens.last().token != token),
    ensures
        token_standing(after, token) == token_standing(before, token),
{
    if after.api_tokens == before.api_tokens {
        lemma_same_tokens(before, after, token);
    } else {
        assert forall|i: int| 0 <= i < before.api_tokens.len() implies after.api_tokens[i]
            == #[trigger] before.api_tokens[i] by {
            assert(after.api_tokens.drop_last()[i] == before.api_tokens[i]);
        }
        if before.has_token(token) {
            let i = choose|i: int|
                0 <= i < before.api_tokens.len() && #[trigger] before.api_tokens[i].token == token;
            assert(after.api_tokens[i].token == token);
        }
        if after.has_token(token) {
            let j = choose|j: int|
                0 <= j < after.api_tokens.len() && #[trigger] after.api_tokens[j].token == token;
            assert(j < before.api_tokens.len());
            assert(before.api_tokens[j].token == token);
            lemma_client_of(before, j, token);
        }
    }
}

proof fn lemma_standing_after_remove(before: DbView, after: DbView, i: int, token: Seq<char>)
    requires
        before.wf(),
        0 <= i < before.api_tokens.len(),
        before.api_tokens[i].token != token,
        after == before.without_token(i),
    ensures
        token_standing(after, token) == token_standing(before, token),
{
    if before.has_token(token) {
        let k = choose|k: int|
            0 <= k < before.api_tokens.len() && #[trigger] before.api_tokens[k].token == token;
        let k0 = if k < i {
            k
        } else {
            k - 1
        };
        assert(after.api_tokens[k0] == before.api_tokens[k]);
    }
    if after.has_token(token) {
        let j = choose|j: int|
            0 <= j < after.api_tokens.len() && #[trigger] after.api_tokens[j].token == token;
        let j0 = if j < i {
            j
        } else {
            j + 1
        };
        assert(before.api_tokens[j0] == after.api_tokens[j]);
        lemma_client_of(before, j0, token);
    }
}

// ---------------------------------------------------------------------------------------------
// Requests
// ---------------------------------------------------------------------------------------------

/// A request to start a session or to report a program that could not be started without a stored
/// token, and a request to end a session with neither a stored token nor the administrator's
/// credentials, are answered as unauthorized and leave the store as it is.
pub proof fn law_refused_requests_change_nothing(
    before: AppState,
    header: Option<Seq<char>>,
    req: StartSessionReq,
    id: i64,
    now: i64,
    started: AppState,
    start_reply: Result<StartSessionResp, auth::HttpError>,
    ended: AppState,
    end_reply: Result<EndSessionResp, auth::HttpError>,
    report: ExecEventReq,
    logged: AppState,
    log_reply: Result<i64, auth::HttpError>,
)
    requires
        server::start_answered(before, header, req, now, started, start_reply),
        server::end_answered(before, header, id, now, ended, end_reply),
        server::exec_event_answered(before, header, report, logged, log_reply),
    ensures
        auth::api_client(before.db@, header) is None ==> log_reply is Err && log_reply->Err_0
            == auth::HttpError::Unauthorized && logged.db@ == before.db@,
        auth::api_client(before.db@, header) is None ==> start_reply is Err && start_reply->Err_0
            == auth::HttpError::Unauthorized && started.db@ == before.db@,
        server::caller_of(before, header) is None ==> end_reply is Err && end_reply->Err_0
            == auth::HttpError::Unauthorized && ended.db@ == before.db@,
{
}

/// What the server starts for a client it ends for the same client, and tells how long it took. A
/// request that names another client than that of its token starts a session of that other client,
/// which the token cannot end.
pub proof fn law_started_session_is_ended(
    before: AppState,
    header: Option<Seq<char>>,
    req: StartSessionReq,
    started: i64,
    between: AppState,
    start: StartSessionResp,
    ended: i64,
    after: AppState,
    end: Result<EndSessionResp, auth::HttpError>,
)
    requires
        before.db@.wf(),
        auth::api_client(before.db@, header) is Some,
        server::given_or(req.client_id, auth::api_client(before.db@, header)->0)
            == auth::api_client(before.db@, header)->0,
        0 <= started,
        0 <= ended,
        server::start_answered(before, header, req, started, between, Ok(start)),
        server::end_answered(between, header, start.session_id, ended, after, end),
    ensures
        end is Ok,
        end->Ok_0.session_id == start.session_id,
        end->Ok_0.duration_seconds == ended - start.start_time,
{
    let client = auth::api_client(before.db@, header)->0;
    let id = start.session_id;
    let token = auth::bearer_token(header)->0;
    assert(between.db@.api_tokens == before.db@.api_tokens);
    lemma_same_tokens(before.db@, between.db@, token);
    let who = server::caller_of(between, header)->0;
    assert(who == (false, client));
    let outcome = choose|outcome: Option<i64>|
        {
            &&& #[trigger] db::session_ended(
                between.db@,
                id,
                server::reach_of(who),
                ended,
                after.db@,
                outcome,
            )
            &&& end == match outcome {
                Some(d) => Ok::<EndSessionResp, auth::HttpError>(
                    EndSessionResp { session_id: id, duration_seconds: d },
                ),
                None => Err::<EndSessionResp, auth::HttpError>(auth::HttpError::NotFound),
            }
        };
    law_start_then_end(
        before.db@,
        client,
        text::opt_text(req.command),
        text::opt_text(req.alias),
        req.process_id,
        started,
        between.db@,
        id,
        ended,
        after.db@,
        outcome,
    );
}

proof fn lemma_same_tokens(a: DbView, b: DbView, token: Seq<char>)
    requires
        a.api_tokens == b.api_tokens,
    ensures
        a.has_token(token) == b.has_token(token),
        a.client_of(token) == b.client_of(token),
{
    if a.has_token(token) {
        let i = choose|i: int|
            0 <= i < a.api_tokens.len() && #[trigger] a.api_tokens[i].token == token;
        assert(b.api_tokens[i].token == token);
    }
    if b.has_token(token) {
        let i = choose|i: int|
            0 <= i < b.api_tokens.len() && #[trigger] b.api_tokens[i].token == token;
        assert(a.api_tokens[i].token == token);
    }
    assert(forall|i: int| #[trigger] a.api_tokens[i] == b.api_tokens[i]);
}

/// A program that could not be started, as the tracer reports it, is stored with all that the report
/// tells, under a new id, where the token is stored and ids are left. Sessions, clients and tokens
/// stay as they are.
pub proof fn law_reported_failure_is_stored(
    tracer: exporter::Exporter,
    command: Seq<char>,
    process_id: u32,
    timestamp: i64,
    errno: i64,
    before: AppState,
    req: ExecEventReq,
    after: AppState,
    r: Result<i64, auth::HttpError>,
)
    requires
        before.db@.wf(),
        before.db@.has_token(tracer.token@),
        before.db@.last_event_id < i64::MAX,
        tracer.request(
            exporter::ItemView::LogFailed { command, process_id, timestamp, errno },
        ).body == (exporter::BodyView::ExecEvent {
            client_id: req.client_id@,
            command: req.command@,
            process_id: req.process_id,
            timestamp: req.timestamp,
            errno: req.errno,
        }),
        server::exec_event_answered(
            before,
            Some(
                tracer.request(
                    exporter::ItemView::LogFailed { command, process_id, timestamp, errno },
                ).authorization,
            ),
            req,
            after,
            r,
        ),
    ensures
        r is Ok,
        after.db@.exec_events == before.db@.exec_events.push(
            db::ExecEventView {
                id: r->Ok_0,
                client_id: tracer.client_id@,
                command,
                process_id: process_id as i64,
                timestamp,
                errno,
            },
        ),
        forall|i: int|
            0 <= i < before.db@.exec_events.len() ==> (#[trigger] before.db@.exec_events[i]).id
                < r->Ok_0,
        after.db@.records == before.db@.records,
        after.db@.clients == before.db@.clients,
        after.db@.api_tokens == before.db@.api_tokens,
{
    let token = tracer.token@;
    let shown = "Bearer "@ + token;
    assert(shown.take("Bearer "@.len() as int) =~= "Bearer "@);
    assert(shown.skip("Bearer "@.len() as int) =~= token);
}

/// The administrator ends any session that runs, whoever started it.
pub proof fn law_administrator_ends_any_session(
    before: AppState,
    header: Option<Seq<char>>,
    i: int,
    id: i64,
    now: i64,
    after: AppState,
    r: Result<EndSessionResp, auth::HttpError>,
)
    requires
        before.db@.wf(),
        0 <= now,
        server::caller_of(before, header) matches Some(who) && who.0,
        before.db@.running(i, id, None),
        server::end_answered(before, header, id, now, after, r),
    ensures
        r is Ok,
        r->Ok_0.session_id == id,
        r->Ok_0.duration_seconds == now - before.db@.records[i].start_time,
        after.db@.records[i].status == Status::Completed,
{
    assert(before.db@.is_running(id, None));
    let outcome = choose|outcome: Option<i64>|
        {
            &&& #[trigger] db::session_ended(before.db@, id, None, now, after.db@, outcome)
            &&& r == match outcome {
                Some(d) => Ok::<EndSessionResp, auth::HttpError>(
                    EndSessionResp { session_id: id, duration_seconds: d },
                ),
                None => Err::<EndSessionResp, auth::HttpError>(auth::HttpError::NotFound),
            }
        };
    let j = choose|j: int|
        {
            &&& #[trigger] before.db@.running(j, id, None)
            &&& after.db@ == before.db@.with_row(j, before.db@.records[j].ended(now))
            &&& outcome->0 == now - before.db@.records[j].start_time
        };
    lemma_one_row(before.db@, i, j);
}

/// Every item of a listing stands on one page: item `k` is item `k % size` of the page with number
/// `k / size + 1`, and no other place of any page of that size holds it.
pub proof fn law_every_item_on_one_page<T>(items: Seq<T>, size: int, k: int, page: int, place: int)
    requires
        size > 0,
        0 <= k < items.len(),
        1 <= page,
        0 <= place < db::window(items, size, (page - 1) * size).len(),
    ensures
        0 <= k % size < db::window(items, size, (k / size) * size).len(),
        db::window(items, size, (k / size) * size)[k % size] == items[k],
        db::window(items, size, (k / size) * size).len() <= size,
        db::window(items, size, (page - 1) * size)[place] == items[(page - 1) * size + place],
        (page - 1) * size + place == k <==> page == k / size + 1 && place == k % size,
{
    let from = (k / size) * size;
    vstd::arithmetic::div_mod::lemma_fundamental_div_mod(k, size);
    vstd::arithmetic::mul::lemma_mul_is_commutative(k / size, size);
    vstd::arithmetic::div_mod::lemma_mod_bound(k, size);
    vstd::arithmetic::div_mod::lemma_div_pos_is_pos(k, size);
    assert(from >= 0) by (nonlinear_arith)
        requires
            from == (k / size) * size,
            k / size >= 0,
            size > 0,
    ;
    assert(k == from + k % size);
    let start = (page - 1) * size;
    assert(start >= 0) by (nonlinear_arith)
        requires
            start == (page - 1) * size,
            page >= 1,
            size > 0,
    ;
    if start + place == k {
        vstd::arithmetic::div_mod::lemma_fundamental_div_mod_converse(k, size, page - 1, place);
    }
}

// ---------------------------------------------------------------------------------------------
// Reports
// ---------------------------------------------------------------------------------------------

/// Only completed sessions count: a session that has just started, and one that is thrown away,
/// leave every statistic as it was.
pub proof fn law_only_completed_sessions_count(
    before: DbView,
    client: Seq<char>,
    command: Option<Seq<char>>,
    alias: Option<Seq<char>>,
    process_id: Option<i64>,
    now: i64,
    started: DbView,
    start: Result<i64, db::DbError>,
    id: i64,
    owner: Option<Seq<char>>,
    discarded: DbView,
    ran: bool,
    client_filter: Seq<char>,
    alias_filter: Seq<char>,
    command_filter: Seq<char>,
    need: Need,
)
    requires
        db::session_started(before, client, command, alias, process_id, now, started, start),
        db::session_discarded(before, id, owner, discarded, ran),
    ensures
        stats::wanted_rows(started.records, client_filter, alias_filter, command_filter, need)
            == stats::wanted_rows(
            before.records,
            client_filter,
            alias_filter,
            command_filter,
            need,
        ),
        stats::wanted_rows(discarded.records, client_filter, alias_filter, command_filter, need)
            == stats::wanted_rows(
            before.records,
            client_filter,
            alias_filter,
            command_filter,
            need,
        ),
{
    let wanted = stats::wants(client_filter, alias_filter, command_filter, need);
    if start is Ok {
        assert(started.records.drop_last() =~= before.records);
    }
    if ran {
        let i = choose|i: int|
            {
                &&& #[trigger] before.running(i, id, owner)
                &&& discarded == before.with_row(i, before.records[i].thrown_away())
            };
        lemma_kept_unwanted(before.records, i, before.records[i].thrown_away(), wanted);
    }
}

/// Whether rows are those of before with one more among them.
pub open spec fn gains_one(before: Seq<Row>, after: Seq<Row>, row: Row) -> bool {
    exists|k: int| 0 <= k <= before.len() && after == #[trigger] before.insert(k, row)
}

/// A session that ends is counted from then on, with the time that it took, by every statistic
/// whose filters it passes; the others stay as they were.
pub proof fn law_ended_session_counts(
    before: DbView,
    i: int,
    id: i64,
    owner: Option<Seq<char>>,
    now: i64,
    after: DbView,
    duration: i64,
    client_filter: Seq<char>,
    alias_filter: Seq<char>,
    command_filter: Seq<char>,
    need: Need,
)
    requires
        before.wf(),
        0 <= now,
        before.running(i, id, owner),
        db::session_ended(before, id, owner, now, after, Some(duration)),
    ensures
        stats::wants(client_filter, alias_filter, command_filter, need)(
            before.records[i].ended(now),
        ) ==> gains_one(
            stats::wanted_rows(before.records, client_filter, alias_filter, command_filter, need),
            stats::wanted_rows(after.records, client_filter, alias_filter, command_filter, need),
            Row { start: before.records[i].start_time, seconds: duration },
        ),
        !stats::wants(client_filter, alias_filter, command_filter, need)(
            before.records[i].ended(now),
        ) ==> stats::wanted_rows(
            after.records,
            client_filter,
            alias_filter,
            command_filter,
            need,
        ) == stats::wanted_rows(
            before.records,
            client_filter,
            alias_filter,
            command_filter,
            need,
        ),
{
    let wanted = stats::wants(client_filter, alias_filter, command_filter, need);
    let j = choose|j: int|
        {
            &&& #[trigger] before.running(j, id, owner)
            &&& after == before.with_row(j, before.records[j].ended(now))
            &&& duration == now - before.records[j].start_time
        };
    lemma_one_row(before, i, j);
    let row = before.records[i].ended(now);
    assert(after.records == before.records.update(i, row));
    if wanted(row) {
        let k = lemma_kept_gains(before.records, i, row, wanted);
        let old_kept = order::kept(before.records, wanted);
        let old_rows = stats::rows_of(old_kept);
        let new_row = Row { start: before.records[i].start_time, seconds: duration };
        assert(stats::row_of(row) == new_row);
        assert(stats::rows_of(old_kept.insert(k, row)) =~= old_rows.insert(k, new_row));
        assert(0 <= k <= old_rows.len());
    } else {
        lemma_kept_unwanted(before.records, i, row, wanted);
    }
}

proof fn lemma_kept_unwanted(
    s: Seq<RecordView>,
    i: int,
    x: RecordView,
    wanted: spec_fn(RecordView) -> bool,
)
    requires
        0 <= i < s.len(),
        !wanted(s[i]),
        !wanted(x),
    ensures
        order::kept(s.update(i, x), wanted) == order::kept(s, wanted),
    decreases s.len(),
{
    let t = s.update(i, x);
    if i == s.len() - 1 {
        assert(t.drop_last() =~= s.drop_last());
    } else {
        lemma_kept_unwanted(s.drop_last(), i, x, wanted);
        assert(t.drop_last() =~= s.drop_last().update(i, x));
        assert(t.last() == s.last());
    }
}

proof fn lemma_kept_gains(
    s: Seq<RecordView>,
    i: int,
    x: RecordView,
    wanted: spec_fn(RecordView) -> bool,
) -> (k: int)
    requires
        0 <= i < s.len(),
        !wanted(s[i]),
        wanted(x),
    ensures
        0 <= k <= order::kept(s, wanted).len(),
        order::kept(s.update(i, x), wanted) == order::kept(s, wanted).insert(k, x),
    decreases s.len(),
{
    let t = s.update(i, x);
    let rest = order::kept(s.drop_last(), wanted);
    if i == s.len() - 1 {
        assert(t.drop_last() =~= s.drop_last());
        assert(rest.push(x) =~= rest.insert(rest.len() as int, x));
        rest.len() as int
    } else {
        let k = lemma_kept_gains(s.drop_last(), i, x, wanted);
        assert(t.drop_last() =~= s.drop_last().update(i, x));
        assert(t.last() == s.last());
        if wanted(s.last()) {
            assert(rest.insert(k, x).push(s.last()) =~= rest.push(s.last()).insert(k, x));
        }
        k
    }
}

/// In a distribution the shortest length, the median and the mean, and the longest length are in
/// order.
pub proof fn law_middle_lengths_lie_between(rows: Seq<Row>)
    requires
        distribution::distribution_of(distribution::lengths(rows)) is Some,
    ensures
        ({
            let d = distribution::distribution_of(distribution::lengths(rows))->0;
            &&& d.total_sessions == rows.len()
            &&& d.min_seconds <= d.median_seconds <= d.max_seconds
            &&& d.min_seconds <= d.mean_seconds <= d.max_seconds
        }),
{
    let all = rows.map_values(|r: Row| r.seconds);
    let s = distribution::lengths(rows);
    let places = order::order(all, false);
    order::lemma_sorted_len(all, all, false);
    assert forall|i: int, j: int| 0 <= i <= j < s.len() implies #[trigger] s[i]
        <= #[trigger] s[j] by {
        assert(s[i] == all[places[i]] && s[j] == all[places[j]]);
        if i < j {
            assert(order::precedes(all, false, places[i], places[j]));
        }
    }
    if s.len() > 0 {
        let low = s[0] as int;
        let high = s.last() as int;
        lemma_sum_between(distribution::numbers(s), low, high);
        lemma_quotient_between(
            arith::sum(distribution::numbers(s)),
            s.len() as int,
            low,
            high,
        );
        if s.len() % 2 == 0 {
            let a = s[s.len() / 2 - 1] as int;
            let b = s[s.len() as int / 2] as int;
            lemma_quotient_between(a + b, 2, low, high);
        }
    }
}

proof fn lemma_sum_between(s: Seq<int>, low: int, high: int)
    requires
        forall|i: int| 0 <= i < s.len() ==> low <= #[trigger] s[i] <= high,
    ensures
        low * s.len() <= arith::sum(s) <= high * s.len(),
    decreases s.len(),
{
    if s.len() > 0 {
        let n = s.len() as int;
        lemma_sum_between(s.drop_last(), low, high);
        assert(low * n == low * (n - 1) + low && high * n == high * (n - 1) + high)
            by (nonlinear_arith);
    }
}

proof fn lemma_quotient_between(total: int, n: int, low: int, high: int)
    requires
        n > 0,
        low * n <= total <= high * n,
    ensures
        low <= arith::div_trunc(total, n) <= high,
{
    if total < 0 {
        let q = (-total) / n;
        vstd::arithmetic::div_mod::lemma_fundamental_div_mod(-total, n);
        vstd::arithmetic::div_mod::lemma_mod_bound(-total, n);
        assert(low <= -q <= high) by (nonlinear_arith)
            requires
                n > 0,
                low * n <= total <= high * n,
                -total == n * q + (-total) % n,
                0 <= (-total) % n < n,
        ;
    } else {
        let q = total / n;
        vstd::arithmetic::div_mod::lemma_fundamental_div_mod(total, n);
        vstd::arithmetic::div_mod::lemma_mod_bound(total, n);
        assert(low <= q <= high) by (nonlinear_arith)
            requires
                n > 0,
                low * n <= total <= high * n,
                total == n * q + total % n,
                0 <= total % n < n,
        ;
    }
}

/// The numbers of sessions in the ranges of the distribution add up to all sessions, where none
/// has a negative length or the largest one that can be stored.
pub proof fn law_ranges_hold_all(lengths: Seq<i64>)
    requires
        forall|i: int| 0 <= i < lengths.len() ==> 0 <= #[trigger] lengths[i] < i64::MAX,
    ensures
        arith::sum(
            Seq::new(
                distribution::buckets_of(lengths).len(),
                |i: int| distribution::buckets_of(lengths)[i].count,
            ),
        ) == lengths.len(),
{
    lemma_ranges(lengths);
    let counts = Seq::new(
        distribution::buckets_of(lengths).len(),
        |i: int| distribution::buckets_of(lengths)[i].count,
    );
    reveal_with_fuel(arith::sum, 8);
    let c6 = counts.drop_last();
    let c5 = c6.drop_last();
    let c4 = c5.drop_last();
    let c3 = c4.drop_last();
    let c2 = c3.drop_last();
    let c1 = c2.drop_last();
    let c0 = c1.drop_last();
    assert(arith::sum(c0) == 0);
    assert(arith::sum(c1) == counts[0]);
    assert(arith::sum(c2) == counts[0] + counts[1]);
    assert(arith::sum(c3) == counts[0] + counts[1] + counts[2]);
    assert(arith::sum(c4) == counts[0] + counts[1] + counts[2] + counts[3]);
    assert(arith::sum(c5) == counts[0] + counts[1] + counts[2] + counts[3] + counts[4]);
    assert(arith::sum(c6) == counts[0] + counts[1] + counts[2] + counts[3] + counts[4]
        + counts[5]);
}

proof fn lemma_ranges(s: Seq<i64>)
    requires
        forall|i: int| 0 <= i < s.len() ==> 0 <= #[trigger] s[i] < i64::MAX,
    ensures
        distribution::count_within(s, 0, 300) + distribution::count_within(s, 300, 900)
            + distribution::count_within(s, 900, 1800) + distribution::count_within(s, 1800, 3600)
            + distribution::count_within(s, 3600, 7200) + distribution::count_within(
            s,
            7200,
            14400,
        ) + distribution::count_within(s, 14400, i64::MAX as int) == s.len(),
    decreases s.len(),
{
    if s.len() > 0 {
        assert(s.last() == s[s.len() - 1]);
        lemma_ranges(s.drop_last());
    }
}

/// Working days and weekends share the sessions: their numbers and their times add up to those of
/// all sessions.
pub proof fn law_week_parts_hold_all(zone_name: Seq<char>, rows: Seq<Row>)
    ensures
        rhythm::week_part(zone_name, rows, false).len() + rhythm::week_part(
            zone_name,
            rows,
            true,
        ).len() == rows.len(),
        arith::sum(rhythm::week_part(zone_name, rows, false)) + arith::sum(
            rhythm::week_part(zone_name, rows, true),
        ) == arith::sum(seconds_of(rows)),
    decreases rows.len(),
{
    if rows.len() > 0 {
        let shorter = rows.drop_last();
        law_week_parts_hold_all(zone_name, shorter);
        assert(seconds_of(rows).drop_last() =~= seconds_of(shorter));
        let working = rhythm::week_part(zone_name, shorter, false);
        let free = rhythm::week_part(zone_name, shorter, true);
        let last = rows.last().seconds as int;
        assert(working.push(last).drop_last() =~= working);
        assert(free.push(last).drop_last() =~= free);
    } else {
        assert(seconds_of(rows) =~= Seq::<int>::empty());
    }
}

/// The durations of rows.
pub open spec fn seconds_of(rows: Seq<Row>) -> Seq<int> {
    rows.map_values(|r: Row| r.seconds as int)
}

/// What the first `n` hours of the week hold.
pub open spec fn hours_total(zone_name: Seq<char>, rows: Seq<Row>, n: int) -> int
    decreases n,
{
    if n <= 0 {
        0
    } else {
        hours_total(zone_name, rows, n - 1) + arith::sum(
            rhythm::cell_values(zone_name, rows, n - 1),
        )
    }
}

proof fn lemma_hours_step(zone_name: Seq<char>, rows: Seq<Row>, n: int)
    requires
        rows.len() > 0,
        0 <= n,
    ensures
        hours_total(zone_name, rows, n) == hours_total(zone_name, rows.drop_last(), n) + (if 0
            <= rhythm::cell_of(zone_name, rows.last().start as int) < n {
            rows.last().seconds as int
        } else {
            0
        }),
    decreases n,
{
    if n > 0 {
        lemma_hours_step(zone_name, rows, n - 1);
        let before = rhythm::cell_values(zone_name, rows.drop_last(), n - 1);
        assert(before.push(rows.last().seconds as int).drop_last() =~= before);
    }
}

/// The hours of the week share the time of all sessions: what the cells of the heat map hold adds
/// up to it.
pub proof fn law_hours_hold_all(zone_name: Seq<char>, rows: Seq<Row>)
    ensures
        hours_total(zone_name, rows, 168) == arith::sum(seconds_of(rows)),
    decreases rows.len(),
{
    if rows.len() > 0 {
        law_hours_hold_all(zone_name, rows.drop_last());
        lemma_hours_step(zone_name, rows, 168);
        assert(seconds_of(rows).drop_last() =~= seconds_of(rows.drop_last()));
    } else {
        lemma_no_hours(zone_name, rows, 168);
        assert(seconds_of(rows) =~= Seq::<int>::empty());
    }
}

proof fn lemma_no_hours(zone_name: Seq<char>, rows: Seq<Row>, n: int)
    requires
        rows.len() == 0,
    ensures
        hours_total(zone_name, rows, n) == 0,
    decreases n,
{
    if n > 0 {
        lemma_no_hours(zone_name, rows, n - 1);
    }
}

/// The streak that lasts is no longer than the longest.
pub proof fn law_streaks_in_order(zone_name: Seq<char>, rows: Seq<Row>, s: rhythm::StreakStats)
    requires
        rhythm::tells_streaks(zone_name, rows, s),
    ensures
        s.current_streak <= s.max_streak,
{
    if rows.len() > 0 {
        let days = stats::dates(zone_name, rows);
        let last = choose|last: i64|
            {
                &&& #[trigger] rhythm::is_latest(days, last)
                &&& s.current_streak == rhythm::streak(days, last as int)
                &&& s.last_active_date@ == crate::calendar::date_text(last as int)
            };
        assert(days.contains(last));
    }
}

/// The sums of groups.
pub open spec fn group_sum(groups: Seq<tally::GroupView>) -> int
    decreases groups.len(),
{
    if groups.len() == 0 {
        0
    } else {
        group_sum(groups.drop_last()) + groups.last().seconds
    }
}

proof fn lemma_group_sum_insert(groups: Seq<tally::GroupView>, i: int, g: tally::GroupView)
    requires
        0 <= i <= groups.len(),
    ensures
        group_sum(groups.insert(i, g)) == group_sum(groups) + g.seconds,
    decreases groups.len(),
{
    let r = groups.insert(i, g);
    if i == groups.len() {
        assert(r.drop_last() =~= groups);
    } else {
        lemma_group_sum_insert(groups.drop_last(), i, g);
        assert(r.drop_last() =~= groups.drop_last().insert(i, g));
        assert(r.last() == groups.last());
    }
}

proof fn lemma_group_sum_update(groups: Seq<tally::GroupView>, i: int, g: tally::GroupView)
    requires
        0 <= i < groups.len(),
    ensures
        group_sum(groups.update(i, g)) == group_sum(groups) - groups[i].seconds + g.seconds,
    decreases groups.len(),
{
    let r = groups.update(i, g);
    if i == groups.len() - 1 {
        assert(r.drop_last() =~= groups.drop_last());
    } else {
        lemma_group_sum_update(groups.drop_last(), i, g);
        assert(r.drop_last() =~= groups.drop_last().update(i, g));
        assert(r.last() == groups.last());
    }
}

/// The durations of items.
pub open spec fn item_seconds(items: Seq<tally::Item>) -> Seq<int> {
    items.map_values(|i: tally::Item| i.seconds as int)
}

/// A breakdown loses no time: the sums of its groups add up to the time of all items.
pub proof fn law_groups_hold_all(items: Seq<tally::Item>)
    requires
        items.len() <= i64::MAX,
        tally::tally(items) is Some,
    ensures
        group_sum(tally::tally(items)->0) == arith::sum(item_seconds(items)),
    decreases items.len(),
{
    if items.len() > 0 {
        let shorter = items.drop_last();
        let groups = tally::tally(shorter)->0;
        let item = items.last();
        law_groups_hold_all(shorter);
        tally::lemma_tally_totals(shorter);
        tally::lemma_slot(groups, item.key);
        let i = tally::slot(groups, item.key);
        assert(item_seconds(items).drop_last() =~= item_seconds(shorter));
        if i < groups.len() && groups[i].key == item.key {
            lemma_group_sum_update(
                groups,
                i,
                tally::GroupView {
                    key: item.key,
                    seconds: (groups[i].seconds + item.seconds) as i64,
                    times: (groups[i].times + 1) as i64,
                },
            );
        } else {
            lemma_group_sum_insert(
                groups,
                i,
                tally::GroupView { key: item.key, seconds: item.seconds, times: 1 },
            );
        }
    } else {
        assert(item_seconds(items) =~= Seq::<int>::empty());
    }
}

} // verus!
