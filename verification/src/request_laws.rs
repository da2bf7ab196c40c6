//! What requests leave in the store and what they are answered, said of the records and tokens.

use crate::auth;
use crate::auth::HttpError;
use crate::db;
use crate::db::{DbView, RecordView, Status, TokenView};
use crate::order;
use crate::pattern;
use crate::server;
use crate::server::{
    AppState, CreateTokenReq, CreateTokenResp, EndSessionResp, FilterQuery, ListRecordsQuery,
    OrphanView, PageItemView, StartSessionReq, StartSessionResp,
};
use crate::stats;
use crate::stats::Need;
use crate::summary_laws;
use crate::sums;
use crate::text;
use crate::tokens;
use crate::words;
use vstd::prelude::*;

verus! {

// ---------------------------------------------------------------------------------------------
// Sessions
// ---------------------------------------------------------------------------------------------

/// A start request that is answered adds one record, under the id of the answer: with the command,
/// the alias and the process id of the request, of the client that it names or else of its token,
/// running since the time of the answer. All other records stay as they are.
pub proof fn law_started_record_holds_the_request(
    before: AppState,
    header: Option<Seq<char>>,
    req: StartSessionReq,
    now: i64,
    after: AppState,
    answer: StartSessionResp,
)
    requires
        server::start_answered(before, header, req, now, after, Ok(answer)),
    ensures
        after.db@.records.len() == before.db@.records.len() + 1,
        forall|i: int|
            0 <= i < before.db@.records.len() ==> #[trigger] after.db@.records[i]
                == before.db@.records[i],
        ({
            let r = after.db@.records.last();
            &&& r.id == answer.session_id
            &&& (match req.command {
                Some(c) => r.command == Some(c@),
                None => r.command is None,
            })
            &&& (match req.alias {
                Some(a) => r.alias == Some(a@),
                None => r.alias is None,
            })
            &&& r.process_id == req.process_id
            &&& (match req.client_id {
                Some(c) => r.client_id == c@,
                None => auth::api_client(before.db@, header) == Some(r.client_id),
            })
            &&& r.start_time == now
            &&& answer.start_time == now
            &&& r.created_at == now
            &&& r.end_time is None
            &&& r.duration_seconds is None
            &&& r.status == Status::Active
        }),
        after.db@.api_tokens == before.db@.api_tokens,
        after.db@.exec_events == before.db@.exec_events,
        after.auth == before.auth,
{
}

/// With its command a record holds the words of it: those that a shell would read, or where a shell
/// would read none, those between white space. Without a command it holds none.
pub proof fn law_started_record_holds_the_words(
    before: AppState,
    header: Option<Seq<char>>,
    req: StartSessionReq,
    now: i64,
    after: AppState,
    answer: StartSessionResp,
)
    requires
        server::start_answered(before, header, req, now, after, Ok(answer)),
    ensures
        ({
            let r = after.db@.records.last();
            match req.command {
                Some(c) => r.command_tokens == Some(
                    tokens::json_of(
                        if tokens::shell_words(c@) is Some {
                            tokens::shell_words(c@)->0
                        } else {
                            words::words(c@)
                        },
                    ),
                ),
                None => r.command_tokens is None,
            }
        }),
{
}

/// A start request notes its client as seen now: a new one is entered, of the others none changes.
pub proof fn law_start_notes_the_client(
    before: AppState,
    header: Option<Seq<char>>,
    req: StartSessionReq,
    now: i64,
    after: AppState,
    answer: StartSessionResp,
    i: int,
)
    requires
        before.db@.wf(),
        server::start_answered(before, header, req, now, after, Ok(answer)),
        0 <= i < before.db@.clients.len(),
    ensures
        ({
            let client = after.db@.records.last().client_id;
            let old_one = before.db@.clients[i];
            let new_one = after.db@.clients[i];
            &&& new_one.id == old_one.id
            &&& new_one.name == old_one.name
            &&& new_one.created_at == old_one.created_at
            &&& new_one.last_seen == (if old_one.id == client {
                now
            } else {
                old_one.last_seen
            })
            &&& after.db@.clients.len() == before.db@.clients.len() + (if before.db@.has_client(
                client,
            ) {
                0int
            } else {
                1
            })
            &&& !before.db@.has_client(client) ==> {
                let c = after.db@.clients.last();
                c.id == client && c.name == Some(client) && c.created_at == now && c.last_seen
                    == now
            }
        }),
{
}

/// An end request that is answered completes the session of the answer: it ended now and took the
/// time since its start, which is what the answer tells. Nothing else of it changes.
pub proof fn law_ended_record_holds_its_time(
    before: AppState,
    header: Option<Seq<char>>,
    id: i64,
    now: i64,
    after: AppState,
    answer: EndSessionResp,
    i: int,
)
    requires
        before.db@.wf(),
        0 <= now,
        server::end_answered(before, header, id, now, after, Ok(answer)),
        0 <= i < before.db@.records.len(),
    ensures
        answer.session_id == id,
        after.db@.records.len() == before.db@.records.len(),
        before.db@.records[i].id != id ==> after.db@.records[i] == before.db@.records[i],
        before.db@.records[i].id == id ==> {
            let a = before.db@.records[i];
            let b = after.db@.records[i];
            &&& a.status == Status::Active
            &&& b.status == Status::Completed
            &&& b.end_time == Some(now)
            &&& b.duration_seconds == Some(answer.duration_seconds)
            &&& answer.duration_seconds == now - a.start_time
            &&& b.id == a.id
            &&& b.client_id == a.client_id
            &&& b.start_time == a.start_time
            &&& b.command == a.command
            &&& b.command_tokens == a.command_tokens
            &&& b.alias == a.alias
            &&& b.process_id == a.process_id
            &&& b.created_at == a.created_at
        },
        after.db@.api_tokens == before.db@.api_tokens,
        after.db@.clients == before.db@.clients,
{
    let who = server::caller_of(before, header)->0;
    let outcome = choose|outcome: Option<i64>|
        {
            &&& #[trigger] db::session_ended(
                before.db@,
                id,
                server::reach_of(who),
                now,
                after.db@,
                outcome,
            )
            &&& Ok::<EndSessionResp, HttpError>(answer) == match outcome {
                Some(d) => Ok::<EndSessionResp, HttpError>(
                    EndSessionResp { session_id: id, duration_seconds: d },
                ),
                None => Err::<EndSessionResp, HttpError>(HttpError::NotFound),
            }
        };
    let k = choose|k: int|
        {
            &&& #[trigger] before.db@.running(k, id, server::reach_of(who))
            &&& after.db@ == before.db@.with_row(k, before.db@.records[k].ended(now))
            &&& outcome->0 == now - before.db@.records[k].start_time
        };
    if before.db@.records[i].id == id && i != k {
        if i < k {
            assert(before.db@.records[i].id < before.db@.records[k].id);
        } else {
            assert(before.db@.records[k].id < before.db@.records[i].id);
        }
    }
}

/// A request to end a session is answered that there is none exactly where no session of that id runs
/// that the caller may end: a client its own, the administrator any. Nothing changes then.
pub proof fn law_only_own_running_sessions_end(
    before: AppState,
    header: Option<Seq<char>>,
    id: i64,
    now: i64,
    after: AppState,
    r: Result<EndSessionResp, HttpError>,
)
    requires
        server::end_answered(before, header, id, now, after, r),
        server::caller_of(before, header) is Some,
    ensures
        r is Ok <==> exists|i: int|
            0 <= i < before.db@.records.len() && (#[trigger] before.db@.records[i]).id == id
                && before.db@.records[i].status == Status::Active && (match auth::api_client(
                before.db@,
                header,
            ) {
                Some(client) => before.db@.records[i].client_id == client,
                None => true,
            }),
        r is Err ==> r->Err_0 == HttpError::NotFound && after.db@ == before.db@,
{
    let who = server::caller_of(before, header)->0;
    let outcome = choose|outcome: Option<i64>|
        {
            &&& #[trigger] db::session_ended(
                before.db@,
                id,
                server::reach_of(who),
                now,
                after.db@,
                outcome,
            )
            &&& r == match outcome {
                Some(d) => Ok::<EndSessionResp, HttpError>(
                    EndSessionResp { session_id: id, duration_seconds: d },
                ),
                None => Err::<EndSessionResp, HttpError>(HttpError::NotFound),
            }
        };
    if outcome is Some {
        let k = choose|k: int|
            {
                &&& #[trigger] before.db@.running(k, id, server::reach_of(who))
                &&& after.db@ == before.db@.with_row(k, before.db@.records[k].ended(now))
                &&& outcome->0 == now - before.db@.records[k].start_time
            };
        assert(before.db@.records[k].id == id);
    } else {
        if exists|i: int|
            0 <= i < before.db@.records.len() && (#[trigger] before.db@.records[i]).id == id
                && before.db@.records[i].status == Status::Active && (match auth::api_client(
                before.db@,
                header,
            ) {
                Some(client) => before.db@.records[i].client_id == client,
                None => true,
            }) {
            let i = choose|i: int|
                0 <= i < before.db@.records.len() && (#[trigger] before.db@.records[i]).id == id
                    && before.db@.records[i].status == Status::Active && (match auth::api_client(
                    before.db@,
                    header,
                ) {
                    Some(client) => before.db@.records[i].client_id == client,
                    None => true,
                });
            assert(before.db@.running(i, id, server::reach_of(who)));
        }
    }
}

/// A session that is thrown away is kept as discarded and otherwise as it was, and no statistic and no
/// list of running sessions counts it; the other records stay as they are.
pub proof fn law_discarded_record_is_kept_aside(
    before: DbView,
    id: i64,
    client: Option<Seq<char>>,
    after: DbView,
    i: int,
)
    requires
        before.wf(),
        db::session_discarded(before, id, client, after, true),
        0 <= i < before.records.len(),
    ensures
        after.records.len() == before.records.len(),
        before.records[i].id != id ==> after.records[i] == before.records[i],
        before.records[i].id == id ==> {
            let a = before.records[i];
            let b = after.records[i];
            &&& a.status == Status::Active
            &&& b.status == Status::Discarded
            &&& b.id == a.id && b.client_id == a.client_id && b.start_time == a.start_time
            &&& b.end_time == a.end_time && b.duration_seconds == a.duration_seconds
            &&& b.command == a.command && b.alias == a.alias && b.process_id == a.process_id
            &&& !stats::wants(""@, ""@, ""@, Need::Nothing)(b)
            &&& !db::wants_running(None)(b)
        },
{
    let k = choose|k: int|
        {
            &&& #[trigger] before.running(k, id, client)
            &&& after == before.with_row(k, before.records[k].thrown_away())
        };
    if before.records[i].id == id && i != k {
        if i < k {
            assert(before.records[i].id < before.records[k].id);
        } else {
            assert(before.records[k].id < before.records[i].id);
        }
    }
}

/// A record that is deleted is gone, and all others are there as before.
pub proof fn law_deleted_record_is_gone(before: DbView, id: i64, after: DbView, r: RecordView)
    requires
        before.wf(),
        db::record_deleted(before, id, after, true),
    ensures
        before.has_record(id),
        !after.has_record(id),
        r.id != id ==> (after.records.contains(r) <==> before.records.contains(r)),
        after.records.len() == before.records.len() - 1,
        after.clients == before.clients,
        after.api_tokens == before.api_tokens,
        after.last_id == before.last_id,
{
    let k = choose|k: int|
        {
            &&& 0 <= k < before.records.len()
            &&& #[trigger] before.records[k].id == id
            &&& after == before.without_row(k)
        };
    if after.has_record(id) {
        let j = choose|j: int|
            0 <= j < after.records.len() && #[trigger] after.records[j].id == id;
        let was = if j < k {
            j
        } else {
            j + 1
        };
        assert(after.records[j] == before.records[was]);
        if was < k {
            assert(before.records[was].id < before.records[k].id);
        } else {
            assert(before.records[k].id < before.records[was].id);
        }
    }
    if after.records.contains(r) {
        let j = choose|j: int| 0 <= j < after.records.len() && after.records[j] == r;
        assert(before.records[if j < k { j } else { j + 1 }] == r);
    }
    if r.id != id && before.records.contains(r) {
        let j = choose|j: int| 0 <= j < before.records.len() && before.records[j] == r;
        assert(after.records[if j < k { j } else { j - 1 }] == r);
    }
}

// ---------------------------------------------------------------------------------------------
// Tokens and credentials
// ---------------------------------------------------------------------------------------------

/// The header of a token gives that token, a header of another scheme none.
pub proof fn law_bearer_header_carries_its_token(token: Seq<char>, h: Seq<char>)
    ensures
        auth::bearer_token(Some("Bearer "@ + token)) == Some(token),
        auth::bearer_token(None) is None,
        auth::bearer_token(Some(h)) is Some ==> h == "Bearer "@ + auth::bearer_token(Some(h))->0,
        auth::bearer_token(Some("Basic "@ + token)) is None,
{
    let p = "Bearer "@;
    assert((p + token).take(p.len() as int) =~= p);
    assert((p + token).skip(p.len() as int) =~= token);
    if auth::bearer_token(Some(h)) is Some {
        assert(h =~= h.take(p.len() as int) + h.skip(p.len() as int));
    }
    reveal_strlit("Bearer ");
    reveal_strlit("Basic ");
    let other = "Basic "@ + token;
    if text::starts_with(other, p) {
        assert(other.take(p.len() as int)[1] == other[1]);
        assert(other[1] == 'a');
        assert(p[1] == 'e');
    }
}

/// A token that is made stands for the client that is asked for, `default` where none is, with the
/// description and the time of the request. From then on its header is let in for that client.
pub proof fn law_made_token_lets_its_client_in(
    before: AppState,
    header: Option<&str>,
    req: CreateTokenReq,
    token: Seq<char>,
    now: i64,
    after: AppState,
    answer: CreateTokenResp,
)
    requires
        before.db@.wf(),
        server::token_answered(before, header, req, token, now, after, Ok(answer)),
    ensures
        answer.token@ == token,
        before.admits(header),
        ({
            let t = after.db@.api_tokens.last();
            &&& t.token == token
            &&& t.created_at == now
            &&& (match req.client_id {
                Some(c) => t.client_id == c@,
                None => t.client_id == "default"@,
            })
            &&& (match req.description {
                Some(d) => t.description == Some(d@),
                None => t.description is None,
            })
            &&& auth::api_client(after.db@, Some("Bearer "@ + answer.token@)) == Some(t.client_id)
        }),
        forall|i: int|
            0 <= i < before.db@.api_tokens.len() ==> #[trigger] after.db@.api_tokens[i]
                == before.db@.api_tokens[i],
        after.db@.api_tokens.len() == before.db@.api_tokens.len() + 1,
        after.db@.records == before.db@.records,
{
    law_bearer_header_carries_its_token(token, token);
    let d = after.db@;
    let n = before.db@.api_tokens.len() as int;
    assert(d.api_tokens[n].token == token);
    assert forall|i: int|
        0 <= i < d.api_tokens.len() && #[trigger] d.api_tokens[i].token == token implies i == n by {
        if i < n {
            assert(before.db@.api_tokens[i].token == token);
        }
    }
}

/// A token that is revoked lets nobody in any more; the other tokens are as before.
pub proof fn law_revoked_token_lets_nobody_in(
    before: DbView,
    token: Seq<char>,
    after: DbView,
    other: TokenView,
)
    requires
        before.wf(),
        db::token_deleted(before, token, after, true),
    ensures
        before.has_token(token),
        auth::api_client(after, Some("Bearer "@ + token)) is None,
        other.token != token ==> (after.api_tokens.contains(other)
            <==> before.api_tokens.contains(other)),
        after.records == before.records,
        after.api_tokens.len() == before.api_tokens.len() - 1,
{
    law_bearer_header_carries_its_token(token, token);
    let k = choose|k: int|
        {
            &&& 0 <= k < before.api_tokens.len()
            &&& #[trigger] before.api_tokens[k].token == token
            &&& after == before.without_token(k)
        };
    if after.has_token(token) {
        let j = choose|j: int|
            0 <= j < after.api_tokens.len() && #[trigger] after.api_tokens[j].token == token;
        let was = if j < k {
            j
        } else {
            j + 1
        };
        assert(after.api_tokens[j] == before.api_tokens[was]);
        assert(before.api_tokens[was].token == before.api_tokens[k].token);
        if was < k {
            assert(before.api_tokens[was].token != before.api_tokens[k].token);
        } else {
            assert(before.api_tokens[k].token != before.api_tokens[was].token);
        }
    }
    if after.api_tokens.contains(other) {
        let j = choose|j: int| 0 <= j < after.api_tokens.len() && after.api_tokens[j] == other;
        assert(before.api_tokens[if j < k { j } else { j + 1 }] == other);
    }
    if other.token != token && before.api_tokens.contains(other) {
        let j = choose|j: int| 0 <= j < before.api_tokens.len() && before.api_tokens[j] == other;
        assert(after.api_tokens[if j < k { j } else { j - 1 }] == other);
    }
}

/// The name and the password of the web interface must both be right: where the stored value is no
/// bcrypt hash it is the password, else the hash decides. A wrong name is never let in.
pub proof fn law_credentials_must_match(
    username: Seq<char>,
    password: Seq<char>,
    user: Seq<char>,
    stored: Seq<char>,
)
    ensures
        username != user ==> !auth::matches_config(username, password, user, stored),
        (stored.len() < 2 || stored[0] != '$' || stored[1] != '2') ==> (auth::matches_config(
            user,
            password,
            user,
            stored,
        ) <==> password == stored),
        (stored.len() >= 2 && stored[0] == '$' && stored[1] == '2') ==> (auth::matches_config(
            user,
            password,
            user,
            stored,
        ) <==> auth::bcrypt_verdict(password, stored) == Some(true)),
{
    reveal_strlit("$2");
    if text::starts_with(stored, "$2"@) {
        assert(stored.take(2)[0] == stored[0]);
        assert(stored.take(2)[1] == stored[1]);
    } else if stored.len() >= 2 && stored[0] == '$' && stored[1] == '2' {
        assert(stored.take(2) =~= "$2"@);
    }
}

/// Whoever has a stored token acts as its client; without one, whoever has the credentials of the web
/// interface acts as the administrator; anyone else is refused.
pub proof fn law_callers(state: AppState, header: Option<Seq<char>>)
    ensures
        server::caller_of(state, header) is Some <==> auth::api_client(state.db@, header) is Some
            || auth::web_authorized(state.auth, header),
        auth::api_client(state.db@, header) is Some ==> server::caller_of(state, header) == Some(
            (false, auth::api_client(state.db@, header)->0),
        ) && server::reach_of(server::caller_of(state, header)->0) == auth::api_client(
            state.db@,
            header,
        ),
        auth::api_client(state.db@, header) is None && auth::web_authorized(state.auth, header)
            ==> server::reach_of(server::caller_of(state, header)->0) is None,
{
}

// ---------------------------------------------------------------------------------------------
// Queries
// ---------------------------------------------------------------------------------------------

/// A filter that a request leaves out lets every completed session pass; one that it gives is the one
/// that is applied. Without a known zone the clock is that of UTC.
pub proof fn law_request_filters_apply(q: FilterQuery, r: RecordView)
    ensures
        stats::wants(q.client(), q.alias_text(), q.command_text(), Need::Nothing)(r) <==> {
            &&& r.status == Status::Completed
            &&& (match q.client_id {
                Some(c) => c@ == ""@ || c@ == "__global__"@ || r.client_id == c@,
                None => true,
            })
            &&& (match q.alias {
                Some(a) => a@ == ""@ || r.alias == Some(a@),
                None => true,
            })
            &&& (match q.command {
                Some(c) => c@ == ""@ || (r.command is Some && pattern::contains_like(
                    r.command->0,
                    c@,
                )),
                None => true,
            })
        },
        q.tz is None ==> q.zone() == "UTC"@,
        q.tz is Some && crate::zone::zone_known(q.tz->0@) ==> q.zone() == q.tz->0@,
        q.tz is Some && !crate::zone::zone_known(q.tz->0@) ==> q.zone() == "UTC"@,
        q.depth is Some ==> q.words() == q.depth->0,
        q.depth is None ==> q.words() == 0,
{
    summary_laws::law_filters_decide(r, q.client(), q.alias_text(), q.command_text());
}

/// Whether a record is listed: its session no longer runs, and it passes the filters that are given.
pub open spec fn is_listed(
    r: RecordView,
    client: Seq<char>,
    alias: Seq<char>,
    command: Seq<char>,
) -> bool {
    &&& r.status == Status::Completed || r.status == Status::Discarded
    &&& client == ""@ || client == "__global__"@ || r.client_id == client
    &&& alias == ""@ || (r.alias is Some && pattern::contains_like(r.alias->0, alias))
    &&& command == ""@ || (r.command is Some && pattern::contains_like(r.command->0, command))
}

proof fn lemma_listed(r: RecordView, client: Seq<char>, alias: Seq<char>, command: Seq<char>)
    ensures
        db::wants_listed(client, alias, command)(r) == is_listed(r, client, alias, command),
{
    reveal_strlit("");
    assert(client.len() == 0 ==> client =~= ""@);
    assert(alias.len() == 0 ==> alias =~= ""@);
    assert(command.len() == 0 ==> command =~= ""@);
}

/// Whether an item of a page tells what a record holds.
pub open spec fn tells_record(item: PageItemView, r: RecordView) -> bool {
    &&& item.id == r.id
    &&& item.client_id == r.client_id
    &&& item.alias == r.alias
    &&& item.command == r.command
    &&& item.start_time == r.start_time
    &&& item.end_time == r.end_time
    &&& item.duration_seconds == r.duration_seconds
    &&& r.status == Status::Completed ==> item.status == "completed"@
    &&& r.status == Status::Discarded ==> item.status == "discarded"@
    &&& r.status == Status::Active ==> item.status == "active"@
}

/// The pages of the listed records together show each of them once, the latest start first; each item
/// tells what its record holds; the total is their number.
pub proof fn law_listing_shows_the_records(
    records: Seq<RecordView>,
    client: Seq<char>,
    alias: Seq<char>,
    command: Seq<char>,
    items: Seq<PageItemView>,
)
    requires
        items == server::page_items(
            db::latest_first(order::kept(records, db::wants_listed(client, alias, command))),
        ),
    ensures
        items.len() == sums::over(
            records,
            |r: RecordView|
                if is_listed(r, client, alias, command) {
                    1int
                } else {
                    0
                },
        ),
        forall|a: int, b: int|
            0 <= a <= b < items.len() ==> (#[trigger] items[a]).start_time >= (
            #[trigger] items[b]).start_time,
        forall|k: int|
            0 <= k < items.len() ==> shows_one(records, client, alias, command, #[trigger] items[k]),
        forall|i: int|
            0 <= i < records.len() && is_listed(#[trigger] records[i], client, alias, command)
                ==> exists|k: int|
                0 <= k < items.len() && tells_record(#[trigger] items[k], records[i]),
{
    let wanted = db::wants_listed(client, alias, command);
    let hits = order::kept(records, wanted);
    let keys = db::starts(hits);
    let sorted = order::sorted(hits, keys, true);
    order::lemma_kept_member(records, wanted);
    order::lemma_sorted_len(hits, keys, true);
    order::lemma_sorted_member(hits, keys, true);
    sums::lemma_kept_count(records, wanted);
    assert forall|i: int| 0 <= i < records.len() implies wanted(#[trigger] records[i])
        == is_listed(records[i], client, alias, command) by {
        lemma_listed(records[i], client, alias, command);
    }
    sums::lemma_over_same(
        records,
        |r: RecordView|
            if wanted(r) {
                1int
            } else {
                0
            },
        |r: RecordView|
            if is_listed(r, client, alias, command) {
                1int
            } else {
                0
            },
    );
    assert forall|k: int| 0 <= k < items.len() implies tells_record(
        #[trigger] items[k],
        sorted[k],
    ) by {}
    let p = order::order(keys, true);
    assert forall|a: int, b: int| 0 <= a <= b < items.len() implies (#[trigger] items[a]).start_time
        >= (#[trigger] items[b]).start_time by {
        assert(sorted[a] == hits[p[a]]);
        assert(sorted[b] == hits[p[b]]);
        if a < b {
            assert(order::precedes(keys, true, p[a], p[b]));
        }
    }
    assert forall|k: int| 0 <= k < items.len() implies shows_one(
        records,
        client,
        alias,
        command,
        #[trigger] items[k],
    ) by {
        assert(hits.contains(sorted[k]));
        let j = choose|j: int| 0 <= j < hits.len() && hits[j] == sorted[k];
        assert(records.contains(hits[j]));
        let i = choose|i: int| 0 <= i < records.len() && records[i] == hits[j];
        assert(wanted(records[i]));
        assert(is_listed(records[i], client, alias, command));
    }
    assert forall|i: int|
        0 <= i < records.len() && is_listed(
            #[trigger] records[i],
            client,
            alias,
            command,
        ) implies exists|k: int|
        0 <= k < items.len() && tells_record(#[trigger] items[k], records[i]) by {
        assert(wanted(records[i]));
        summary_laws::lemma_kept_holds(records, wanted, i);
        assert(sorted.contains(records[i]));
        let k = choose|k: int| 0 <= k < sorted.len() && sorted[k] == records[i];
        assert(tells_record(items[k], records[i]));
    }
}

/// Whether an item tells one of the listed records.
pub open spec fn shows_one(
    records: Seq<RecordView>,
    client: Seq<char>,
    alias: Seq<char>,
    command: Seq<char>,
    item: PageItemView,
) -> bool {
    exists|i: int|
        0 <= i < records.len() && is_listed(#[trigger] records[i], client, alias, command)
            && tells_record(item, records[i])
}

/// A page of so many items holds those items of the whole list that come after the pages before it.
/// Pages count from 1, hold 50 unless asked otherwise and never more than 500 nor less than one. There
/// are as many pages as it takes to hold all.
pub proof fn law_pages_cut_the_list<T>(q: ListRecordsQuery, all: Seq<T>, k: int)
    requires
        0 <= k,
    ensures
        ({
            let size = q.page_size();
            let page = db::window(all, size, (q.page_number() - 1) * size);
            let before = (q.page_number() - 1) * size;
            &&& 1 <= size <= 500
            &&& q.page_number() >= 1
            &&& q.per_page is None ==> size == 50
            &&& q.per_page is Some && 1 <= q.per_page->0 <= 500 ==> size == q.per_page->0
            &&& q.page is None ==> q.page_number() == 1
            &&& q.page is Some && q.page->0 >= 1 ==> q.page_number() == q.page->0
            &&& k < page.len() <==> k < size && before + k < all.len()
            &&& k < page.len() ==> page[k] == all[before + k]
            &&& ({
                let pages = (all.len() + size - 1) / size;
                (pages - 1) * size < all.len() <= pages * size || (all.len() == 0 && pages == 0)
            })
        }),
{
    let size = q.page_size();
    let n = all.len() as int;
    let pages = (n + size - 1) / size;
    assert((pages - 1) * size < n <= pages * size || (n == 0 && pages == 0)) by (nonlinear_arith)
        requires
            pages == (n + size - 1) / size,
            size >= 1,
            n >= 0,
    ;
    assert((q.page_number() - 1) * size >= 0) by (nonlinear_arith)
        requires
            q.page_number() >= 1,
            size >= 1,
    ;
}

/// The list of running sessions tells each session that runs, with the time since its start, the
/// latest start first, and no other.
pub proof fn law_running_sessions_are_listed(d: DbView, now: int, list: Seq<OrphanView>)
    requires
        list == server::orphans(d, now),
    ensures
        list.len() == sums::over(
            d.records,
            |r: RecordView|
                if r.status == Status::Active {
                    1int
                } else {
                    0
                },
        ),
        forall|a: int, b: int|
            0 <= a <= b < list.len() ==> (#[trigger] list[a]).start_time >= (
            #[trigger] list[b]).start_time,
        forall|k: int| 0 <= k < list.len() ==> runs_in(d.records, now, #[trigger] list[k]),
        forall|i: int|
            0 <= i < d.records.len() && (#[trigger] d.records[i]).status == Status::Active
                ==> exists|k: int|
                0 <= k < list.len() && tells_running(#[trigger] list[k], d.records[i], now),
{
    let wanted = db::wants_running(None);
    let hits = order::kept(d.records, wanted);
    let keys = db::starts(hits);
    let sorted = order::sorted(hits, keys, true);
    order::lemma_kept_member(d.records, wanted);
    order::lemma_sorted_len(hits, keys, true);
    order::lemma_sorted_member(hits, keys, true);
    sums::lemma_kept_count(d.records, wanted);
    sums::lemma_over_same(
        d.records,
        |r: RecordView|
            if wanted(r) {
                1int
            } else {
                0
            },
        |r: RecordView|
            if r.status == Status::Active {
                1int
            } else {
                0
            },
    );
    assert forall|k: int| 0 <= k < list.len() implies tells_running(
        #[trigger] list[k],
        sorted[k],
        now,
    ) by {}
    let p = order::order(keys, true);
    assert forall|a: int, b: int| 0 <= a <= b < list.len() implies (#[trigger] list[a]).start_time
        >= (#[trigger] list[b]).start_time by {
        assert(sorted[a] == hits[p[a]]);
        assert(sorted[b] == hits[p[b]]);
        if a < b {
            assert(order::precedes(keys, true, p[a], p[b]));
        }
    }
    assert forall|k: int| 0 <= k < list.len() implies runs_in(
        d.records,
        now,
        #[trigger] list[k],
    ) by {
        assert(hits.contains(sorted[k]));
        let j = choose|j: int| 0 <= j < hits.len() && hits[j] == sorted[k];
        assert(d.records.contains(hits[j]));
        let i = choose|i: int| 0 <= i < d.records.len() && d.records[i] == hits[j];
        assert(wanted(d.records[i]));
        assert(d.records[i].status == Status::Active);
    }
    assert forall|i: int|
        0 <= i < d.records.len() && (#[trigger] d.records[i]).status
            == Status::Active implies exists|k: int|
        0 <= k < list.len() && tells_running(#[trigger] list[k], d.records[i], now) by {
        assert(wanted(d.records[i]));
        summary_laws::lemma_kept_holds(d.records, wanted, i);
        assert(sorted.contains(d.records[i]));
        let k = choose|k: int| 0 <= k < sorted.len() && sorted[k] == d.records[i];
        assert(tells_running(list[k], d.records[i], now));
    }
}

/// Whether an item of the list of running sessions tells what a record holds, and how long it has run.
pub open spec fn tells_running(o: OrphanView, r: RecordView, now: int) -> bool {
    &&& o.id == r.id
    &&& o.client_id == r.client_id
    &&& o.start_time == r.start_time
    &&& o.running_seconds == now - r.start_time
    &&& o.command == r.command
    &&& o.alias == r.alias
    &&& o.process_id == r.process_id
}

/// Whether an item tells one of the running sessions.
pub open spec fn runs_in(records: Seq<RecordView>, now: int, o: OrphanView) -> bool {
    exists|i: int|
        0 <= i < records.len() && (#[trigger] records[i]).status == Status::Active && tells_running(
            o,
            records[i],
            now,
        )
}

/// A fresh token is `tspan_` and the 32 digits of an identifier.
pub proof fn law_tokens_have_their_shape(id: Seq<char>)
    requires
        server::is_uuid(id),
    ensures
        text::starts_with(server::token_text(id), "tspan_"@),
        !server::token_text(id).contains('-'),
{
    let t = server::token_text(id);
    assert(t.take("tspan_"@.len() as int) =~= "tspan_"@);
    lemma_no_dash(id);
    reveal_strlit("tspan_");
    if t.contains('-') {
        let k = choose|k: int| 0 <= k < t.len() && t[k] == '-';
        let rest = text::replaced(id, '-', ""@);
        if k >= 6 {
            assert(rest[k - 6] == '-');
            assert(rest.contains('-'));
        }
    }
}

proof fn lemma_no_dash(s: Seq<char>)
    ensures
        !text::replaced(s, '-', ""@).contains('-'),
    decreases s.len(),
{
    reveal_strlit("");
    if s.len() > 0 {
        lemma_no_dash(s.drop_last());
    }
}

/// The first token is made only where there is none: of the client `default`.
pub proof fn law_first_token_only_where_there_is_none(
    before: DbView,
    token: Seq<char>,
    now: i64,
    after: DbView,
    r: Option<String>,
)
    requires
        server::first_token_made(before, token, now, after, r),
    ensures
        r is Some <==> before.api_tokens.len() == 0,
        r is Some ==> r->0@ == token && after.api_tokens.len() == 1 && after.api_tokens[0].token
            == token && after.api_tokens[0].client_id == "default"@
            && after.api_tokens[0].created_at == now,
        r is None ==> after == before,
        after.records == before.records,
{
}

} // verus!
