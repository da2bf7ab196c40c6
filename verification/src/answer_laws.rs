//! What the server's answers and pages, and the addresses of both sides, come to.

use crate::api;
use crate::app::{AfterView, AppView, OverlayView, GLOBAL_CLIENT};
use crate::auth::HttpError;
use crate::breakdown;
use crate::breakdown::{Grouping, LineView};
use crate::breakdown_laws::group_of;
use crate::db;
use crate::db::{DbView, RecordView, Status, TokenView};
use crate::html;
use crate::importer;
use crate::importer::{ImportFile, ImportResult};
use crate::order;
use crate::page_laws;
use crate::page_laws::shown;
use crate::refresh;
use crate::request_laws;
use crate::rhythm_laws;
use crate::rhythm_laws::{date_of, took_some};
use crate::server;
use crate::server::{AppState, ExecEventReq, FilterQuery, ImportReq, ListRecordsQuery};
use crate::stats;
use crate::summary_laws::counted;
use crate::sums;
use crate::svg_calendar;
use crate::svg_laws;
use crate::svg_laws::holds;
use crate::text;
use crate::words;
use vstd::prelude::*;

verus! {

// ---------------------------------------------------------------------------------------------
// Answers
// ---------------------------------------------------------------------------------------------

/// A report of a program that could not be started is stored as it was sent, under the id of the
/// answer; what was stored before stays.
pub proof fn law_report_is_stored_as_sent(
    before: AppState,
    header: Option<Seq<char>>,
    req: ExecEventReq,
    after: AppState,
    id: i64,
)
    requires
        server::exec_event_answered(before, header, req, after, Ok(id)),
    ensures
        after.db@.exec_events.len() == before.db@.exec_events.len() + 1,
        after.db@.exec_events.drop_last() == before.db@.exec_events,
        ({
            let e = after.db@.exec_events.last();
            &&& e.id == id
            &&& e.client_id == req.client_id@
            &&& e.command == req.command@
            &&& e.process_id == req.process_id
            &&& e.timestamp == req.timestamp
            &&& e.errno == req.errno
        }),
        after.db@.records == before.db@.records,
{
    assert(after.db@.exec_events.drop_last() =~= before.db@.exec_events);
}

/// An import that is answered counts each file once, as imported or as failed; each imported one is
/// one more record behind those that were there, and each failed one is told. Nobody but the
/// administrator imports.
pub proof fn law_import_counts_its_files(
    before: AppState,
    header: Option<&str>,
    req: ImportReq,
    files: Seq<ImportFile>,
    now: i64,
    after: AppState,
    r: Result<ImportResult, HttpError>,
)
    requires
        server::import_answered(before, header, req, files, now, after, r),
    ensures
        r is Ok <==> before.admits(header),
        r is Err ==> after.db@ == before.db@,
        r is Ok ==> {
            &&& r->Ok_0.imported + r->Ok_0.failed == files.len()
            &&& r->Ok_0.errors@.len() == r->Ok_0.failed
            &&& after.db@.records.len() == before.db@.records.len() + r->Ok_0.imported
            &&& after.db@.records.take(before.db@.records.len() as int) == before.db@.records
            &&& forall|i: int|
                before.db@.records.len() <= i < after.db@.records.len() ==> (
                #[trigger] after.db@.records[i]).client_id == (match req.client_id {
                    Some(c) => c@,
                    None => "default"@,
                }) && after.db@.records[i].status == Status::Completed
        },
{
    if r is Ok {
        let client = server::given_or(req.client_id, "default"@);
        importer::law_every_file_counts(
            before.db@,
            client,
            files,
            None,
            None,
            now,
            files.len() as int,
        );
        lemma_imported(before.db@, client, files, now, files.len() as int);
        assert(text::texts(r->Ok_0.errors@).len() == r->Ok_0.errors@.len());
    }
}

proof fn lemma_imported(store: DbView, client: Seq<char>, files: Seq<ImportFile>, now: i64, n: int)
    requires
        0 <= n <= files.len(),
    ensures
        ({
            let p = importer::imported(store, client, files, None, None, now, n);
            &&& p.store.records.len() >= store.records.len()
            &&& forall|i: int|
                store.records.len() <= i < p.store.records.len() ==> (
                #[trigger] p.store.records[i]).client_id == client && p.store.records[i].status
                    == Status::Completed
        }),
    decreases n,
{
    if n > 0 {
        lemma_imported(store, client, files, now, n - 1);
    }
}

/// The days that a request is told hold the time of the sessions that pass its filters, each session
/// on the date of its start in the zone of the request.
pub proof fn law_requested_days_hold_their_sessions(
    d: DbView,
    q: FilterQuery,
    days: Seq<(Seq<char>, i64)>,
    k: int,
)
    requires
        d.records.len() <= i64::MAX,
        q.days(d) == Some(days),
        0 <= k < days.len(),
    ensures
        days[k].1 == sums::over(
            d.records,
            |r: RecordView|
                if counted(r, q.client(), q.alias_text(), q.command_text()) && date_of(q.zone(), r)
                    == days[k].0 {
                    took_some(r)
                } else {
                    0
                },
        ),
{
    rhythm_laws::law_days_hold_their_sessions(
        d.records,
        q.client(),
        q.alias_text(),
        q.command_text(),
        q.zone(),
        days,
    );
    let day = days[k];
    sums::lemma_over_same(
        d.records,
        |r: RecordView|
            if counted(r, q.client(), q.alias_text(), q.command_text()) && date_of(q.zone(), r)
                == day.0 {
                took_some(r)
            } else {
                0
            },
        |r: RecordView|
            if counted(r, q.client(), q.alias_text(), q.command_text()) && date_of(q.zone(), r)
                == days[k].0 {
                took_some(r)
            } else {
                0
            },
    );
}

/// The calendars that are handed out: that of all time is drawn from all data, and each of the years
/// from the entries of that year, under its number; the latest year comes first.
pub proof fn law_handed_out_calendars(
    data: Seq<(Seq<char>, i64)>,
    today: int,
    all_time: Seq<char>,
    years: Seq<(String, String)>,
)
    requires
        server::are_calendars(data, today, all_time, years),
    ensures
        all_time == svg_calendar::calendar_of(data, None, today),
        forall|k: int| 0 <= k < years.len() ==> calendar_of_its_year(data, today, #[trigger] years[k]),
{
    let list = choose|list: Seq<int>| #[trigger]
        svg_calendar::are_years(data, list) && svg_calendar::named(years)
            == svg_calendar::year_calendars(data, list, today);
    svg_laws::law_calendars_by_year(data, list, today, svg_calendar::named(years));
    assert forall|k: int| 0 <= k < years.len() implies calendar_of_its_year(
        data,
        today,
        #[trigger] years[k],
    ) by {
        assert(svg_calendar::named(years)[k] == (years[k].0@, years[k].1@));
        assert(is_calendar_of(data, today, years[k], list[k]));
    }
}

/// Whether a drawing stands under a year and is drawn from the entries of that year.
pub open spec fn is_calendar_of(
    data: Seq<(Seq<char>, i64)>,
    today: int,
    drawing: (String, String),
    year: int,
) -> bool {
    drawing.0@ == text::dec(year) && svg_laws::drawn_from(data, year, today, drawing.1@)
}

/// Whether a drawing is that of the year under which it stands.
pub open spec fn calendar_of_its_year(
    data: Seq<(Seq<char>, i64)>,
    today: int,
    drawing: (String, String),
) -> bool {
    exists|year: int| #[trigger] is_calendar_of(data, today, drawing, year)
}

/// The aliases that are handed out are those of completed sessions, each once.
pub proof fn law_aliases_are_those_in_use(records: Seq<RecordView>, lines: Seq<LineView>, i: int)
    requires
        records.len() <= i64::MAX,
        breakdown::breakdown_by(records, "__global__"@, Grouping::Alias) == Ok::<
            Seq<LineView>,
            stats::StatsError,
        >(lines),
        0 <= i < records.len(),
    ensures
        records[i].status == Status::Completed && records[i].alias is Some && records[i].alias->0
            != ""@ ==> server::alias_names(lines).contains(records[i].alias->0),
        forall|a: int, b: int|
            0 <= a < b < server::alias_names(lines).len() ==> server::alias_names(lines)[a]
                != server::alias_names(lines)[b],
{
    crate::breakdown_laws::law_breakdown_tells_its_groups(
        records,
        "__global__"@,
        Grouping::Alias,
        lines,
    );
    let names = server::alias_names(lines);
    assert forall|a: int, b: int| 0 <= a < b < names.len() implies names[a] != names[b] by {
        assert(names[a] == lines[a].key);
        assert(names[b] == lines[b].key);
    }
    if group_of(records[i], "__global__"@, Grouping::Alias) is Some {
        let k = choose|k: int|
            0 <= k < lines.len() && group_of(records[i], "__global__"@, Grouping::Alias) == Some(
                (#[trigger] lines[k]).key,
            );
        assert(names[k] == records[i].alias->0);
    }
}

/// The clients that are listed are those of which there is a record, each once.
pub proof fn law_listed_clients_have_records(d: DbView, names: Seq<Seq<char>>, i: int)
    requires
        db::lists_clients(d, names),
    ensures
        0 <= i < d.records.len() ==> names.contains(d.records[i].client_id),
        0 <= i < names.len() ==> exists|k: int|
            0 <= k < d.records.len() && #[trigger] d.records[k].client_id == names[i],
        forall|a: int, b: int| 0 <= a < b < names.len() ==> names[a] != names[b],
{
    if 0 <= i < d.records.len() {
        assert(db::has_records(d, d.records[i].client_id));
    }
    if 0 <= i < names.len() {
        assert(names.contains(names[i]));
    }
    assert forall|a: int, b: int| 0 <= a < b < names.len() implies names[a] != names[b] by {
        lemma_not_before_itself(names[a]);
    }
}

proof fn lemma_not_before_itself(s: Seq<char>)
    ensures
        !text::before(s, s),
    decreases s.len(),
{
    if s.len() > 0 {
        lemma_not_before_itself(s.drop_first());
    }
}

/// A request for a list of records finds each record of a session that no longer runs and that
/// passes the filters that it gives, and no others.
pub proof fn law_list_request_finds_its_records(d: DbView, q: ListRecordsQuery)
    ensures
        q.hits(d).len() == sums::over(
            d.records,
            |r: RecordView|
                if request_laws::is_listed(
                    r,
                    match q.client_id {
                        Some(c) => c@,
                        None => ""@,
                    },
                    match q.alias {
                        Some(a) => a@,
                        None => ""@,
                    },
                    match q.command {
                        Some(c) => c@,
                        None => ""@,
                    },
                ) {
                    1int
                } else {
                    0
                },
        ),
{
    let client = server::given_or(q.client_id, ""@);
    let alias = server::given_or(q.alias, ""@);
    let command = server::given_or(q.command, ""@);
    let items = server::page_items(db::latest_first(q.hits(d)));
    request_laws::law_listing_shows_the_records(d.records, client, alias, command, items);
    let hits = q.hits(d);
    order::lemma_sorted_len(hits, hits.map_values(|r: RecordView| r.start_time), true);
    assert(items.len() == hits.len());
    sums::lemma_over_same(
        d.records,
        |r: RecordView|
            if request_laws::is_listed(r, client, alias, command) {
                1int
            } else {
                0
            },
        |r: RecordView|
            if request_laws::is_listed(
                r,
                match q.client_id {
                    Some(c) => c@,
                    None => ""@,
                },
                match q.alias {
                    Some(a) => a@,
                    None => ""@,
                },
                match q.command {
                    Some(c) => c@,
                    None => ""@,
                },
            ) {
                1int
            } else {
                0
            },
    );
}

// ---------------------------------------------------------------------------------------------
// The administration page
// ---------------------------------------------------------------------------------------------

/// The row of a session that runs, as of `now`.
pub open spec fn session_row(r: RecordView, now: int) -> Seq<char> {
    "<tr><td>"@ + text::dec(r.id as int) + "</td><td>"@ + r.client_id + "</td><td>"@ + shown(r.alias)
        + "</td><td class=\"code\">"@ + html::escaped(shown(r.command)) + "</td><td>"@ + (
    if r.process_id is Some {
        text::dec(r.process_id->0 as int)
    } else {
        "-"@
    }) + "</td><td>"@ + html::stamp_text(r.start_time as int) + "</td><td>"@ + text::dec(
        now - r.start_time,
    ) + "s</td>\n                <td><button class=\"btn btn-end\" onclick=\"endSession("@ + text::dec(
        r.id as int,
    )
        + ")\">End</button>\n                <button class=\"btn btn-discard\" onclick=\"discardSession("@
        + text::dec(r.id as int) + ")\">Discard</button></td></tr>"@
}

/// The administration page has a row for each stored session that runs.
pub proof fn law_admin_page_shows_the_running_sessions(d: DbView, now: int, i: int)
    requires
        0 <= i < d.records.len(),
        d.records[i].status == Status::Active,
    ensures
        holds(server::admin_html(d, now), session_row(d.records[i], now)),
{
    let list = server::orphans(d, now);
    request_laws::law_running_sessions_are_listed(d, now, list);
    let k = choose|k: int|
        0 <= k < list.len() && request_laws::tells_running(#[trigger] list[k], d.records[i], now);
    let sessions = db::latest_first(order::kept(d.records, db::wants_running(None)));
    let tokens = order::sorted(
        d.api_tokens,
        d.api_tokens.map_values(|t: TokenView| t.created_at),
        true,
    );
    assert(list[k] == server::orphan_of(sessions[k], now));
    page_laws::law_page_shows_each_running_session(sessions, tokens, now, k);
}

/// The administration page has a row for each stored token.
pub proof fn law_admin_page_shows_the_tokens(d: DbView, now: int, i: int)
    requires
        0 <= i < d.api_tokens.len(),
    ensures
        ({
            let t = d.api_tokens[i];
            holds(
                server::admin_html(d, now),
                "<tr><td class=\"token-preview\">"@ + html::preview(t.token) + "</td><td>"@ + shown(
                    t.description,
                ) + "</td><td>"@ + html::stamp_text(t.created_at as int)
                    + "</td>\n                <td><button class=\"btn btn-discard\" onclick=\"revokeToken('"@
                    + html::escaped(t.token) + "')\">Revoke</button></td></tr>"@,
            )
        }),
{
    let sessions = db::latest_first(order::kept(d.records, db::wants_running(None)));
    let keys = d.api_tokens.map_values(|t: TokenView| t.created_at);
    let tokens = order::sorted(d.api_tokens, keys, true);
    order::lemma_sorted_member(d.api_tokens, keys, true);
    assert(d.api_tokens.contains(d.api_tokens[i]));
    let k = choose|k: int| 0 <= k < tokens.len() && tokens[k] == d.api_tokens[i];
    page_laws::law_page_shows_each_token(sessions, tokens, now, k);
}

// ---------------------------------------------------------------------------------------------
// Addresses and names
// ---------------------------------------------------------------------------------------------

/// A server that listens on every address of the machine is reached at the local one, on the same
/// port; any other where it listens.
pub proof fn law_server_is_reached_on_its_port(port: Seq<char>, bind: Seq<char>)
    ensures
        server::access_address("0.0.0.0:"@ + port) == "127.0.0.1:"@ + port,
        server::access_address("[::]:"@ + port) == "[::1]:"@ + port,
        !text::starts_with(bind, "0.0.0.0:"@) && !text::starts_with(bind, "[::]:"@)
            ==> server::access_address(bind) == bind,
{
    reveal_strlit("0.0.0.0:");
    reveal_strlit("127.0.0.1");
    reveal_strlit("127.0.0.1:");
    reveal_strlit("[::]:");
    reveal_strlit("[::1]");
    reveal_strlit("[::1]:");
    let a = "0.0.0.0:"@ + port;
    let b = "[::]:"@ + port;
    assert(a.take(8) =~= "0.0.0.0:"@);
    assert(b.take(5) =~= "[::]:"@);
    assert(b[0] == '[');
    assert("127.0.0.1"@ + a.skip(7) =~= "127.0.0.1:"@ + port);
    assert("[::1]"@ + b.skip(4) =~= "[::1]:"@ + port);
    assert(!text::starts_with(b, "0.0.0.0:"@)) by {
        if text::starts_with(b, "0.0.0.0:"@) {
            assert(b.take(8)[0] == "0.0.0.0:"@[0]);
        }
    }
}

/// The address of the server is used without slashes at its end, however many there are.
pub proof fn law_slashes_at_the_end_are_dropped(s: Seq<char>)
    ensures
        api::without_tail(s.push('/'), '/') == api::without_tail(s, '/'),
        s.len() > 0 && s.last() != '/' ==> api::without_tail(s, '/') == s,
        api::without_tail(s, '/').len() > 0 ==> api::without_tail(s, '/').last() != '/',
        api::base_of(s) == api::without_tail(words::trim(s), '/'),
    decreases s.len(),
{
    assert(s.push('/').drop_last() =~= s);
    if s.len() > 0 && s.last() == '/' {
        law_slashes_at_the_end_are_dropped(s.drop_last());
    }
}

/// An address is one of HTTP where it starts with one of the two schemes.
pub proof fn law_http_addresses(rest: Seq<char>, s: Seq<char>)
    ensures
        api::is_http("http://"@ + rest),
        api::is_http("https://"@ + rest),
        s.len() < 7 || s[0] != 'h' ==> !api::is_http(s),
{
    reveal_strlit("http://");
    reveal_strlit("https://");
    assert(("http://"@ + rest).take(7) =~= "http://"@);
    assert(("https://"@ + rest).take(8) =~= "https://"@);
    if s.len() >= 8 {
        assert(s.take(8)[0] == s[0]);
    }
    if s.len() >= 7 {
        assert(s.take(7)[0] == s[0]);
    }
}

/// Files that hold a session are those with the extension `txt` behind a name.
pub proof fn law_record_files_have_their_extension(stem: Seq<char>, name: Seq<char>)
    ensures
        stem.len() > 0 ==> importer::is_record_file(stem + ".txt"@),
        importer::is_record_file(name) ==> name == name.take(name.len() - 4) + ".txt"@
            && name.take(name.len() - 4).len() > 0,
{
    reveal_strlit(".txt");
    let whole = stem + ".txt"@;
    assert(whole.skip(whole.len() - 4) =~= ".txt"@);
    if importer::is_record_file(name) {
        assert(name =~= name.take(name.len() - 4) + name.skip(name.len() - 4));
    }
}

// ---------------------------------------------------------------------------------------------
// After a refresh
// ---------------------------------------------------------------------------------------------

/// A refresh that goes well is told as what it was for, one that fails as an error with its reason;
/// what is loaded and chosen stays in either case.
pub proof fn law_refresh_is_told(a: AppView, after: AfterView, error: Seq<char>, now: u64)
    ensures
        ({
            let good = refresh::refreshed(a, after, None, now);
            let bad = refresh::refreshed(a, after, Some(error), now);
            &&& good.records == a.records && good.active == a.active && good.tokens == a.tokens
            &&& bad.records == a.records && bad.active == a.active && bad.tokens == a.tokens
            &&& good.client_index == a.client_index && bad.client_index == a.client_index
            &&& bad.notice is Some && bad.notice->0.is_error
            &&& !(after is Created) ==> good.overlay == a.overlay
            &&& after is Created ==> good.overlay == Some(OverlayView::TokenCreated(after->Created_0))
            &&& after is Acted ==> good.notice is Some && !good.notice->0.is_error
                && good.notice->0.text == after->Acted_0
            &&& after is Due || after is Refreshed || after is Shown || after is Paged
                ==> bad.notice->0.text == error
            &&& after is Due || after is Paged ==> good == a
            &&& after is Due ==> bad.last_refresh == now
        }),
{
}

/// The client that is shown first is the one that is named, and all of them where none is.
pub proof fn law_first_client_is_the_named_one(named: Seq<char>)
    ensures
        words::trim(named).len() > 0 ==> refresh::first_client(named) == named,
        words::trim(named).len() == 0 ==> refresh::first_client(named) == GLOBAL_CLIENT@,
{
}

} // verus!
