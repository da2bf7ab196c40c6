//! What keys, answers of the server and the picture of the terminal interface come to.

use crate::api;
use crate::api::{ApiClient, ApiFault, Method};
use crate::api_types::{ApiToken, OrphanedSession, RecordsPageResp};
use crate::app;
use crate::app::{
    ActionView, AfterView, AppView, JobView, Key, KeyCode, OverlayView, OverviewData, TokenField,
    GLOBAL_CLIENT,
};
use crate::calendar;
use crate::draw;
use crate::refresh;
use crate::refresh::{LoadView, Outcome, Reply};
use crate::selection;
use crate::stats;
use crate::tabs;
use crate::tabs::BreakdownKind;
use crate::text;
use crate::text_laws;
use crate::words;
use crate::zone;
use vstd::prelude::*;

verus! {

/// A key pressed alone.
pub open spec fn press(code: KeyCode) -> Key {
    Key { code, control: false, alt: false, pressed: true }
}

// ---------------------------------------------------------------------------------------------
// Actions
// ---------------------------------------------------------------------------------------------

/// Among the records, `d` asks about the selected record, and `y` then asks the server to delete that
/// record; `n` leaves everything as it was, with a line that says so.
pub proof fn law_selected_record_is_deleted(a: AppView, i: usize)
    requires
        a.view == tabs::View::Records,
        a.overlay is None,
        a.records_row == Some(i),
        i < a.records.len(),
    ensures
        ({
            let asked = app::key_step(a, press(KeyCode::Char('d')));
            let yes = app::key_step(asked.0, press(KeyCode::Char('y')));
            let no = app::key_step(asked.0, press(KeyCode::Char('n')));
            &&& asked.1 is None
            &&& asked.0.overlay == Some(
                OverlayView::Confirm(ActionView::DeleteRecord(a.records[i as int].id)),
            )
            &&& yes.1 == Some(JobView::Act(ActionView::DeleteRecord(a.records[i as int].id)))
            &&& yes.0.overlay is None
            &&& no.1 is None
            &&& no.0 == a.told("Action cancelled"@)
        }),
        app::key_step(a, press(KeyCode::Delete)) == app::key_step(a, press(KeyCode::Char('d'))),
{
    assert(AppView { overlay: None, ..a.covered(OverlayView::Help) } == a);
}

/// Among the running sessions, `e` asks about ending the selected one and `d` about discarding it; `y`
/// then asks the server to.
pub proof fn law_selected_session_is_ended_or_discarded(a: AppView, i: usize)
    requires
        a.view == tabs::View::Active,
        a.overlay is None,
        a.active_row == Some(i),
        i < a.active.len(),
    ensures
        ({
            let end = app::key_step(a, press(KeyCode::Char('e')));
            let discard = app::key_step(a, press(KeyCode::Char('d')));
            &&& end.1 is None && discard.1 is None
            &&& app::key_step(end.0, press(KeyCode::Char('y'))).1 == Some(
                JobView::Act(ActionView::EndSession(a.active[i as int].id)),
            )
            &&& app::key_step(discard.0, press(KeyCode::Char('y'))).1 == Some(
                JobView::Act(ActionView::DiscardSession(a.active[i as int].id)),
            )
            &&& app::key_step(end.0, press(KeyCode::Esc)).1 is None
        }),
{
}

/// Among the tokens, `d` or `x` asks about revoking the selected one, and `y` then asks the server to.
pub proof fn law_selected_token_is_revoked(a: AppView, i: usize)
    requires
        a.view == tabs::View::Tokens,
        a.overlay is None,
        a.tokens_row == Some(i),
        i < a.tokens.len(),
    ensures
        ({
            let asked = app::key_step(a, press(KeyCode::Char('d')));
            &&& asked.1 is None
            &&& asked == app::key_step(a, press(KeyCode::Char('x')))
            &&& app::key_step(asked.0, press(KeyCode::Enter)).1 == Some(
                JobView::Act(ActionView::RevokeToken(a.tokens[i as int].token@)),
            )
        }),
{
}

/// The question names what is about to happen and to what.
pub proof fn law_question_names_the_action(id: i64, token: Seq<char>)
    ensures
        app::question(ActionView::DeleteRecord(id)) == "Permanently delete record #"@ + text::dec(
            id as int,
        ) + "?"@,
        app::question(ActionView::EndSession(id)) == "End active session #"@ + text::dec(id as int)
            + " at the current time?"@,
        app::question(ActionView::DiscardSession(id)) == "Discard active session #"@ + text::dec(
            id as int,
        ) + "?"@,
        app::question(ActionView::RevokeToken(token)) == "Revoke API token "@ + selection::redacted(
            token,
        ) + "?"@,
        token.len() <= 14 ==> selection::redacted(token) == token,
        token.len() > 14 ==> selection::redacted(token)[10] == '…',
        token.len() > 14 ==> selection::redacted(token).len() == 15 && forall|i: int|
            0 <= i < 10 ==> #[trigger] selection::redacted(token)[i] == token[i],
        token.len() > 14 ==> forall|i: int|
            0 <= i < 4 ==> #[trigger] selection::redacted(token)[11 + i] == token[token.len() - 4
                + i],
{
}

/// Each action is asked of the server at its own address.
pub proof fn law_actions_have_their_addresses(c: ApiClient, path: Seq<char>)
    ensures
        path.len() > 0 && path[0] != '/' ==> c.address(path) == c.base_url@ + "/api/"@ + path,
        c.address(seq!['/'] + path) == c.address(path),
{
    assert((seq!['/'] + path).drop_first() =~= path);
}

/// The message on what became of an action tells what was done, or that the thing was not there any
/// more.
pub proof fn law_outcome_is_told(id: i64, seconds: i64, token: Seq<char>)
    ensures
        refresh::message(ActionView::DeleteRecord(id), Outcome::Done(0)) == "Record #"@ + text::dec(
            id as int,
        ) + " deleted"@,
        refresh::message(ActionView::DeleteRecord(id), Outcome::Gone) == "Record #"@ + text::dec(
            id as int,
        ) + " no longer exists"@,
        refresh::message(ActionView::EndSession(id), Outcome::Done(seconds)) == "Session #"@
            + text::dec(id as int) + (" ended ("@ + stats::duration_text(seconds as int) + ")"@),
        refresh::message(ActionView::EndSession(id), Outcome::Gone) == "Session #"@ + text::dec(
            id as int,
        ) + " is no longer active"@,
        refresh::message(ActionView::DiscardSession(id), Outcome::Done(0)) == "Session #"@
            + text::dec(id as int) + " discarded"@,
        refresh::message(ActionView::RevokeToken(token), Outcome::Done(0)) == "Token "@
            + selection::redacted(token) + " revoked"@,
        refresh::message(ActionView::DiscardSession(id), Outcome::Gone) == "Session #"@ + text::dec(
            id as int,
        ) + " is no longer active"@,
        refresh::message(ActionView::RevokeToken(token), Outcome::Gone)
            == "Token no longer exists"@,
{
}

/// What went wrong with a request is told with what it was for.
pub proof fn law_faults_are_told(action: Seq<char>, status: u16)
    ensures
        api::fault_text(action, ApiFault::Status(401)) == action
            + ": authentication failed (check --username and --password)"@,
        api::fault_text(action, ApiFault::Status(403)) == action
            + ": administrator access is required"@,
        status != 401 && status != 403 ==> api::fault_text(action, ApiFault::Status(status))
            == action + ": server returned HTTP "@ + text::dec(status as int),
        api::fault_text(action, ApiFault::Unreadable) == action
            + ": could not read server response"@,
        api::fault_text(action, ApiFault::InvalidJson) == action
            + ": server returned invalid JSON"@,
{
}

// ---------------------------------------------------------------------------------------------
// Moving around
// ---------------------------------------------------------------------------------------------

/// The number keys choose the views, `Tab` the next one; `q` quits, and Control-C quits whatever lies
/// over the view; a key that is let go does nothing.
pub proof fn law_keys_choose_views(a: AppView, key: Key)
    requires
        a.overlay is None,
    ensures
        app::key_step(a, press(KeyCode::Char('1'))).0.view == tabs::View::Overview,
        app::key_step(a, press(KeyCode::Char('2'))).0.view == tabs::View::Breakdown,
        app::key_step(a, press(KeyCode::Char('3'))).0.view == tabs::View::Records,
        app::key_step(a, press(KeyCode::Char('4'))).0.view == tabs::View::Active,
        app::key_step(a, press(KeyCode::Char('5'))).0.view == tabs::View::Tokens,
        a.view == tabs::View::Overview ==> app::key_step(a, press(KeyCode::Tab)).0.view
            == tabs::View::Breakdown,
        a.view == tabs::View::Breakdown ==> app::key_step(a, press(KeyCode::Tab)).0.view
            == tabs::View::Records,
        a.view == tabs::View::Records ==> app::key_step(a, press(KeyCode::Tab)).0.view
            == tabs::View::Active,
        a.view == tabs::View::Active ==> app::key_step(a, press(KeyCode::Tab)).0.view
            == tabs::View::Tokens,
        a.view == tabs::View::Tokens ==> app::key_step(a, press(KeyCode::Tab)).0.view
            == tabs::View::Overview,
        app::key_step(a, press(KeyCode::Char('q'))).0.should_quit,
        app::key_step(a, press(KeyCode::Char('?'))).0.overlay == Some(OverlayView::Help),
        app::key_step(a, press(KeyCode::Char('r'))) == (
            a,
            Some(JobView::Refresh(AfterView::Refreshed)),
        ),
        !key.pressed ==> app::key_step(a, key) == (a, None::<JobView>),
{
}

/// Control-C quits whatever lies over the view, and no other key does while something lies there.
pub proof fn law_only_control_c_quits_an_overlay(a: AppView, key: Key)
    requires
        a.overlay is Some,
        !a.should_quit,
    ensures
        app::key_step(a, key).0.should_quit <==> key.pressed && key.control && key.code
            == KeyCode::Char('c'),
{
}

/// Down and up move the selection by a row and around the ends, `g` and `G` to the first and the last
/// row; nothing is asked of the server.
pub proof fn law_selection_moves_by_rows(a: AppView, i: usize)
    requires
        a.view == tabs::View::Records,
        a.overlay is None,
        a.records_row == Some(i),
        i < a.records.len(),
        a.records.len() <= usize::MAX,
    ensures
        ({
            let n = a.records.len();
            let down = app::key_step(a, press(KeyCode::Down));
            let up = app::key_step(a, press(KeyCode::Up));
            let first = app::key_step(a, press(KeyCode::Char('g')));
            let last = app::key_step(a, press(KeyCode::Char('G')));
            &&& down.0.records_row is Some && down.0.records_row->0 == (if i + 1 < n {
                i + 1
            } else {
                0
            })
            &&& up.0.records_row is Some && up.0.records_row->0 == (if i > 0 {
                i - 1
            } else {
                n - 1
            })
            &&& first.0.records_row == Some(0usize)
            &&& last.0.records_row is Some && last.0.records_row->0 == n - 1
            &&& down.1 is None && up.1 is None && first.1 is None && last.1 is None
            &&& app::key_step(a, press(KeyCode::Char('j'))) == down
            &&& app::key_step(a, press(KeyCode::Char('k'))) == up
        }),
{
}

/// The right and left keys go to the next and the previous page as long as there is one, and the
/// records of that page are then asked for.
pub proof fn law_pages_turn_one_by_one(a: AppView)
    requires
        a.view == tabs::View::Records,
        a.overlay is None,
        a.wf(),
        a.records_page < i64::MAX,
    ensures
        ({
            let pages = selection::pages(a.records_total as int, a.page_size as int);
            let next = app::key_step(a, press(KeyCode::Right));
            let back = app::key_step(a, press(KeyCode::Left));
            &&& a.records_page < pages ==> next.0.records_page == a.records_page + 1 && next.1
                == Some(JobView::Refresh(AfterView::Paged))
            &&& a.records_page == pages ==> next == (a, None::<JobView>)
            &&& 1 < a.records_page <= pages ==> back.0.records_page == a.records_page - 1 && back.1
                == Some(JobView::Refresh(AfterView::Paged))
            &&& a.records_page == 1 ==> back == (a, None::<JobView>)
        }),
{
    if a.records_total > 0 {
        selection::law_pages_hold_all(a.records_total as int, a.page_size as int);
    }
}

/// `]` chooses the next client of the list and `[` the one before, around the ends; everything is then
/// loaded anew, from the first page on.
pub proof fn law_brackets_choose_the_client(a: AppView)
    requires
        a.wf(),
        a.overlay is None,
        1 < a.client_ids.len() <= usize::MAX,
    ensures
        ({
            let n = a.client_ids.len();
            let next = app::key_step(a, press(KeyCode::Char(']')));
            let back = app::key_step(a, press(KeyCode::Char('[')));
            &&& next.0.client_index == (if a.client_index + 1 < n {
                a.client_index + 1
            } else {
                0
            })
            &&& back.0.client_index == (if a.client_index > 0 {
                a.client_index - 1
            } else {
                n - 1
            })
            &&& next.0.records_page == 1
            &&& next.1 == Some(JobView::Refresh(AfterView::Shown))
            &&& back.1 == Some(JobView::Refresh(AfterView::Shown))
        }),
{
    let n = a.client_ids.len() as int;
    let i = a.client_index as int;
    assert((i + 1) % n == (if i + 1 < n {
        i + 1
    } else {
        0
    })) by (nonlinear_arith)
        requires
            0 <= i < n,
            n > 1,
    ;
    assert((i + (n - 1)) % n == (if i > 0 {
        i - 1
    } else {
        n - 1
    })) by (nonlinear_arith)
        requires
            0 <= i < n,
            n > 1,
    ;
}

// ---------------------------------------------------------------------------------------------
// The form for a token
// ---------------------------------------------------------------------------------------------

/// A character that is typed stands at the end of the field, the backspace key takes it away again,
/// and Control-U empties the field.
pub proof fn law_fields_are_typed_into(s: Seq<char>, c: char)
    ensures
        app::edited(s, press(KeyCode::Char(c))) == s.push(c),
        app::edited(s.push(c), press(KeyCode::Backspace)) == s,
        app::edited(s, (Key { control: true, ..press(KeyCode::Char('u')) })) == Seq::<char>::empty(),
{
    assert(s.push(c).drop_last() =~= s);
}

/// `n` among the tokens opens the form; `Enter` on the client goes on to the description, and `Enter`
/// there asks the server for a token of that client with that description, white space at the ends
/// left out and an empty description as none.
pub proof fn law_form_makes_a_token(
    a: AppView,
    client_id: Seq<char>,
    description: Seq<char>,
)
    requires
        words::trim(client_id).len() > 0,
    ensures
        ({
            let form = a.covered(
                OverlayView::TokenForm { field: TokenField::ClientId, client_id, description },
            );
            let on = app::key_step(form, press(KeyCode::Enter));
            let sent = app::key_step(on.0, press(KeyCode::Enter));
            &&& on.1 is None
            &&& on.0.overlay == Some(
                OverlayView::TokenForm { field: TokenField::Description, client_id, description },
            )
            &&& sent.0.overlay is None
            &&& sent.1 == Some(
                JobView::Create {
                    client_id: words::trim(client_id),
                    description: if words::trim(description).len() == 0 {
                        None
                    } else {
                        Some(words::trim(description))
                    },
                },
            )
            &&& app::key_step(form, press(KeyCode::Esc)).1 is None
            &&& app::key_step(form, press(KeyCode::Esc)).0.overlay is None
        }),
        a.view == tabs::View::Tokens && a.overlay is None ==> {
            let opened = app::key_step(a, press(KeyCode::Char('n'))).0.overlay;
            opened is Some && opened->0 is TokenForm && opened->0->client_id == (if a.client()
                == GLOBAL_CLIENT@ {
                "default"@
            } else {
                a.client()
            })
        },
{
}

// ---------------------------------------------------------------------------------------------
// Loading
// ---------------------------------------------------------------------------------------------

/// Of the tokens that the server tells, those of the chosen client are shown, all of them and no
/// others.
pub proof fn law_tokens_of_the_client(tokens: Seq<ApiToken>, client_id: Seq<char>, n: int)
    requires
        0 <= n <= tokens.len(),
    ensures
        forall|i: int|
            0 <= i < refresh::tokens_of(tokens, client_id, n).len() ==> (
            #[trigger] refresh::tokens_of(tokens, client_id, n)[i]).client_id@ == client_id,
        forall|k: int|
            0 <= k < n && (#[trigger] tokens[k]).client_id@ == client_id ==> refresh::tokens_of(
                tokens,
                client_id,
                n,
            ).contains(tokens[k]),
    decreases n,
{
    if n > 0 {
        law_tokens_of_the_client(tokens, client_id, n - 1);
        let before = refresh::tokens_of(tokens, client_id, n - 1);
        let after = refresh::tokens_of(tokens, client_id, n);
        assert forall|k: int|
            0 <= k < n && (#[trigger] tokens[k]).client_id@ == client_id implies after.contains(
            tokens[k],
        ) by {
            if k < n - 1 {
                assert(before.contains(tokens[k]));
                let j = choose|j: int| 0 <= j < before.len() && before[j] == tokens[k];
                assert(after[j] == tokens[k]);
            } else {
                assert(after[before.len() as int] == tokens[k]);
            }
        }
    }
}

/// A refresh asks for the clients, the tokens, the statistics, the records of the page, the running
/// sessions and the tokens, and then shows what came: the statistics and the records as they are, of
/// the sessions and tokens those of the chosen client. The chosen client and the page stay.
pub proof fn law_refresh_shows_what_came(
    a: AppView,
    clients: Vec<String>,
    owners: Vec<ApiToken>,
    overview: OverviewData,
    page: RecordsPageResp,
    active: Vec<OrphanedSession>,
    tokens: Vec<ApiToken>,
    now: u64,
)
    requires
        a.wf(),
        a.records_page <= selection::pages(page.total as int, a.page_size as int),
        refresh::choices(text::texts(clients@), refresh::token_clients(owners@), a.client()).len()
            <= usize::MAX,
    ensures
        ({
            let s1 = refresh::load_step(a, LoadView::Clients, Reply::Clients(clients), now);
            let s2 = refresh::load_step(s1.0, s1.1, Reply::Tokens(owners), now);
            let s3 = refresh::load_step(s2.0, s2.1, Reply::Overview(overview), now);
            let s4 = refresh::load_step(s3.0, s3.1, Reply::Records(page), now);
            let s5 = refresh::load_step(s4.0, s4.1, Reply::Active(active), now);
            let s6 = refresh::load_step(s5.0, s5.1, Reply::Tokens(tokens), now);
            &&& s6.1 == LoadView::Done
            &&& s6.0.client() == a.client()
            &&& s6.0.overview == Some(overview)
            &&& s6.0.records == page.records@
            &&& s6.0.records_total == page.total
            &&& s6.0.records_page == a.records_page
            &&& s6.0.last_refresh == now
            &&& s6.0.view == a.view
            &&& a.client() == GLOBAL_CLIENT@ ==> s6.0.active == active@ && s6.0.tokens == tokens@
            &&& a.client() != GLOBAL_CLIENT@ ==> s6.0.active == refresh::sessions_of(
                active@,
                a.client(),
                active@.len() as int,
            ) && s6.0.tokens == refresh::tokens_of(tokens@, a.client(), tokens@.len() as int)
            &&& refresh::requests(s2.0, s2.1) == s2.0.api.overview_calls(a.client(), a.timezone@)
        }),
{
    refresh::law_choice_kept(
        a,
        None,
        text::texts(clients@),
        refresh::token_clients(owners@),
    );
}

/// The statistics are asked for the chosen client: the summary and the streaks in the time zone, the
/// breakdown by command by the first word.
pub proof fn law_statistics_are_asked_for_the_client(
    c: ApiClient,
    client_id: Seq<char>,
    zone: Seq<char>,
)
    ensures
        ({
            let calls = c.overview_calls(client_id, zone);
            &&& calls.len() == 6
            &&& forall|i: int|
                0 <= i < 6 ==> (#[trigger] calls[i]).method == Method::Get && calls[i].query[0] == (
                    "client_id"@,
                    client_id,
                )
            &&& calls[0].url == c.address("stats"@) && calls[0].query[1] == ("tz"@, zone)
            &&& calls[1].url == c.address("stats/streaks"@) && calls[1].query[1] == ("tz"@, zone)
            &&& calls[2].url == c.address("stats/session-distribution"@)
            &&& calls[3].url == c.address("stats/by-client"@)
            &&& calls[4].url == c.address("stats/by-alias"@)
            &&& calls[5].url == c.address("stats/by-command"@) && calls[5].query[1] == (
                "depth"@,
                "1"@,
            )
        }),
{
}

/// Each step of a refresh asks the server for what it needs: the records of the client, by page and
/// size of the page.
pub proof fn law_refresh_asks_for_what_it_needs(
    a: AppView,
    client_id: Seq<char>,
    overview: OverviewData,
    page: RecordsPageResp,
    active: Seq<OrphanedSession>,
)
    ensures
        ({
            let calls = refresh::requests(a, (LoadView::Records { client_id, overview }));
            &&& calls.len() == 1
            &&& calls[0].method == Method::Get
            &&& calls[0].url == a.api.address("records"@)
            &&& calls[0].query == seq![
                ("client_id"@, client_id),
                ("page"@, text::dec(a.records_page as int)),
                ("per_page"@, text::dec(a.page_size as int)),
            ]
            &&& refresh::requests(a, (LoadView::LastRecords { client_id, overview })) == calls
        }),
        refresh::requests(a, LoadView::Clients).len() == 1,
        refresh::requests(a, LoadView::Clients)[0].url == a.api.address("clients"@),
        refresh::requests(a, (LoadView::Active { client_id, overview, page }))[0].url
            == a.api.address("sessions/orphaned"@),
        refresh::requests(a, (LoadView::Tokens { client_id, overview, page, active }))[0].url
            == a.api.address("admin/tokens"@),
        refresh::requests(a, LoadView::Done).len() == 0,
{
}

/// Where the page that is asked for lies behind the last one, the last one is asked for instead.
pub proof fn law_page_behind_the_last_is_not_shown(
    a: AppView,
    client_id: Seq<char>,
    overview: OverviewData,
    page: RecordsPageResp,
    now: u64,
)
    requires
        a.wf(),
        0 <= page.total,
        a.records_page > selection::pages(page.total as int, a.page_size as int),
    ensures
        ({
            let load = LoadView::Records { client_id, overview };
            let next = refresh::load_step(a, load, Reply::Records(page), now);
            &&& next.1 == (LoadView::LastRecords { client_id, overview })
            &&& next.0.records_page == selection::pages(page.total as int, a.page_size as int)
            &&& next.0.records_page >= 1
            &&& next.0.records == a.records
        }),
{
    if page.total > 0 {
        selection::law_pages_hold_all(page.total as int, a.page_size as int);
    }
}

// ---------------------------------------------------------------------------------------------
// The picture
// ---------------------------------------------------------------------------------------------

/// On a terminal of at least 60 by 16 the chosen view is shown, with the question or form that lies
/// over it; a smaller one is told so.
pub proof fn law_picture_shows_the_view(a: AppView, width: u16, height: u16, now: int)
    ensures
        draw::picture(a, width, height, now) is Small <==> width < 60 || height < 16,
        width >= 60 && height >= 16 ==> {
            let p = draw::picture(a, width, height, now);
            &&& a.view == tabs::View::Overview ==> p->body == draw::overview_view(a, now)
            &&& a.view == tabs::View::Breakdown ==> p->body == draw::breakdown_view(a, now)
            &&& a.view == tabs::View::Records ==> p->body == draw::records_view(a, now)
            &&& a.view == tabs::View::Active ==> p->body == draw::active_view(a, now)
            &&& a.view == tabs::View::Tokens ==> p->body == draw::tokens_view(a, now)
            &&& p->popup is Some <==> a.overlay is Some
            &&& a.overlay is Some ==> p->popup == Some(draw::overlay_view(a.overlay->0))
            &&& a.notice is Some ==> p->notice.text == a.notice->0.text
            &&& a.notice is Some ==> (p->notice.color == draw::Color::Red
                <==> a.notice->0.is_error)
        },
{
}

/// The list of records has a row for each of them: its number, its start in the time zone, its client,
/// its duration in words, its alias, its command and its status; the selected row is marked.
pub proof fn law_records_are_shown(a: AppView, now: int, k: int)
    requires
        0 <= k < a.records.len(),
    ensures
        ({
            let body = draw::records_view(a, now);
            let r = a.records[k];
            &&& body is List
            &&& body->List_selected == a.records_row
            &&& body->List_sheet.rows.len() == a.records.len()
            &&& body->List_sheet.rows[k] == seq![
                text::dec(r.id as int),
                selection::shown_time(r.start_time as int, a.timezone@),
                r.client_id@,
                stats::duration_text(
                    match r.duration_seconds {
                        Some(d) => d as int,
                        None => 0,
                    },
                ),
                draw::or_empty(r.alias),
                draw::or_empty(r.command),
                r.status@,
            ]
        }),
{
}

/// The list of running sessions has a row for each of them, with the time since its start.
pub proof fn law_running_sessions_are_shown(a: AppView, now: i64, k: int)
    requires
        0 <= k < a.active.len(),
        0 <= a.active[k].start_time,
        0 <= now,
    ensures
        ({
            let body = draw::active_view(a, now as int);
            let o = a.active[k];
            &&& body is List
            &&& body->List_selected == a.active_row
            &&& body->List_sheet.rows.len() == a.active.len()
            &&& body->List_sheet.rows[k] == seq![
                text::dec(o.id as int),
                selection::shown_time(o.start_time as int, a.timezone@),
                o.client_id@,
                stats::duration_text(now - o.start_time),
                draw::or_empty(o.alias),
                draw::or_empty(o.command),
            ]
        }),
{
}

/// The list of tokens has a row for each of them.
pub proof fn law_tokens_are_shown(a: AppView, now: int, k: int)
    requires
        0 <= k < a.tokens.len(),
    ensures
        ({
            let body = draw::tokens_view(a, now);
            let t = a.tokens[k];
            &&& body is List
            &&& body->List_selected == a.tokens_row
            &&& body->List_sheet.rows.len() == a.tokens.len()
            &&& body->List_sheet.rows[k] == seq![
                t.token@,
                t.client_id@,
                draw::or_empty(t.description),
                selection::shown_time(t.created_at as int, a.timezone@),
            ]
        }),
{
}

/// The overview shows the tracked time, the number of sessions, the active days with their share and
/// the present streak; a row for each period, and the first twelve commands.
pub proof fn law_overview_shows_the_figures(a: AppView, now: int, k: int)
    requires
        a.overview is Some,
    ensures
        ({
            let data = a.overview->0;
            let body = draw::overview_view(a, now);
            &&& body is Figures
            &&& body->cards.len() == 4
            &&& body->cards[0].value == data.stats.total.total_seconds_hr@
            &&& body->cards[1].value == text::dec(data.stats.total.total_times as int)
            &&& body->cards[2].value == text::dec(data.stats.total.active_days as int) + " ("@
                + data.stats.total.total_day_ratio@ + "%)"@
            &&& body->cards[3].value == text::dec(data.streaks.current_streak as int) + " days"@
            &&& body->recent.rows.len() == data.stats.past_n@.len()
            &&& 0 <= k < data.stats.past_n@.len() ==> body->recent.rows[k] == seq![
                data.stats.past_n@[k].name@,
                stats::duration_text(data.stats.past_n@[k].seconds as int),
                text::dec(data.stats.past_n@[k].times as int),
                data.stats.past_n@[k].day_ratio@ + "%"@,
            ]
            &&& 0 <= k < 12 && k < data.by_command@.len() ==> body->commands.rows[k] == seq![
                data.by_command@[k].command@,
                data.by_command@[k].total_seconds_hr@,
                text::dec(data.by_command@[k].total_times as int),
            ]
            &&& body->commands.rows.len() == (if data.by_command@.len() < 12 {
                data.by_command@.len() as int
            } else {
                12
            })
        }),
{
}

/// The breakdown shows the lines of the chosen category from the place to which it is scrolled.
pub proof fn law_breakdown_shows_its_lines(a: AppView, now: int, k: int)
    requires
        a.overview is Some,
        0 <= k,
    ensures
        ({
            let data = a.overview->0;
            let body = draw::breakdown_view(a, now);
            let at = a.breakdown_offset + k;
            &&& body is Tabbed
            &&& body->strip.selected == (match a.breakdown_kind {
                BreakdownKind::Clients => 0int,
                BreakdownKind::Aliases => 1,
                BreakdownKind::Commands => 2,
                BreakdownKind::Distribution => 3,
            })
            &&& a.breakdown_kind == BreakdownKind::Clients && at < data.by_client@.len()
                ==> body->Tabbed_sheet.rows[k] == seq![
                data.by_client@[at].client_id@,
                data.by_client@[at].total_seconds_hr@,
                text::dec(data.by_client@[at].total_times as int),
                data.by_client@[at].mean_seconds_hr@,
            ]
            &&& a.breakdown_kind == BreakdownKind::Aliases && at < data.by_alias@.len()
                ==> body->Tabbed_sheet.rows[k] == seq![
                data.by_alias@[at].alias@,
                data.by_alias@[at].total_seconds_hr@,
                text::dec(data.by_alias@[at].total_times as int),
                data.by_alias@[at].mean_seconds_hr@,
            ]
            &&& a.breakdown_kind == BreakdownKind::Commands && at < data.by_command@.len()
                ==> body->Tabbed_sheet.rows[k] == seq![
                data.by_command@[at].command@,
                data.by_command@[at].total_seconds_hr@,
                text::dec(data.by_command@[at].total_times as int),
                data.by_command@[at].mean_seconds_hr@,
            ]
            &&& a.breakdown_kind == BreakdownKind::Distribution && at
                < data.distribution.buckets@.len() ==> body->Tabbed_sheet.rows[k] == seq![
                data.distribution.buckets@[at].label@,
                text::dec(data.distribution.buckets@[at].count as int),
                data.distribution.buckets@[at].pct@ + "%"@,
            ]
        }),
{
}

/// The strip at the top names the server, the client and the zone, numbers the views from 1 on and
/// marks the chosen one.
pub proof fn law_strip_names_the_views(a: AppView)
    ensures
        ({
            let h = draw::header_view(a);
            &&& h.title == " TSPAN Admin · "@ + a.api.base_url@ + " · "@ + (if a.client()
                == GLOBAL_CLIENT@ {
                "all clients"@
            } else {
                a.client()
            }) + " · "@ + a.timezone@ + " "@
            &&& h.tabs.len() == 5
            &&& h.tabs[0] == " "@ + text::dec(1) + " "@ + "Overview"@ + " "@
            &&& h.tabs[1] == " "@ + text::dec(2) + " "@ + "Breakdown"@ + " "@
            &&& h.tabs[2] == " "@ + text::dec(3) + " "@ + "Records"@ + " "@
            &&& h.tabs[3] == " "@ + text::dec(4) + " "@ + "Active"@ + " "@
            &&& h.tabs[4] == " "@ + text::dec(5) + " "@ + "Tokens"@ + " "@
            &&& h.selected == (match a.view {
                tabs::View::Overview => 0int,
                tabs::View::Breakdown => 1,
                tabs::View::Records => 2,
                tabs::View::Active => 3,
                tabs::View::Tokens => 4,
            })
        }),
{
}

/// A question shows the action that it asks about; the form shows what was typed, with a mark behind
/// the field that is typed into; a new token is shown whole.
pub proof fn law_popups_show_their_content(
    action: ActionView,
    field: TokenField,
    client_id: Seq<char>,
    description: Seq<char>,
    token: Seq<char>,
)
    ensures
        draw::overlay_view(OverlayView::Confirm(action)).lines[1][0].text == app::question(action),
        draw::overlay_view(OverlayView::Confirm(action)).border == draw::Color::Red,
        draw::overlay_view(OverlayView::TokenCreated(token)).lines[3][0].text == token,
        ({
            let form = draw::overlay_view(
                OverlayView::TokenForm { field, client_id, description },
            );
            &&& form.lines[1][1].text == client_id
            &&& form.lines[3][1].text == description
            &&& form.lines[1][2].text == (if field == TokenField::ClientId {
                "█"@
            } else {
                ""@
            })
            &&& form.lines[3][2].text == (if field == TokenField::Description {
                "█"@
            } else {
                ""@
            })
        }),
{
}

/// The line below the figures tells since when there are records, the mean, the median and the last
/// activity; the list of records tells its page, the number of pages and of records.
pub proof fn law_titles_tell_the_figures(a: AppView, now: int)
    requires
        a.overview is Some,
    ensures
        ({
            let data = a.overview->0;
            draw::overview_view(a, now)->detail == " Since "@ + data.stats.total.from_date@
                + "  ·  Mean "@ + data.stats.total.mean_usage_hr@ + "  ·  Median "@
                + data.distribution.median_seconds_hr@ + "  ·  Last active "@
                + data.streaks.last_active_time_hr@ + " "@
        }),
        draw::records_view(a, now)->List_sheet.title == " Records · page "@ + text::dec(
            a.records_page as int,
        ) + "/"@ + text::dec(selection::pages(a.records_total as int, a.page_size as int)) + " · "@
            + text::dec(a.records_total as int) + " total "@,
        draw::active_view(a, now)->List_sheet.title == " Active sessions · "@ + text::dec(
            a.active.len() as int,
        ) + " "@,
        draw::tokens_view(a, now)->List_sheet.title == " API tokens · "@ + text::dec(
            a.tokens.len() as int,
        ) + " "@,
        draw::records_view(a, now)->List_sheet.header.len() == 7,
        draw::active_view(a, now)->List_sheet.header.len() == 6,
        draw::tokens_view(a, now)->List_sheet.header.len() == 4,
{
}

/// A time in a list is its date, the hour and the minute on the wall clock of the zone.
pub proof fn law_times_are_those_of_the_zone(
    zone_name: Seq<char>,
    y: int,
    m: int,
    d: int,
    hour: int,
    minute: int,
    second: int,
    ts: int,
)
    requires
        calendar::representable(ts),
        calendar::is_date(y, m, d),
        0 <= y <= 9999,
        0 <= hour < 24,
        0 <= minute < 60,
        0 <= second < 60,
        zone::local_time(zone_name, ts) == (calendar::day_number(y, m, d) - calendar::EPOCH_DAY)
            * 86400 + hour * 3600 + minute * 60 + second,
    ensures
        selection::shown_time(ts, zone_name) == text::padded(y as nat, 4) + seq!['-'] + text::padded(
            m as nat,
            2,
        ) + seq!['-'] + text::padded(d as nat, 2) + seq![' '] + (text::padded(hour as nat, 2)
            + seq![':'] + text::padded(minute as nat, 2)),
{
    text_laws::law_wall_clock_text(zone_name, y, m, d, hour, minute, second, ts);
    let date = calendar::date_text(calendar::day_of(zone::local_time(zone_name, ts)));
    assert(date.push(' ') =~= date + seq![' ']);
}

} // verus!
