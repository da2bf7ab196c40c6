//! The state of the terminal interface: what it holds, what a key does to it and what it asks of
//! the server.

use crate::api;
use crate::api::ApiClient;
use crate::api_types::{
    AliasStat, ApiToken, ClientStat, CommandStat, OrphanedSession, RecordPageItem,
    SessionDistribution, Stats, StreakStats,
};
use crate::selection;
use crate::selection::{
    redact_token, select_first, select_last, select_next, select_previous, total_pages, TableState,
};
use crate::stats;
use crate::tabs;
use crate::tabs::BreakdownKind;
use crate::text;
use crate::text::{chars_of, int_text, same_text, string_of};
use crate::words;
use crate::words::trimmed;
use crate::zone::Tz;
use vstd::prelude::*;

verus! {

/// The name that stands for all clients.
pub const GLOBAL_CLIENT: &'static str = "__global__";

/// Milliseconds between two refreshes that nobody asked for.
pub const AUTO_REFRESH_INTERVAL: u64 = 10_000;

/// How the terminal interface is started.
#[derive(Debug)]
pub struct TuiOptions {
    pub server_url: String,
    pub username: String,
    pub password: String,
    pub initial_client_id: String,
    pub timezone: String,
    pub page_size: u16,
    pub verbose_log: Option<String>,
}

/// The file that requests are logged to: the named one, or the usual one where logging is asked
/// for without a name.
pub fn resolve_verbose_log(verbose: bool, path: Option<String>) -> (r: Option<String>)
    ensures
        text::opt_text(r) == match text::opt_text(path) {
            Some(p) => Some(p),
            None => if verbose {
                Some("tspan-tui-api.log"@)
            } else {
                None
            },
        },
{
    match path {
        Some(p) => Some(p),
        None => {
            if verbose {
                Some("tspan-tui-api.log".to_owned())
            } else {
                None
            }
        },
    }
}

/// The statistics that are shown.
#[derive(Debug)]
pub struct OverviewData {
    pub stats: Stats,
    pub streaks: StreakStats,
    pub distribution: SessionDistribution,
    pub by_client: Vec<ClientStat>,
    pub by_alias: Vec<AliasStat>,
    pub by_command: Vec<CommandStat>,
}

/// Something that an administrator does.
#[derive(Debug)]
pub enum AdminAction {
    DeleteRecord(i64),
    EndSession(i64),
    DiscardSession(i64),
    RevokeToken(String),
}

/// The view of something that an administrator does.
#[verifier::ext_equal]
pub enum ActionView {
    DeleteRecord(i64),
    EndSession(i64),
    DiscardSession(i64),
    RevokeToken(Seq<char>),
}

impl View for AdminAction {
    type V = ActionView;

    open spec fn view(&self) -> ActionView {
        match *self {
            AdminAction::DeleteRecord(id) => ActionView::DeleteRecord(id),
            AdminAction::EndSession(id) => ActionView::EndSession(id),
            AdminAction::DiscardSession(id) => ActionView::DiscardSession(id),
            AdminAction::RevokeToken(token) => ActionView::RevokeToken(token@),
        }
    }
}

/// The question before an action.
pub open spec fn question(action: ActionView) -> Seq<char> {
    match action {
        ActionView::DeleteRecord(id) => "Permanently delete record #"@ + text::dec(id as int)
            + "?"@,
        ActionView::EndSession(id) => "End active session #"@ + text::dec(id as int)
            + " at the current time?"@,
        ActionView::DiscardSession(id) => "Discard active session #"@ + text::dec(id as int)
            + "?"@,
        ActionView::RevokeToken(token) => "Revoke API token "@ + selection::redacted(token)
            + "?"@,
    }
}

/// A text between two others.
fn between(head: &str, middle: &str, tail: &str) -> (r: String)
    ensures
        r@ == head@ + middle@ + tail@,
{
    let mut r = head.to_owned();
    r.append(middle);
    r.append(tail);
    r
}

impl AdminAction {
    /// The question before the action.
    pub fn prompt(&self) -> (r: String)
        ensures
            r@ == question(self@),
    {
        match self {
            AdminAction::DeleteRecord(id) => between(
                "Permanently delete record #",
                int_text(*id).as_str(),
                "?",
            ),
            AdminAction::EndSession(id) => between(
                "End active session #",
                int_text(*id).as_str(),
                " at the current time?",
            ),
            AdminAction::DiscardSession(id) => between(
                "Discard active session #",
                int_text(*id).as_str(),
                "?",
            ),
            AdminAction::RevokeToken(token) => between(
                "Revoke API token ",
                redact_token(token.as_str()).as_str(),
                "?",
            ),
        }
    }
}

/// A field of the form for a token.
#[derive(Debug, Clone, Copy, PartialEq, Eq, Structural)]
pub enum TokenField {
    ClientId,
    Description,
}

/// What lies over the view.
#[derive(Debug)]
pub enum Overlay {
    Help,
    Confirm(AdminAction),
    TokenForm { field: TokenField, client_id: String, description: String },
    TokenCreated(String),
}

/// The view of what lies over the view.
#[verifier::ext_equal]
pub enum OverlayView {
    Help,
    Confirm(ActionView),
    TokenForm { field: TokenField, client_id: Seq<char>, description: Seq<char> },
    TokenCreated(Seq<char>),
}

impl View for Overlay {
    type V = OverlayView;

    open spec fn view(&self) -> OverlayView {
        match *self {
            Overlay::Help => OverlayView::Help,
            Overlay::Confirm(action) => OverlayView::Confirm(action@),
            Overlay::TokenForm { field, client_id, description } => OverlayView::TokenForm {
                field,
                client_id: client_id@,
                description: description@,
            },
            Overlay::TokenCreated(token) => OverlayView::TokenCreated(token@),
        }
    }
}

/// A line for the user.
#[derive(Debug)]
pub struct Notice {
    pub text: String,
    pub is_error: bool,
}

/// The view of a line for the user.
#[verifier::ext_equal]
pub struct NoticeView {
    pub text: Seq<char>,
    pub is_error: bool,
}

impl View for Notice {
    type V = NoticeView;

    open spec fn view(&self) -> NoticeView {
        NoticeView { text: self.text@, is_error: self.is_error }
    }
}

/// A key.
#[derive(Debug, Clone, Copy, PartialEq, Eq, Structural)]
pub enum KeyCode {
    Char(char),
    Tab,
    BackTab,
    Left,
    Right,
    Up,
    Down,
    Home,
    End,
    PageUp,
    PageDown,
    Delete,
    Backspace,
    Enter,
    Esc,
    Other,
}

/// A key with what was held down beside it, and whether it went down.
#[derive(Debug, Clone, Copy, PartialEq, Eq, Structural)]
pub struct Key {
    pub code: KeyCode,
    pub control: bool,
    pub alt: bool,
    pub pressed: bool,
}

/// What follows a refresh.
#[derive(Debug)]
pub enum After {
    /// The user asked for it.
    Refreshed,
    /// Another client was chosen.
    Shown,
    /// Another page was chosen.
    Paged,
    /// The time had come.
    Due,
    /// An action was done, with the message on it.
    Acted(String),
    /// A token was made.
    Created(String),
}

/// The view of what follows a refresh.
#[verifier::ext_equal]
pub enum AfterView {
    Refreshed,
    Shown,
    Paged,
    Due,
    Acted(Seq<char>),
    Created(Seq<char>),
}

impl View for After {
    type V = AfterView;

    open spec fn view(&self) -> AfterView {
        match *self {
            After::Refreshed => AfterView::Refreshed,
            After::Shown => AfterView::Shown,
            After::Paged => AfterView::Paged,
            After::Due => AfterView::Due,
            After::Acted(message) => AfterView::Acted(message@),
            After::Created(token) => AfterView::Created(token@),
        }
    }
}

/// What the interface asks of the server.
#[derive(Debug)]
pub enum Job {
    /// To load everything anew.
    Refresh(After),
    /// To do an action.
    Act(AdminAction),
    /// To make a token.
    Create { client_id: String, description: Option<String> },
}

/// The view of what the interface asks of the server.
#[verifier::ext_equal]
pub enum JobView {
    Refresh(AfterView),
    Act(ActionView),
    Create { client_id: Seq<char>, description: Option<Seq<char>> },
}

impl View for Job {
    type V = JobView;

    open spec fn view(&self) -> JobView {
        match *self {
            Job::Refresh(after) => JobView::Refresh(after@),
            Job::Act(action) => JobView::Act(action@),
            Job::Create { client_id, description } => JobView::Create {
                client_id: client_id@,
                description: text::opt_text(description),
            },
        }
    }
}

/// The view of an optional job.
pub open spec fn opt_job(job: Option<Job>) -> Option<JobView> {
    match job {
        Some(j) => Some(j@),
        None => None,
    }
}

/// The terminal interface.
#[derive(Debug)]
pub struct App {
    pub api: ApiClient,
    pub timezone: Tz,
    pub view: tabs::View,
    pub breakdown_kind: BreakdownKind,
    pub breakdown_offset: usize,
    pub client_ids: Vec<String>,
    pub client_index: usize,
    pub overview: Option<OverviewData>,
    pub records: Vec<RecordPageItem>,
    pub records_total: i64,
    pub records_page: i64,
    pub page_size: i64,
    pub records_state: TableState,
    pub active: Vec<OrphanedSession>,
    pub active_state: TableState,
    pub tokens: Vec<ApiToken>,
    pub tokens_state: TableState,
    pub overlay: Option<Overlay>,
    pub notice: Option<Notice>,
    pub should_quit: bool,
    /// When everything was loaded, in milliseconds of a clock that never goes back.
    pub last_refresh: u64,
}

/// The view of the terminal interface.
#[verifier::ext_equal]
pub struct AppView {
    pub api: ApiClient,
    pub timezone: Tz,
    pub view: tabs::View,
    pub breakdown_kind: BreakdownKind,
    pub breakdown_offset: usize,
    pub client_ids: Seq<Seq<char>>,
    pub client_index: usize,
    pub overview: Option<OverviewData>,
    pub records: Seq<RecordPageItem>,
    pub records_total: i64,
    pub records_page: i64,
    pub page_size: i64,
    pub records_row: Option<usize>,
    pub active: Seq<OrphanedSession>,
    pub active_row: Option<usize>,
    pub tokens: Seq<ApiToken>,
    pub tokens_row: Option<usize>,
    pub overlay: Option<OverlayView>,
    pub notice: Option<NoticeView>,
    pub should_quit: bool,
    pub last_refresh: u64,
}

impl View for App {
    type V = AppView;

    open spec fn view(&self) -> AppView {
        AppView {
            api: self.api,
            timezone: self.timezone,
            view: self.view,
            breakdown_kind: self.breakdown_kind,
            breakdown_offset: self.breakdown_offset,
            client_ids: text::texts(self.client_ids@),
            client_index: self.client_index,
            overview: self.overview,
            records: self.records@,
            records_total: self.records_total,
            records_page: self.records_page,
            page_size: self.page_size,
            records_row: self.records_state.row,
            active: self.active@,
            active_row: self.active_state.row,
            tokens: self.tokens@,
            tokens_row: self.tokens_state.row,
            overlay: match self.overlay {
                Some(o) => Some(o@),
                None => None,
            },
            notice: match self.notice {
                Some(n) => Some(n@),
                None => None,
            },
            should_quit: self.should_quit,
            last_refresh: self.last_refresh,
        }
    }
}

impl AppView {
    /// The chosen client is one of the list, which starts with all clients; pages have room and
    /// are counted from one.
    pub open spec fn wf(self) -> bool {
        &&& self.client_index < self.client_ids.len()
        &&& self.client_ids[0] == GLOBAL_CLIENT@
        &&& self.page_size > 0
        &&& self.records_page >= 1
    }

    /// The chosen client.
    pub open spec fn client(self) -> Seq<char> {
        if self.client_index < self.client_ids.len() {
            self.client_ids[self.client_index as int]
        } else {
            GLOBAL_CLIENT@
        }
    }

    /// The chosen client, in words.
    pub open spec fn client_label(self) -> Seq<char> {
        if self.client() == GLOBAL_CLIENT@ {
            "all clients"@
        } else {
            self.client()
        }
    }

    /// With a line for the user.
    pub open spec fn told(self, text: Seq<char>) -> AppView {
        AppView { notice: Some(NoticeView { text, is_error: false }), ..self }
    }

    /// With a line on an error.
    pub open spec fn warned(self, text: Seq<char>) -> AppView {
        AppView { notice: Some(NoticeView { text, is_error: true }), ..self }
    }

    /// With something over the view.
    pub open spec fn covered(self, overlay: OverlayView) -> AppView {
        AppView { overlay: Some(overlay), ..self }
    }

    /// How many lines the breakdown has.
    pub open spec fn lines(self) -> int {
        match self.overview {
            Some(data) => match self.breakdown_kind {
                BreakdownKind::Clients => data.by_client@.len() as int,
                BreakdownKind::Aliases => data.by_alias@.len() as int,
                BreakdownKind::Commands => data.by_command@.len() as int,
                BreakdownKind::Distribution => data.distribution.buckets@.len() as int,
            },
            None => 0,
        }
    }
}

// ---------------------------------------------------------------------------------------------
// Keys
// ---------------------------------------------------------------------------------------------

/// The page that is `delta` pages on, kept within the pages there are.
pub open spec fn page_at(page: int, delta: int, pages: int) -> int {
    if page + delta < 1 {
        1
    } else if page + delta > pages {
        pages
    } else {
        page + delta
    }
}

/// Another page of records is chosen.
pub open spec fn paged(a: AppView, delta: int) -> (AppView, Option<JobView>) {
    let next = page_at(
        a.records_page as int,
        delta,
        selection::pages(a.records_total as int, a.page_size as int),
    );
    if next == a.records_page {
        (a, None)
    } else {
        (
            AppView { records_page: next as i64, records_row: None, ..a },
            Some(JobView::Refresh(AfterView::Paged)),
        )
    }
}

/// Another client is chosen: the next or the one before, in a circle.
pub open spec fn cycled(a: AppView, forward: bool) -> (AppView, Option<JobView>) {
    let n = a.client_ids.len() as int;
    if n <= 1 {
        (a, None)
    } else {
        let step = if forward {
            1
        } else {
            n - 1
        };
        (
            AppView {
                client_index: ((a.client_index + step) % n) as usize,
                records_page: 1,
                breakdown_offset: 0,
                ..a
            },
            Some(JobView::Refresh(AfterView::Shown)),
        )
    }
}

/// What a key does in the breakdown.
pub open spec fn breakdown_step(a: AppView, code: KeyCode) -> AppView {
    if code == KeyCode::Left || code == KeyCode::Char('h') {
        AppView { breakdown_kind: a.breakdown_kind.prior(), breakdown_offset: 0, ..a }
    } else if code == KeyCode::Right || code == KeyCode::Char('l') {
        AppView { breakdown_kind: a.breakdown_kind.after(), breakdown_offset: 0, ..a }
    } else if code == KeyCode::Down || code == KeyCode::Char('j') {
        AppView {
            breakdown_offset: if a.breakdown_offset + 1 < a.lines() {
                (a.breakdown_offset + 1) as usize
            } else if a.lines() > 0 {
                (a.lines() - 1) as usize
            } else {
                0
            },
            ..a
        }
    } else if code == KeyCode::Up || code == KeyCode::Char('k') {
        AppView {
            breakdown_offset: if a.breakdown_offset > 0 {
                (a.breakdown_offset - 1) as usize
            } else {
                0
            },
            ..a
        }
    } else if code == KeyCode::Home || code == KeyCode::Char('g') {
        AppView { breakdown_offset: 0, ..a }
    } else {
        a
    }
}

/// Where a key moves the selection of a table; `None` where it does not move it.
pub open spec fn moved(row: Option<usize>, len: usize, code: KeyCode) -> Option<Option<usize>> {
    if code == KeyCode::Down || code == KeyCode::Char('j') {
        Some(selection::row_after(row, len))
    } else if code == KeyCode::Up || code == KeyCode::Char('k') {
        Some(selection::row_before(row, len))
    } else if code == KeyCode::Home || code == KeyCode::Char('g') {
        Some(selection::first_row(len))
    } else if code == KeyCode::End || code == KeyCode::Char('G') {
        Some(selection::last_row(len))
    } else {
        None
    }
}

/// Moves the selection of a table where the key does.
fn move_selection(state: &mut TableState, len: usize, code: KeyCode) -> (r: bool)
    ensures
        match moved(old(state).row, len, code) {
            Some(row) => r && final(state).row == row,
            None => !r && *final(state) == *old(state),
        },
{
    if code == KeyCode::Down || code == KeyCode::Char('j') {
        select_next(state, len);
    } else if code == KeyCode::Up || code == KeyCode::Char('k') {
        select_previous(state, len);
    } else if code == KeyCode::Home || code == KeyCode::Char('g') {
        select_first(state, len);
    } else if code == KeyCode::End || code == KeyCode::Char('G') {
        select_last(state, len);
    } else {
        return false;
    }
    true
}

/// What a key does among the records.
pub open spec fn records_step(a: AppView, code: KeyCode) -> (AppView, Option<JobView>) {
    match moved(a.records_row, a.records.len() as usize, code) {
        Some(row) => (AppView { records_row: row, ..a }, None),
        None => if code == KeyCode::Right || code == KeyCode::PageDown || code == KeyCode::Char(
            'n',
        ) {
            paged(a, 1)
        } else if code == KeyCode::Left || code == KeyCode::PageUp || code == KeyCode::Char('p') {
            paged(a, -1)
        } else if (code == KeyCode::Char('d') || code == KeyCode::Delete) && a.records_row is Some
            && a.records_row->0 < a.records.len() {
            (
                a.covered(
                    OverlayView::Confirm(
                        ActionView::DeleteRecord(a.records[a.records_row->0 as int].id),
                    ),
                ),
                None,
            )
        } else {
            (a, None)
        },
    }
}

/// What a key does among the running sessions.
pub open spec fn active_step(a: AppView, code: KeyCode) -> AppView {
    match moved(a.active_row, a.active.len() as usize, code) {
        Some(row) => AppView { active_row: row, ..a },
        None => if a.active_row is Some && a.active_row->0 < a.active.len() {
            let id = a.active[a.active_row->0 as int].id;
            if code == KeyCode::Char('e') {
                a.covered(OverlayView::Confirm(ActionView::EndSession(id)))
            } else if code == KeyCode::Char('d') || code == KeyCode::Delete {
                a.covered(OverlayView::Confirm(ActionView::DiscardSession(id)))
            } else {
                a
            }
        } else {
            a
        },
    }
}

/// What a key does among the tokens.
pub open spec fn tokens_step(a: AppView, code: KeyCode) -> AppView {
    match moved(a.tokens_row, a.tokens.len() as usize, code) {
        Some(row) => AppView { tokens_row: row, ..a },
        None => if code == KeyCode::Char('n') {
            a.covered(
                OverlayView::TokenForm {
                    field: TokenField::ClientId,
                    client_id: if a.client() == GLOBAL_CLIENT@ {
                        "default"@
                    } else {
                        a.client()
                    },
                    description: Seq::empty(),
                },
            )
        } else if (code == KeyCode::Char('d') || code == KeyCode::Char('x') || code
            == KeyCode::Delete) && a.tokens_row is Some && a.tokens_row->0 < a.tokens.len() {
            a.covered(
                OverlayView::Confirm(
                    ActionView::RevokeToken(a.tokens[a.tokens_row->0 as int].token@),
                ),
            )
        } else {
            a
        },
    }
}

/// What a key does that means something in the shown view only.
pub open spec fn view_step(a: AppView, code: KeyCode) -> (AppView, Option<JobView>) {
    match a.view {
        tabs::View::Overview => (a, None),
        tabs::View::Breakdown => (breakdown_step(a, code), None),
        tabs::View::Records => records_step(a, code),
        tabs::View::Active => (active_step(a, code), None),
        tabs::View::Tokens => (tokens_step(a, code), None),
    }
}

/// The other field of the form.
pub open spec fn other_field(field: TokenField) -> TokenField {
    match field {
        TokenField::ClientId => TokenField::Description,
        TokenField::Description => TokenField::ClientId,
    }
}

/// The form is sent off: a client has to be named; white space at the ends does not count, and an
/// empty description is none.
pub open spec fn submitted(a: AppView, client_id: Seq<char>, description: Seq<char>) -> (
    AppView,
    Option<JobView>,
) {
    if words::trim(client_id).len() == 0 {
        (
            a.warned("Client ID cannot be empty"@).covered(
                OverlayView::TokenForm {
                    field: TokenField::ClientId,
                    client_id: Seq::empty(),
                    description,
                },
            ),
            None,
        )
    } else {
        (
            a,
            Some(
                JobView::Create {
                    client_id: words::trim(client_id),
                    description: if words::trim(description).len() == 0 {
                        None
                    } else {
                        Some(words::trim(description))
                    },
                },
            ),
        )
    }
}

/// What a key makes of the text in a field.
pub open spec fn edited(s: Seq<char>, key: Key) -> Seq<char> {
    match key.code {
        KeyCode::Backspace => if s.len() > 0 {
            s.drop_last()
        } else {
            s
        },
        KeyCode::Char(c) => if c == 'u' && key.control {
            Seq::empty()
        } else if !key.control && !key.alt {
            s.push(c)
        } else {
            s
        },
        _ => s,
    }
}

/// What a key makes of the text in a field.
fn edit(s: String, key: Key) -> (r: String)
    ensures
        r@ == edited(s@, key),
{
    match key.code {
        KeyCode::Backspace => {
            let v = chars_of(s.as_str());
            let n: usize = v.len();
            if n > 0 {
                let r = string_of(&v, 0, n - 1);
                assert(r@ =~= s@.drop_last());
                r
            } else {
                s
            }
        },
        KeyCode::Char(c) => {
            if c == 'u' && key.control {
                String::new()
            } else if !key.control && !key.alt {
                let mut r = s;
                r.push(c);
                r
            } else {
                s
            }
        },
        _ => s,
    }
}

/// What a key does while something lies over the view; `bare` is the interface without it.
pub open spec fn overlay_step(bare: AppView, overlay: OverlayView, key: Key) -> (
    AppView,
    Option<JobView>,
) {
    let code = key.code;
    match overlay {
        OverlayView::Help => if code == KeyCode::Esc || code == KeyCode::Char('?') || code
            == KeyCode::Enter {
            (bare, None)
        } else {
            (bare.covered(overlay), None)
        },
        OverlayView::Confirm(action) => if code == KeyCode::Char('y') || code == KeyCode::Enter {
            (bare, Some(JobView::Act(action)))
        } else if code == KeyCode::Esc || code == KeyCode::Char('n') {
            (bare.told("Action cancelled"@), None)
        } else {
            (bare.covered(overlay), None)
        },
        OverlayView::TokenCreated(token) => if code == KeyCode::Esc || code == KeyCode::Enter {
            (bare, None)
        } else {
            (bare.covered(overlay), None)
        },
        OverlayView::TokenForm { field, client_id, description } => if code == KeyCode::Esc {
            (bare.told("Token generation cancelled"@), None)
        } else if code == KeyCode::Tab || code == KeyCode::BackTab {
            (
                bare.covered(
                    OverlayView::TokenForm { field: other_field(field), client_id, description },
                ),
                None,
            )
        } else if code == KeyCode::Enter {
            if field == TokenField::ClientId {
                (
                    bare.covered(
                        OverlayView::TokenForm {
                            field: TokenField::Description,
                            client_id,
                            description,
                        },
                    ),
                    None,
                )
            } else {
                submitted(bare, client_id, description)
            }
        } else {
            (
                bare.covered(
                    OverlayView::TokenForm {
                        field,
                        client_id: if field == TokenField::ClientId {
                            edited(client_id, key)
                        } else {
                            client_id
                        },
                        description: if field == TokenField::Description {
                            edited(description, key)
                        } else {
                            description
                        },
                    },
                ),
                None,
            )
        },
    }
}

/// What a key does.
pub open spec fn key_step(a: AppView, key: Key) -> (AppView, Option<JobView>) {
    let code = key.code;
    if !key.pressed {
        (a, None)
    } else if key.control && code == KeyCode::Char('c') {
        (AppView { should_quit: true, ..a }, None)
    } else if a.overlay is Some {
        overlay_step(AppView { overlay: None, ..a }, a.overlay->0, key)
    } else if code == KeyCode::Char('q') {
        (AppView { should_quit: true, ..a }, None)
    } else if code == KeyCode::Char('?') {
        (a.covered(OverlayView::Help), None)
    } else if code == KeyCode::Tab {
        (AppView { view: a.view.after(), ..a }, None)
    } else if code == KeyCode::BackTab {
        (AppView { view: a.view.prior(), ..a }, None)
    } else if code == KeyCode::Char('1') {
        (AppView { view: tabs::View::Overview, ..a }, None)
    } else if code == KeyCode::Char('2') {
        (AppView { view: tabs::View::Breakdown, ..a }, None)
    } else if code == KeyCode::Char('3') {
        (AppView { view: tabs::View::Records, ..a }, None)
    } else if code == KeyCode::Char('4') {
        (AppView { view: tabs::View::Active, ..a }, None)
    } else if code == KeyCode::Char('5') {
        (AppView { view: tabs::View::Tokens, ..a }, None)
    } else if code == KeyCode::Char('r') {
        (a, Some(JobView::Refresh(AfterView::Refreshed)))
    } else if code == KeyCode::Char(']') {
        cycled(a, true)
    } else if code == KeyCode::Char('[') {
        cycled(a, false)
    } else {
        view_step(a, code)
    }
}

impl App {
    /// The chosen client.
    pub fn current_client(&self) -> (r: &str)
        ensures
            r@ == self@.client(),
    {
        if self.client_index < self.client_ids.len() {
            self.client_ids[self.client_index].as_str()
        } else {
            GLOBAL_CLIENT
        }
    }

    /// The chosen client, in words.
    pub fn current_client_label(&self) -> (r: &str)
        ensures
            r@ == self@.client_label(),
    {
        if same_text(self.current_client(), GLOBAL_CLIENT) {
            "all clients"
        } else {
            self.current_client()
        }
    }

    /// Leaves a line for the user.
    pub fn set_notice(&mut self, text: String)
        ensures
            final(self)@ == old(self)@.told(text@),
    {
        self.notice = Some(Notice { text, is_error: false });
    }

    /// Leaves a line on an error.
    pub fn set_error(&mut self, text: String)
        ensures
            final(self)@ == old(self)@.warned(text@),
    {
        self.notice = Some(Notice { text, is_error: true });
    }

    /// Takes a key.
    pub fn handle_key(&mut self, key: Key) -> (r: Option<Job>)
        requires
            old(self)@.wf(),
        ensures
            (final(self)@, opt_job(r)) == key_step(old(self)@, key),
            final(self)@.wf(),
    {
        let code = key.code;
        if !key.pressed {
            return None;
        }
        if key.control && code == KeyCode::Char('c') {
            self.should_quit = true;
            return None;
        }
        if self.overlay.is_some() {
            return self.handle_overlay_key(key);
        }
        if code == KeyCode::Char('q') {
            self.should_quit = true;
        } else if code == KeyCode::Char('?') {
            self.overlay = Some(Overlay::Help);
        } else if code == KeyCode::Tab {
            self.view = self.view.next();
        } else if code == KeyCode::BackTab {
            self.view = self.view.previous();
        } else if code == KeyCode::Char('1') {
            self.view = tabs::View::Overview;
        } else if code == KeyCode::Char('2') {
            self.view = tabs::View::Breakdown;
        } else if code == KeyCode::Char('3') {
            self.view = tabs::View::Records;
        } else if code == KeyCode::Char('4') {
            self.view = tabs::View::Active;
        } else if code == KeyCode::Char('5') {
            self.view = tabs::View::Tokens;
        } else if code == KeyCode::Char('r') {
            return Some(Job::Refresh(After::Refreshed));
        } else if code == KeyCode::Char(']') {
            return self.cycle_client(true);
        } else if code == KeyCode::Char('[') {
            return self.cycle_client(false);
        } else {
            return self.handle_view_key(code);
        }
        None
    }

    /// Chooses another client.
    pub fn cycle_client(&mut self, forward: bool) -> (r: Option<Job>)
        requires
            old(self)@.wf(),
        ensures
            (final(self)@, opt_job(r)) == cycled(old(self)@, forward),
            final(self)@.wf(),
    {
        let n: usize = self.client_ids.len();
        if n <= 1 {
            return None;
        }
        let at: usize = self.client_index;
        if forward {
            self.client_index = if at + 1 < n {
                at + 1
            } else {
                0
            };
        } else {
            self.client_index = if at > 0 {
                at - 1
            } else {
                n - 1
            };
        }
        proof {
            lemma_circle(at as int, n as int);
        }
        self.records_page = 1;
        self.breakdown_offset = 0;
        Some(Job::Refresh(After::Shown))
    }

    /// Chooses another page of records.
    pub fn change_record_page(&mut self, delta: i64) -> (r: Option<Job>)
        requires
            old(self)@.wf(),
        ensures
            (final(self)@, opt_job(r)) == paged(old(self)@, delta as int),
            final(self)@.wf(),
    {
        let pages = total_pages(self.records_total, self.page_size);
        let wanted: i128 = self.records_page as i128 + delta as i128;
        let next: i64 = if wanted < 1 {
            1
        } else if wanted > pages as i128 {
            pages
        } else {
            wanted as i64
        };
        if next == self.records_page {
            return None;
        }
        self.records_page = next;
        self.records_state.select(None);
        Some(Job::Refresh(After::Paged))
    }

    /// How many lines the breakdown has.
    pub fn breakdown_len(&self) -> (r: usize)
        ensures
            r == self@.lines(),
    {
        match &self.overview {
            Some(data) => match self.breakdown_kind {
                BreakdownKind::Clients => data.by_client.len(),
                BreakdownKind::Aliases => data.by_alias.len(),
                BreakdownKind::Commands => data.by_command.len(),
                BreakdownKind::Distribution => data.distribution.buckets.len(),
            },
            None => 0,
        }
    }

    /// The selected record.
    pub fn selected_record(&self) -> (r: Option<&RecordPageItem>)
        ensures
            match r {
                Some(record) => self@.records_row is Some && self@.records_row->0
                    < self@.records.len() && *record == self@.records[self@.records_row->0 as int],
                None => self@.records_row is None || self@.records_row->0 >= self@.records.len(),
            },
    {
        match self.records_state.selected() {
            Some(index) => if index < self.records.len() {
                Some(&self.records[index])
            } else {
                None
            },
            None => None,
        }
    }

    /// The selected running session.
    pub fn selected_active(&self) -> (r: Option<&OrphanedSession>)
        ensures
            match r {
                Some(session) => self@.active_row is Some && self@.active_row->0
                    < self@.active.len() && *session == self@.active[self@.active_row->0 as int],
                None => self@.active_row is None || self@.active_row->0 >= self@.active.len(),
            },
    {
        match self.active_state.selected() {
            Some(index) => if index < self.active.len() {
                Some(&self.active[index])
            } else {
                None
            },
            None => None,
        }
    }

    /// The selected token.
    pub fn selected_token(&self) -> (r: Option<&ApiToken>)
        ensures
            match r {
                Some(token) => self@.tokens_row is Some && self@.tokens_row->0
                    < self@.tokens.len() && *token == self@.tokens[self@.tokens_row->0 as int],
                None => self@.tokens_row is None || self@.tokens_row->0 >= self@.tokens.len(),
            },
    {
        match self.tokens_state.selected() {
            Some(index) => if index < self.tokens.len() {
                Some(&self.tokens[index])
            } else {
                None
            },
            None => None,
        }
    }

    /// Takes a key that means something in the shown view only.
    pub fn handle_view_key(&mut self, code: KeyCode) -> (r: Option<Job>)
        requires
            old(self)@.wf(),
        ensures
            (final(self)@, opt_job(r)) == view_step(old(self)@, code),
            final(self)@.wf(),
    {
        match self.view {
            tabs::View::Overview => None,
            tabs::View::Breakdown => {
                self.handle_breakdown_key(code);
                None
            },
            tabs::View::Records => {
                let n: usize = self.records.len();
                if move_selection(&mut self.records_state, n, code) {
                    return None;
                }
                if code == KeyCode::Right || code == KeyCode::PageDown || code == KeyCode::Char(
                    'n',
                ) {
                    return self.change_record_page(1);
                }
                if code == KeyCode::Left || code == KeyCode::PageUp || code == KeyCode::Char('p') {
                    return self.change_record_page(-1);
                }
                if code == KeyCode::Char('d') || code == KeyCode::Delete {
                    let id = match self.selected_record() {
                        Some(record) => Some(record.id),
                        None => None,
                    };
                    if let Some(id) = id {
                        self.overlay = Some(Overlay::Confirm(AdminAction::DeleteRecord(id)));
                    }
                }
                None
            },
            tabs::View::Active => {
                let n: usize = self.active.len();
                if move_selection(&mut self.active_state, n, code) {
                    return None;
                }
                let id = match self.selected_active() {
                    Some(session) => Some(session.id),
                    None => None,
                };
                if let Some(id) = id {
                    if code == KeyCode::Char('e') {
                        self.overlay = Some(Overlay::Confirm(AdminAction::EndSession(id)));
                    } else if code == KeyCode::Char('d') || code == KeyCode::Delete {
                        self.overlay = Some(Overlay::Confirm(AdminAction::DiscardSession(id)));
                    }
                }
                None
            },
            tabs::View::Tokens => {
                let n: usize = self.tokens.len();
                if move_selection(&mut self.tokens_state, n, code) {
                    return None;
                }
                if code == KeyCode::Char('n') {
                    let client_id = if same_text(self.current_client(), GLOBAL_CLIENT) {
                        "default".to_owned()
                    } else {
                        self.current_client().to_owned()
                    };
                    self.overlay = Some(
                        Overlay::TokenForm {
                            field: TokenField::ClientId,
                            client_id,
                            description: String::new(),
                        },
                    );
                } else if code == KeyCode::Char('d') || code == KeyCode::Char('x') || code
                    == KeyCode::Delete {
                    let token = match self.selected_token() {
                        Some(token) => Some(token.token.clone()),
                        None => None,
                    };
                    if let Some(token) = token {
                        self.overlay = Some(Overlay::Confirm(AdminAction::RevokeToken(token)));
                    }
                }
                None
            },
        }
    }

    /// Takes a key in the breakdown.
    fn handle_breakdown_key(&mut self, code: KeyCode)
        ensures
            final(self)@ == breakdown_step(old(self)@, code),
    {
        if code == KeyCode::Left || code == KeyCode::Char('h') {
            self.breakdown_kind = self.breakdown_kind.previous();
            self.breakdown_offset = 0;
        } else if code == KeyCode::Right || code == KeyCode::Char('l') {
            self.breakdown_kind = self.breakdown_kind.next();
            self.breakdown_offset = 0;
        } else if code == KeyCode::Down || code == KeyCode::Char('j') {
            let lines: usize = self.breakdown_len();
            let at: usize = self.breakdown_offset;
            self.breakdown_offset = if lines == 0 {
                0
            } else if at < lines - 1 {
                at + 1
            } else {
                lines - 1
            };
        } else if code == KeyCode::Up || code == KeyCode::Char('k') {
            let at: usize = self.breakdown_offset;
            self.breakdown_offset = if at > 0 {
                at - 1
            } else {
                0
            };
        } else if code == KeyCode::Home || code == KeyCode::Char('g') {
            self.breakdown_offset = 0;
        }
    }

    /// Takes a key for what lies over the view; where nothing does, nothing happens.
    pub fn handle_overlay_key(&mut self, key: Key) -> (r: Option<Job>)
        requires
            old(self)@.wf(),
        ensures
            (final(self)@, opt_job(r)) == match old(self)@.overlay {
                Some(overlay) => overlay_step(
                    (AppView { overlay: None, ..old(self)@ }),
                    overlay,
                    key,
                ),
                None => (old(self)@, None),
            },
            final(self)@.wf(),
    {
        let code = key.code;
        let overlay = match self.overlay.take() {
            Some(overlay) => overlay,
            None => {
                return None;
            },
        };
        match overlay {
            Overlay::Help => {
                if !(code == KeyCode::Esc || code == KeyCode::Char('?') || code
                    == KeyCode::Enter) {
                    self.overlay = Some(Overlay::Help);
                }
                None
            },
            Overlay::Confirm(action) => {
                if code == KeyCode::Char('y') || code == KeyCode::Enter {
                    return Some(Job::Act(action));
                }
                if code == KeyCode::Esc || code == KeyCode::Char('n') {
                    self.set_notice("Action cancelled".to_owned());
                } else {
                    self.overlay = Some(Overlay::Confirm(action));
                }
                None
            },
            Overlay::TokenCreated(token) => {
                if !(code == KeyCode::Esc || code == KeyCode::Enter) {
                    self.overlay = Some(Overlay::TokenCreated(token));
                }
                None
            },
            Overlay::TokenForm { field, client_id, description } => {
                if code == KeyCode::Esc {
                    self.set_notice("Token generation cancelled".to_owned());
                    return None;
                }
                if code == KeyCode::Enter && field == TokenField::Description {
                    return self.create_token(client_id, description);
                }
                let form = if code == KeyCode::Tab || code == KeyCode::BackTab {
                    let field = match field {
                        TokenField::ClientId => TokenField::Description,
                        TokenField::Description => TokenField::ClientId,
                    };
                    Overlay::TokenForm { field, client_id, description }
                } else if code == KeyCode::Enter {
                    Overlay::TokenForm { field: TokenField::Description, client_id, description }
                } else {
                    match field {
                        TokenField::ClientId => Overlay::TokenForm {
                            field,
                            client_id: edit(client_id, key),
                            description,
                        },
                        TokenField::Description => Overlay::TokenForm {
                            field,
                            client_id,
                            description: edit(description, key),
                        },
                    }
                };
                self.overlay = Some(form);
                None
            },
        }
    }

    /// Sends the form off.
    pub fn create_token(&mut self, client_id: String, description: String) -> (r: Option<Job>)
        ensures
            (final(self)@, opt_job(r)) == submitted(old(self)@, client_id@, description@),
    {
        let client = trimmed(client_id.as_str());
        if client.as_str().is_empty() {
            self.set_error("Client ID cannot be empty".to_owned());
            let empty = String::new();
            assert(empty@ =~= Seq::<char>::empty());
            self.overlay = Some(
                Overlay::TokenForm { field: TokenField::ClientId, client_id: empty, description },
            );
            return None;
        }
        let about = trimmed(description.as_str());
        let description = if about.as_str().is_empty() {
            None
        } else {
            Some(about)
        };
        Some(Job::Create { client_id: client, description })
    }
}

// ---------------------------------------------------------------------------------------------
// Laws
// ---------------------------------------------------------------------------------------------

/// Nothing is deleted, ended, discarded or revoked without a confirmation: an action is asked of
/// the server only from the question about that action.
pub proof fn law_actions_are_confirmed(a: AppView, key: Key, action: ActionView)
    requires
        key_step(a, key).1 == Some(JobView::Act(action)),
    ensures
        a.overlay == Some(OverlayView::Confirm(action)),
        key.code == KeyCode::Char('y') || key.code == KeyCode::Enter,
{
}

/// A token is made only from the form, and never without a client.
pub proof fn law_tokens_need_a_client(
    a: AppView,
    key: Key,
    client_id: Seq<char>,
    description: Option<Seq<char>>,
)
    requires
        key_step(a, key).1 == Some(JobView::Create { client_id, description }),
    ensures
        a.overlay is Some && a.overlay->0 is TokenForm,
        client_id.len() > 0,
        description is Some ==> description->0.len() > 0,
{
}

/// Choosing the next client and then the one before, or the other way round, leads back.
pub proof fn law_clients_cycle(a: AppView)
    requires
        a.wf(),
        a.client_ids.len() <= usize::MAX,
    ensures
        cycled(cycled(a, true).0, false).0.client_index == a.client_index,
        cycled(cycled(a, false).0, true).0.client_index == a.client_index,
{
    let n = a.client_ids.len() as int;
    let at = a.client_index as int;
    if n > 1 {
        lemma_circle(at, n);
        lemma_circle((at + 1) % n, n);
        lemma_circle((at + n - 1) % n, n);
    }
}

proof fn lemma_circle(at: int, n: int)
    requires
        0 <= at < n,
        n > 1,
    ensures
        (at + 1) % n == (if at + 1 < n {
            at + 1
        } else {
            0
        }),
        (at + (n - 1)) % n == (if at > 0 {
            at - 1
        } else {
            n - 1
        }),
{
    if at + 1 < n {
        vstd::arithmetic::div_mod::lemma_small_mod((at + 1) as nat, n as nat);
    } else {
        vstd::arithmetic::div_mod::lemma_mod_self_0(n);
    }
    if at > 0 {
        vstd::arithmetic::div_mod::lemma_mod_add_multiples_vanish(at - 1, n);
        vstd::arithmetic::div_mod::lemma_small_mod((at - 1) as nat, n as nat);
    } else {
        vstd::arithmetic::div_mod::lemma_small_mod((n - 1) as nat, n as nat);
    }
}

} // verus!
