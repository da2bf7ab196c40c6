//! How the terminal interface is started, loaded from the server and told how a request went.

use crate::api;
use crate::api::{ApiCall, ApiClient};
use crate::api_types::{
    human_readable_time, ApiToken, OrphanedSession, RecordsPageResp,
};
use crate::app;
use crate::app::{
    AdminAction, After, App, AppView, Job, Overlay, OverviewData, TuiOptions,
    AUTO_REFRESH_INTERVAL, GLOBAL_CLIENT,
};
use crate::auth;
use crate::selection;
use crate::selection::{redact_token, select_clamped, total_pages, TableState};
use crate::stats;
use crate::tabs;
use crate::tabs::BreakdownKind;
use crate::text;
use crate::text::{int_text, is_before, same_text};
use crate::words;
use crate::words::trimmed;
use crate::zone;
use crate::zone::find_tz;
use vstd::prelude::*;

verus! {

// ---------------------------------------------------------------------------------------------
// The list of clients
// ---------------------------------------------------------------------------------------------

/// An ascending list with one more name; a name that it holds is not entered again.
pub open spec fn entered(list: Seq<Seq<char>>, name: Seq<char>) -> Seq<Seq<char>>
    decreases list.len(),
{
    if list.len() == 0 || text::before(list.last(), name) {
        list.push(name)
    } else if list.last() == name {
        list
    } else {
        entered(list.drop_last(), name).push(list.last())
    }
}

/// A list with the first `n` of further names.
pub open spec fn all_entered(list: Seq<Seq<char>>, names: Seq<Seq<char>>, n: int) -> Seq<Seq<char>>
    decreases n,
{
    if n <= 0 {
        list
    } else {
        entered(all_entered(list, names, n - 1), names[n - 1])
    }
}

/// The clients that tokens stand for.
pub open spec fn token_clients(tokens: Seq<ApiToken>) -> Seq<Seq<char>> {
    tokens.map_values(|t: ApiToken| t.client_id@)
}

/// The clients to choose from: all clients, then those of the server and of the tokens and the
/// chosen one, each once and in ascending order.
pub open spec fn choices(
    clients: Seq<Seq<char>>,
    owners: Seq<Seq<char>>,
    chosen: Seq<char>,
) -> Seq<Seq<char>> {
    let known = all_entered(
        all_entered(Seq::empty(), clients, clients.len() as int),
        owners,
        owners.len() as int,
    );
    seq![GLOBAL_CLIENT@] + if chosen == GLOBAL_CLIENT@ {
        known
    } else {
        entered(known, chosen)
    }
}

/// The first place of a name from `at` on; zero where there is none.
pub open spec fn place_in(list: Seq<Seq<char>>, name: Seq<char>, at: int) -> int
    decreases list.len() - at,
{
    if at < 0 || at >= list.len() {
        0
    } else if list[at] == name {
        at
    } else {
        place_in(list, name, at + 1)
    }
}

/// The interface with the clients to choose from; the preferred one is chosen, or else the one
/// that was.
pub open spec fn with_clients(
    a: AppView,
    preferred: Option<Seq<char>>,
    clients: Seq<Seq<char>>,
    owners: Seq<Seq<char>>,
) -> AppView {
    let chosen = match preferred {
        Some(p) => p,
        None => a.client(),
    };
    let list = choices(clients, owners, chosen);
    AppView { client_ids: list, client_index: place_in(list, chosen, 0) as usize, ..a }
}

/// Whether a list is strictly ascending.
pub open spec fn ascending(list: Seq<Seq<char>>) -> bool {
    forall|i: int, j: int|
        0 <= i < j < list.len() ==> text::before(#[trigger] list[i], #[trigger] list[j])
}

/// Entering keeps a list ascending and adds the one name.
proof fn lemma_entered(list: Seq<Seq<char>>, name: Seq<char>)
    requires
        ascending(list),
    ensures
        ascending(entered(list, name)),
        forall|x: Seq<char>| #[trigger]
            entered(list, name).contains(x) <==> list.contains(x) || x == name,
        entered(list, name).len() <= list.len() + 1,
    decreases list.len(),
{
    let r = entered(list, name);
    if list.len() == 0 {
        assert(r =~= seq![name]);
        assert forall|x: Seq<char>| #[trigger] r.contains(x) <==> list.contains(x) || x == name by {
            if x == name {
                assert(r[0] == x);
            }
        }
    } else if text::before(list.last(), name) {
        assert forall|i: int, j: int| 0 <= i < j < r.len() implies text::before(
            #[trigger] r[i],
            #[trigger] r[j],
        ) by {
            if j == list.len() && i < list.len() - 1 {
                assert(text::before(list[i], list.last()));
                text::lemma_before_transitive(list[i], list.last(), name);
            }
        }
        assert forall|x: Seq<char>| #[trigger] r.contains(x) <==> list.contains(x) || x == name by {
            if list.contains(x) {
                let k = choose|k: int| 0 <= k < list.len() && list[k] == x;
                assert(r[k] == x);
            }
            if x == name {
                assert(r[list.len() as int] == x);
            }
        }
    } else if list.last() == name {
        assert(list.contains(name));
    } else {
        let short = list.drop_last();
        let rest = entered(short, name);
        assert(ascending(short));
        lemma_entered(short, name);
        text::lemma_before_total(list.last(), name);
        assert forall|i: int, j: int| 0 <= i < j < r.len() implies text::before(
            #[trigger] r[i],
            #[trigger] r[j],
        ) by {
            if j == rest.len() {
                assert(rest.contains(rest[i]));
                if rest[i] != name {
                    let k = choose|k: int| 0 <= k < short.len() && short[k] == rest[i];
                    assert(text::before(list[k], list[list.len() - 1]));
                }
            } else {
                assert(text::before(rest[i], rest[j]));
            }
        }
        assert forall|x: Seq<char>| #[trigger] r.contains(x) <==> list.contains(x) || x == name by {
            if r.contains(x) {
                let k = choose|k: int| 0 <= k < r.len() && r[k] == x;
                if k < rest.len() {
                    assert(rest[k] == x);
                    assert(rest.contains(x));
                    if short.contains(x) {
                        let m = choose|m: int| 0 <= m < short.len() && short[m] == x;
                        assert(list[m] == x);
                    }
                } else {
                    assert(list[list.len() - 1] == x);
                }
            }
            if list.contains(x) {
                let k = choose|k: int| 0 <= k < list.len() && list[k] == x;
                if k < list.len() - 1 {
                    assert(short[k] == x);
                    assert(short.contains(x));
                    assert(rest.contains(x));
                    let m = choose|m: int| 0 <= m < rest.len() && rest[m] == x;
                    assert(r[m] == x);
                } else {
                    assert(r[rest.len() as int] == x);
                }
            }
            if x == name {
                assert(rest.contains(x));
                let m = choose|m: int| 0 <= m < rest.len() && rest[m] == x;
                assert(r[m] == x);
            }
        }
    }
}

proof fn lemma_all_entered(list: Seq<Seq<char>>, names: Seq<Seq<char>>, n: int)
    requires
        ascending(list),
        0 <= n <= names.len(),
    ensures
        ascending(all_entered(list, names, n)),
        forall|x: Seq<char>| #[trigger]
            all_entered(list, names, n).contains(x) <==> list.contains(x) || names.take(
                n,
            ).contains(x),
        all_entered(list, names, n).len() <= list.len() + n,
    decreases n,
{
    if n > 0 {
        lemma_all_entered(list, names, n - 1);
        lemma_entered(all_entered(list, names, n - 1), names[n - 1]);
        let long = names.take(n);
        let short = names.take(n - 1);
        assert forall|x: Seq<char>|
            long.contains(x) <==> short.contains(x) || x == names[n - 1] by {
            if long.contains(x) {
                let k = choose|k: int| 0 <= k < long.len() && long[k] == x;
                if k < n - 1 {
                    assert(short[k] == x);
                }
            }
            if short.contains(x) {
                let k = choose|k: int| 0 <= k < short.len() && short[k] == x;
                assert(long[k] == x);
            }
            if x == names[n - 1] {
                assert(long[n - 1] == x);
            }
        }
    }
}

/// The list to choose from starts with all clients. Behind that it is in strictly ascending
/// order, so that each client stands there once, and holds the clients of the server and of the
/// tokens and the chosen one, and no others.
pub proof fn law_choices(clients: Seq<Seq<char>>, owners: Seq<Seq<char>>, chosen: Seq<char>)
    ensures
        choices(clients, owners, chosen)[0] == GLOBAL_CLIENT@,
        ascending(choices(clients, owners, chosen).skip(1)),
        forall|x: Seq<char>| #[trigger]
            choices(clients, owners, chosen).skip(1).contains(x) <==> clients.contains(x)
                || owners.contains(x) || (x == chosen && chosen != GLOBAL_CLIENT@),
{
    let none = Seq::<Seq<char>>::empty();
    let first = all_entered(none, clients, clients.len() as int);
    lemma_all_entered(none, clients, clients.len() as int);
    assert(clients.take(clients.len() as int) =~= clients);
    lemma_all_entered(first, owners, owners.len() as int);
    assert(owners.take(owners.len() as int) =~= owners);
    let known = all_entered(first, owners, owners.len() as int);
    lemma_entered(known, chosen);
    let tail = if chosen == GLOBAL_CLIENT@ {
        known
    } else {
        entered(known, chosen)
    };
    assert(choices(clients, owners, chosen).skip(1) =~= tail);
}

proof fn lemma_place_in(list: Seq<Seq<char>>, name: Seq<char>, at: int)
    requires
        0 <= at <= list.len(),
    ensures
        0 <= place_in(list, name, at),
        list.len() > 0 ==> place_in(list, name, at) < list.len(),
        (exists|k: int| at <= k < list.len() && #[trigger] list[k] == name)
            ==> list[place_in(list, name, at)] == name,
    decreases list.len() - at,
{
    if at < list.len() && list[at] != name {
        lemma_place_in(list, name, at + 1);
    }
}

/// After the list was loaded the preferred client is chosen, or else the one that was chosen
/// before; the interface stays well-formed.
pub proof fn law_choice_kept(
    a: AppView,
    preferred: Option<Seq<char>>,
    clients: Seq<Seq<char>>,
    owners: Seq<Seq<char>>,
)
    requires
        a.wf(),
        choices(
            clients,
            owners,
            match preferred {
                Some(p) => p,
                None => a.client(),
            },
        ).len() <= usize::MAX,
    ensures
        with_clients(a, preferred, clients, owners).wf(),
        with_clients(a, preferred, clients, owners).client() == (match preferred {
            Some(p) => p,
            None => a.client(),
        }),
{
    let chosen = match preferred {
        Some(p) => p,
        None => a.client(),
    };
    let list = choices(clients, owners, chosen);
    law_choices(clients, owners, chosen);
    lemma_place_in(list, chosen, 0);
    if chosen == GLOBAL_CLIENT@ {
        assert(list[0] == chosen);
    } else {
        assert(list.skip(1).contains(chosen));
        let k = choose|k: int| 0 <= k < list.skip(1).len() && list.skip(1)[k] == chosen;
        assert(list[k + 1] == chosen);
    }
}

/// Enters a name into an ascending list.
fn enter_name(list: &mut Vec<String>, name: String)
    ensures
        text::texts(final(list)@) == entered(text::texts(old(list)@), name@),
{
    let ghost all = text::texts(list@);
    let n: usize = list.len();
    let mut k: usize = n;
    assert(all.take(n as int) =~= all);
    assert(entered(all.take(n as int), name@) + all.skip(n as int) =~= entered(all, name@));
    while k > 0 && is_before(name.as_str(), list[k - 1].as_str())
        invariant
            k <= n == list@.len(),
            all == text::texts(list@),
            list@ == old(list)@,
            entered(all, name@) == entered(all.take(k as int), name@) + all.skip(k as int),
        decreases k,
    {
        proof {
            let part = all.take(k as int);
            text::lemma_before_total(part.last(), name@);
            assert(part.last() == all[k - 1]);
            assert(part.drop_last() =~= all.take(k - 1));
            assert(entered(part, name@) == entered(part.drop_last(), name@).push(part.last()));
            assert(entered(part, name@) + all.skip(k as int) =~= entered(
                all.take(k - 1),
                name@,
            ) + all.skip(k - 1));
        }
        k = k - 1;
    }
    let ghost part = all.take(k as int);
    if k > 0 && same_text(list[k - 1].as_str(), name.as_str()) {
        proof {
            text::lemma_before_total(part.last(), name@);
            assert(part.last() == all[k - 1]);
            assert(entered(part, name@) + all.skip(k as int) =~= all);
        }
        return ;
    }
    proof {
        if k > 0 {
            text::lemma_before_total(part.last(), name@);
            assert(part.last() == all[k - 1]);
        }
        assert(entered(part, name@) == part.push(name@));
    }
    let ghost view = name@;
    list.insert(k, name);
    proof {
        assert(text::texts(list@) =~= part.push(view) + all.skip(k as int));
    }
}

impl App {
    /// Takes the clients of the server and of the tokens.
    pub fn refresh_client_ids(
        &mut self,
        preferred: Option<&str>,
        clients: Vec<String>,
        tokens: &Vec<ApiToken>,
    )
        requires
            old(self)@.wf(),
        ensures
            final(self)@ == with_clients(
                old(self)@,
                text::opt_str(preferred),
                text::texts(clients@),
                token_clients(tokens@),
            ),
            final(self)@.wf(),
            final(self)@.client() == (match preferred {
                Some(p) => p@,
                None => old(self)@.client(),
            }),
    {
        let chosen = match preferred {
            Some(p) => p.to_owned(),
            None => self.current_client().to_owned(),
        };
        let ghost names = text::texts(clients@);
        let ghost owners = token_clients(tokens@);
        let ghost none = Seq::<Seq<char>>::empty();
        let mut known: Vec<String> = Vec::new();
        assert(text::texts(known@) =~= none);
        for i in 0..clients.len()
            invariant
                names == text::texts(clients@),
                text::texts(known@) == all_entered(none, names, i as int),
        {
            assert(names[i as int] == clients@[i as int]@);
            enter_name(&mut known, clients[i].clone());
        }
        let ghost first = all_entered(none, names, names.len() as int);
        for i in 0..tokens.len()
            invariant
                owners == token_clients(tokens@),
                text::texts(known@) == all_entered(first, owners, i as int),
        {
            assert(owners[i as int] == tokens@[i as int].client_id@);
            enter_name(&mut known, tokens[i].client_id.clone());
        }
        if !same_text(chosen.as_str(), GLOBAL_CLIENT) {
            enter_name(&mut known, chosen.clone());
        }
        let ghost tail = text::texts(known@);
        let ghost list = choices(names, owners, chosen@);
        assert(list =~= seq![GLOBAL_CLIENT@] + tail);
        let mut ids: Vec<String> = Vec::new();
        ids.push(GLOBAL_CLIENT.to_owned());
        for i in 0..known.len()
            invariant
                tail == text::texts(known@),
                text::texts(ids@) == seq![GLOBAL_CLIENT@] + tail.take(i as int),
        {
            let ghost before = ids@;
            ids.push(known[i].clone());
            assert(text::texts(ids@) =~= text::texts(before).push(tail[i as int]));
            assert(text::texts(ids@) =~= seq![GLOBAL_CLIENT@] + tail.take(i + 1));
        }
        assert(text::texts(ids@) =~= list);
        let n: usize = ids.len();
        assert(n == list.len());
        let mut at: usize = 0;
        while at < n && !same_text(ids[at].as_str(), chosen.as_str())
            invariant
                at <= n == ids@.len(),
                text::texts(ids@) == list,
                place_in(list, chosen@, 0) == place_in(list, chosen@, at as int),
            decreases n - at,
        {
            at = at + 1;
        }
        proof {
            law_choice_kept(self@, text::opt_str(preferred), names, owners);
        }
        self.client_index = if at < n {
            at
        } else {
            0
        };
        self.client_ids = ids;
    }
}

// ---------------------------------------------------------------------------------------------
// Start
// ---------------------------------------------------------------------------------------------

/// The client that is shown first: all of them where none is named.
pub open spec fn first_client(named: Seq<char>) -> Seq<char> {
    if words::trim(named).len() == 0 {
        GLOBAL_CLIENT@
    } else {
        named
    }
}

/// The interface before anything was loaded.
pub open spec fn is_blank(a: AppView, page_size: u16, now: u64) -> bool {
    &&& a.view == tabs::View::Overview
    &&& a.breakdown_kind == BreakdownKind::Clients
    &&& a.breakdown_offset == 0
    &&& a.client_ids == seq![GLOBAL_CLIENT@]
    &&& a.client_index == 0
    &&& a.overview is None
    &&& a.records.len() == 0
    &&& a.records_total == 0
    &&& a.records_page == 1
    &&& a.page_size == page_size
    &&& a.records_row is None
    &&& a.active.len() == 0
    &&& a.active_row is None
    &&& a.tokens.len() == 0
    &&& a.tokens_row is None
    &&& a.overlay is None
    &&& a.notice is None
    &&& !a.should_quit
    &&& a.last_refresh == now
}

impl App {
    /// The interface before anything was loaded, and how loading begins; a message where the time
    /// zone is not known or the server cannot be talked to.
    pub fn new(options: &TuiOptions, now: u64) -> (r: Result<(App, Load), String>)
        requires
            options.page_size > 0,
        ensures
            match r {
                Ok((app, load)) => {
                    &&& zone::zone_known(options.timezone@)
                    &&& api::is_http(api::base_of(options.server_url@))
                    &&& !options.username@.contains(':')
                    &&& app.timezone@ == options.timezone@
                    &&& app.api.base_url@ == api::base_of(options.server_url@)
                    &&& app.api.authorization@ == auth::basic_header(
                        options.username@,
                        options.password@,
                    )
                    &&& is_blank(app@, options.page_size, now)
                    &&& app@.wf()
                    &&& load@ == (LoadView::FirstClients {
                        preferred: first_client(options.initial_client_id@),
                    })
                },
                Err(message) => if !zone::zone_known(options.timezone@) {
                    message@ == "invalid time zone '"@ + options.timezone@ + "'"@
                } else if !api::is_http(api::base_of(options.server_url@)) {
                    message@ == "server URL must begin with http:// or https://"@
                } else {
                    &&& options.username@.contains(':')
                    &&& message@ == "username cannot contain ':'"@
                },
            },
    {
        let timezone = match find_tz(options.timezone.as_str()) {
            Some(tz) => tz,
            None => {
                let mut message = "invalid time zone '".to_owned();
                message.append(options.timezone.as_str());
                message.append("'");
                return Err(message);
            },
        };
        let client = match ApiClient::new(
            options.server_url.as_str(),
            options.username.as_str(),
            options.password.as_str(),
        ) {
            Ok(client) => client,
            Err(message) => {
                return Err(message);
            },
        };
        let preferred = if trimmed(options.initial_client_id.as_str()).as_str().is_empty() {
            GLOBAL_CLIENT.to_owned()
        } else {
            options.initial_client_id.clone()
        };
        let mut client_ids: Vec<String> = Vec::new();
        client_ids.push(GLOBAL_CLIENT.to_owned());
        assert(text::texts(client_ids@) =~= seq![GLOBAL_CLIENT@]);
        let app = App {
            api: client,
            timezone,
            view: tabs::View::Overview,
            breakdown_kind: BreakdownKind::Clients,
            breakdown_offset: 0,
            client_ids,
            client_index: 0,
            overview: None,
            records: Vec::new(),
            records_total: 0,
            records_page: 1,
            page_size: options.page_size as i64,
            records_state: TableState::default(),
            active: Vec::new(),
            active_state: TableState::default(),
            tokens: Vec::new(),
            tokens_state: TableState::default(),
            overlay: None,
            notice: None,
            should_quit: false,
            last_refresh: now,
        };
        Ok((app, Load::FirstClients { preferred }))
    }
}

// ---------------------------------------------------------------------------------------------
// Loading
// ---------------------------------------------------------------------------------------------

/// How far loading has come. What the server answered so far is shown all at once, when
/// everything is there.
#[derive(Debug)]
pub enum Load {
    /// At the start: the clients are asked for.
    FirstClients { preferred: String },
    /// At the start: the tokens are asked for.
    FirstTokens { preferred: String, clients: Vec<String> },
    /// The clients are asked for.
    Clients,
    /// The tokens are asked for, on account of their clients.
    ClientTokens { clients: Vec<String> },
    /// The statistics are asked for.
    Overview { client_id: String },
    /// A page of records is asked for.
    Records { client_id: String, overview: OverviewData },
    /// The last page of records is asked for, in place of one that is no longer there.
    LastRecords { client_id: String, overview: OverviewData },
    /// The running sessions are asked for.
    Active { client_id: String, overview: OverviewData, page: RecordsPageResp },
    /// The tokens are asked for.
    Tokens {
        client_id: String,
        overview: OverviewData,
        page: RecordsPageResp,
        active: Vec<OrphanedSession>,
    },
    /// Everything is there.
    Done,
}

/// The view of how far loading has come.
#[verifier::ext_equal]
pub enum LoadView {
    FirstClients { preferred: Seq<char> },
    FirstTokens { preferred: Seq<char>, clients: Seq<Seq<char>> },
    Clients,
    ClientTokens { clients: Seq<Seq<char>> },
    Overview { client_id: Seq<char> },
    Records { client_id: Seq<char>, overview: OverviewData },
    LastRecords { client_id: Seq<char>, overview: OverviewData },
    Active { client_id: Seq<char>, overview: OverviewData, page: RecordsPageResp },
    Tokens {
        client_id: Seq<char>,
        overview: OverviewData,
        page: RecordsPageResp,
        active: Seq<OrphanedSession>,
    },
    Done,
}

impl View for Load {
    type V = LoadView;

    open spec fn view(&self) -> LoadView {
        match *self {
            Load::FirstClients { preferred } => LoadView::FirstClients { preferred: preferred@ },
            Load::FirstTokens { preferred, clients } => LoadView::FirstTokens {
                preferred: preferred@,
                clients: text::texts(clients@),
            },
            Load::Clients => LoadView::Clients,
            Load::ClientTokens { clients } => LoadView::ClientTokens {
                clients: text::texts(clients@),
            },
            Load::Overview { client_id } => LoadView::Overview { client_id: client_id@ },
            Load::Records { client_id, overview } => LoadView::Records {
                client_id: client_id@,
                overview,
            },
            Load::LastRecords { client_id, overview } => LoadView::LastRecords {
                client_id: client_id@,
                overview,
            },
            Load::Active { client_id, overview, page } => LoadView::Active {
                client_id: client_id@,
                overview,
                page,
            },
            Load::Tokens { client_id, overview, page, active } => LoadView::Tokens {
                client_id: client_id@,
                overview,
                page,
                active: active@,
            },
            Load::Done => LoadView::Done,
        }
    }
}

/// An answer of the server.
#[derive(Debug)]
pub enum Reply {
    Clients(Vec<String>),
    Tokens(Vec<ApiToken>),
    Overview(OverviewData),
    Records(RecordsPageResp),
    Active(Vec<OrphanedSession>),
}

/// The requests to make at this point: one, but for the statistics; none when everything is
/// there.
pub open spec fn requests(a: AppView, load: LoadView) -> Seq<api::CallView> {
    let get = |path: Seq<char>, action: Seq<char>|
        seq![a.api.call(api::Method::Get, path, Seq::empty(), action)];
    let records = |client_id: Seq<char>|
        seq![
            a.api.call(
                api::Method::Get,
                "records"@,
                seq![
                    ("client_id"@, client_id),
                    ("page"@, text::dec(a.records_page as int)),
                    ("per_page"@, text::dec(a.page_size as int)),
                ],
                "load records"@,
            ),
        ];
    match load {
        LoadView::FirstClients { .. } => get("clients"@, "load clients"@),
        LoadView::FirstTokens { .. } => get("admin/tokens"@, "load API tokens"@),
        LoadView::Clients => get("clients"@, "load clients"@),
        LoadView::ClientTokens { .. } => get("admin/tokens"@, "load API tokens"@),
        LoadView::Overview { client_id } => a.api.overview_calls(client_id, a.timezone@),
        LoadView::Records { client_id, .. } => records(client_id),
        LoadView::LastRecords { client_id, .. } => records(client_id),
        LoadView::Active { .. } => get("sessions/orphaned"@, "load active sessions"@),
        LoadView::Tokens { .. } => get("admin/tokens"@, "load API tokens"@),
        LoadView::Done => Seq::empty(),
    }
}

/// The first `n` running sessions without those of other clients.
pub open spec fn sessions_of(
    sessions: Seq<OrphanedSession>,
    client_id: Seq<char>,
    n: int,
) -> Seq<OrphanedSession>
    decreases n,
{
    if n <= 0 {
        Seq::empty()
    } else if sessions[n - 1].client_id@ == client_id {
        sessions_of(sessions, client_id, n - 1).push(sessions[n - 1])
    } else {
        sessions_of(sessions, client_id, n - 1)
    }
}

/// The first `n` tokens without those of other clients.
pub open spec fn tokens_of(tokens: Seq<ApiToken>, client_id: Seq<char>, n: int) -> Seq<ApiToken>
    decreases n,
{
    if n <= 0 {
        Seq::empty()
    } else if tokens[n - 1].client_id@ == client_id {
        tokens_of(tokens, client_id, n - 1).push(tokens[n - 1])
    } else {
        tokens_of(tokens, client_id, n - 1)
    }
}

/// The row that was selected, the first where none was.
pub open spec fn old_row(row: Option<usize>) -> usize {
    match row {
        Some(i) => i,
        None => 0,
    }
}

/// The interface with everything that was loaded: running sessions and tokens are those of the
/// client, unless all are shown; the selections stay where they were as far as there are rows.
pub open spec fn shown(
    a: AppView,
    client_id: Seq<char>,
    overview: OverviewData,
    page: RecordsPageResp,
    active: Seq<OrphanedSession>,
    tokens: Seq<ApiToken>,
    now: u64,
) -> AppView {
    let sessions = if client_id == GLOBAL_CLIENT@ {
        active
    } else {
        sessions_of(active, client_id, active.len() as int)
    };
    let kept = if client_id == GLOBAL_CLIENT@ {
        tokens
    } else {
        tokens_of(tokens, client_id, tokens.len() as int)
    };
    AppView {
        overview: Some(overview),
        records: page.records@,
        records_total: page.total,
        active: sessions,
        tokens: kept,
        records_row: selection::clamped(old_row(a.records_row), page.records@.len() as usize),
        active_row: selection::clamped(old_row(a.active_row), sessions.len() as usize),
        tokens_row: selection::clamped(old_row(a.tokens_row), kept.len() as usize),
        last_refresh: now,
        ..a
    }
}

/// What an answer of the server does. An answer that was not asked for does nothing.
pub open spec fn load_step(a: AppView, load: LoadView, reply: Reply, now: u64) -> (
    AppView,
    LoadView,
) {
    match (load, reply) {
        (LoadView::FirstClients { preferred }, Reply::Clients(clients)) => (
            a,
            LoadView::FirstTokens { preferred, clients: text::texts(clients@) },
        ),
        (LoadView::FirstTokens { preferred, clients }, Reply::Tokens(tokens)) => (
            with_clients(a, Some(preferred), clients, token_clients(tokens@)),
            LoadView::Clients,
        ),
        (LoadView::Clients, Reply::Clients(clients)) => (
            a,
            LoadView::ClientTokens { clients: text::texts(clients@) },
        ),
        (LoadView::ClientTokens { clients }, Reply::Tokens(tokens)) => {
            let next = with_clients(a, None, clients, token_clients(tokens@));
            (next, LoadView::Overview { client_id: next.client() })
        },
        (LoadView::Overview { client_id }, Reply::Overview(overview)) => (
            a,
            LoadView::Records { client_id, overview },
        ),
        (LoadView::Records { client_id, overview }, Reply::Records(page)) => {
            let pages = selection::pages(page.total as int, a.page_size as int);
            if a.records_page > pages {
                (
                    AppView { records_page: pages as i64, ..a },
                    LoadView::LastRecords { client_id, overview },
                )
            } else {
                (a, LoadView::Active { client_id, overview, page })
            }
        },
        (LoadView::LastRecords { client_id, overview }, Reply::Records(page)) => (
            a,
            LoadView::Active { client_id, overview, page },
        ),
        (LoadView::Active { client_id, overview, page }, Reply::Active(active)) => (
            a,
            LoadView::Tokens { client_id, overview, page, active: active@ },
        ),
        (LoadView::Tokens { client_id, overview, page, active }, Reply::Tokens(tokens)) => (
            shown(a, client_id, overview, page, active, tokens@, now),
            LoadView::Done,
        ),
        _ => (a, load),
    }
}

/// Leaves the running sessions of a client.
fn keep_sessions(sessions: &mut Vec<OrphanedSession>, client_id: &str)
    ensures
        final(sessions)@ == sessions_of(
            old(sessions)@,
            client_id@,
            old(sessions)@.len() as int,
        ),
{
    let ghost all = sessions@;
    let ghost mut seen: int = 0;
    let mut i: usize = 0;
    assert(sessions@.take(0) =~= sessions_of(all, client_id@, 0));
    assert(sessions@.skip(0) =~= all.skip(0));
    while i < sessions.len()
        invariant
            i <= sessions@.len(),
            0 <= i <= seen <= all.len(),
            sessions@.take(i as int) == sessions_of(all, client_id@, seen),
            sessions@.skip(i as int) == all.skip(seen),
        decreases sessions@.len() - i,
    {
        let ghost before = sessions@;
        assert(before[i as int] == before.skip(i as int)[0]);
        assert(all.skip(seen).len() == before.len() - i);
        assert(all.skip(seen)[0] == all[seen]);
        if same_text(sessions[i].client_id.as_str(), client_id) {
            assert(before.take(i + 1) =~= before.take(i as int).push(before[i as int]));
            assert(before.skip(i + 1) =~= before.skip(i as int).drop_first());
            assert(all.skip(seen + 1) =~= all.skip(seen).drop_first());
            i = i + 1;
        } else {
            sessions.remove(i);
            assert(sessions@.take(i as int) =~= before.take(i as int));
            assert(sessions@.skip(i as int) =~= before.skip(i as int).drop_first());
            assert(all.skip(seen + 1) =~= all.skip(seen).drop_first());
        }
        proof {
            seen = seen + 1;
        }
    }
    proof {
        assert(sessions@.skip(i as int).len() == 0);
        assert(all.skip(seen).len() == all.len() - seen);
        assert(sessions@.take(i as int) =~= sessions@);
    }
}

/// Leaves the tokens of a client.
fn keep_tokens(tokens: &mut Vec<ApiToken>, client_id: &str)
    ensures
        final(tokens)@ == tokens_of(old(tokens)@, client_id@, old(tokens)@.len() as int),
{
    let ghost all = tokens@;
    let ghost mut seen: int = 0;
    let mut i: usize = 0;
    assert(tokens@.take(0) =~= tokens_of(all, client_id@, 0));
    assert(tokens@.skip(0) =~= all.skip(0));
    while i < tokens.len()
        invariant
            i <= tokens@.len(),
            0 <= i <= seen <= all.len(),
            tokens@.take(i as int) == tokens_of(all, client_id@, seen),
            tokens@.skip(i as int) == all.skip(seen),
        decreases tokens@.len() - i,
    {
        let ghost before = tokens@;
        assert(before[i as int] == before.skip(i as int)[0]);
        assert(all.skip(seen).len() == before.len() - i);
        assert(all.skip(seen)[0] == all[seen]);
        if same_text(tokens[i].client_id.as_str(), client_id) {
            assert(before.take(i + 1) =~= before.take(i as int).push(before[i as int]));
            assert(before.skip(i + 1) =~= before.skip(i as int).drop_first());
            assert(all.skip(seen + 1) =~= all.skip(seen).drop_first());
            i = i + 1;
        } else {
            tokens.remove(i);
            assert(tokens@.take(i as int) =~= before.take(i as int));
            assert(tokens@.skip(i as int) =~= before.skip(i as int).drop_first());
            assert(all.skip(seen + 1) =~= all.skip(seen).drop_first());
        }
        proof {
            seen = seen + 1;
        }
    }
    proof {
        assert(tokens@.skip(i as int).len() == 0);
        assert(all.skip(seen).len() == all.len() - seen);
        assert(tokens@.take(i as int) =~= tokens@);
    }
}

/// A list of one request.
fn one(call: ApiCall) -> (r: Vec<ApiCall>)
    ensures
        api::calls(r@) == seq![call@],
{
    let mut r: Vec<ApiCall> = Vec::new();
    r.push(call);
    assert(api::calls(r@) =~= seq![call@]);
    r
}

fn row_or_first(row: Option<usize>) -> (r: usize)
    ensures
        r == old_row(row),
{
    match row {
        Some(i) => i,
        None => 0,
    }
}

impl Load {
    /// The requests to make at this point.
    pub fn calls(&self, app: &App) -> (r: Vec<ApiCall>)
        ensures
            api::calls(r@) == requests(app@, self@),
    {
        match self {
            Load::FirstClients { .. } => one(app.api.clients()),
            Load::FirstTokens { .. } => one(app.api.tokens()),
            Load::Clients => one(app.api.clients()),
            Load::ClientTokens { .. } => one(app.api.tokens()),
            Load::Overview { client_id } => app.api.overview(client_id.as_str(), &app.timezone),
            Load::Records { client_id, .. } => one(
                app.api.records(client_id.as_str(), app.records_page, app.page_size),
            ),
            Load::LastRecords { client_id, .. } => one(
                app.api.records(client_id.as_str(), app.records_page, app.page_size),
            ),
            Load::Active { .. } => one(app.api.active_sessions()),
            Load::Tokens { .. } => one(app.api.tokens()),
            Load::Done => {
                let none: Vec<ApiCall> = Vec::new();
                assert(api::calls(none@) =~= Seq::empty());
                none
            },
        }
    }
}

impl App {
    /// Takes an answer of the server while everything is loaded.
    pub fn refresh_all(&mut self, load: Load, reply: Reply, now: u64) -> (r: Load)
        requires
            old(self)@.wf(),
        ensures
            (final(self)@, r@) == load_step(old(self)@, load@, reply, now),
            final(self)@.wf(),
    {
        match (load, reply) {
            (Load::FirstClients { preferred }, Reply::Clients(clients)) => Load::FirstTokens {
                preferred,
                clients,
            },
            (Load::FirstTokens { preferred, clients }, Reply::Tokens(tokens)) => {
                self.refresh_client_ids(Some(preferred.as_str()), clients, &tokens);
                Load::Clients
            },
            (Load::Clients, Reply::Clients(clients)) => Load::ClientTokens { clients },
            (Load::ClientTokens { clients }, Reply::Tokens(tokens)) => {
                self.refresh_client_ids(None, clients, &tokens);
                Load::Overview { client_id: self.current_client().to_owned() }
            },
            (Load::Overview { client_id }, Reply::Overview(overview)) => Load::Records {
                client_id,
                overview,
            },
            (Load::Records { client_id, overview }, Reply::Records(page)) => {
                let pages = total_pages(page.total, self.page_size);
                if self.records_page > pages {
                    self.records_page = pages;
                    Load::LastRecords { client_id, overview }
                } else {
                    Load::Active { client_id, overview, page }
                }
            },
            (Load::LastRecords { client_id, overview }, Reply::Records(page)) => Load::Active {
                client_id,
                overview,
                page,
            },
            (Load::Active { client_id, overview, page }, Reply::Active(active)) => Load::Tokens {
                client_id,
                overview,
                page,
                active,
            },
            (Load::Tokens { client_id, overview, page, active }, Reply::Tokens(tokens)) => {
                self.show(client_id, overview, page, active, tokens, now);
                Load::Done
            },
            (load, _) => load,
        }
    }

    /// Shows everything that was loaded.
    fn show(
        &mut self,
        client_id: String,
        overview: OverviewData,
        page: RecordsPageResp,
        active: Vec<OrphanedSession>,
        tokens: Vec<ApiToken>,
        now: u64,
    )
        requires
            old(self)@.wf(),
        ensures
            final(self)@ == shown(
                old(self)@,
                client_id@,
                overview,
                page,
                active@,
                tokens@,
                now,
            ),
            final(self)@.wf(),
    {
        let mut sessions = active;
        let mut kept = tokens;
        if !same_text(client_id.as_str(), GLOBAL_CLIENT) {
            keep_sessions(&mut sessions, client_id.as_str());
            keep_tokens(&mut kept, client_id.as_str());
        }
        let record_row = row_or_first(self.records_state.selected());
        let active_row = row_or_first(self.active_state.selected());
        let token_row = row_or_first(self.tokens_state.selected());
        let records = page.records;
        select_clamped(&mut self.records_state, record_row, records.len());
        select_clamped(&mut self.active_state, active_row, sessions.len());
        select_clamped(&mut self.tokens_state, token_row, kept.len());
        self.overview = Some(overview);
        self.records = records;
        self.records_total = page.total;
        self.active = sessions;
        self.tokens = kept;
        self.last_refresh = now;
    }

    /// Whether the time for a refresh that nobody asked for has come: not while something lies
    /// over the view.
    pub fn refresh_due(&self, now: u64) -> (r: bool)
        ensures
            r == (now - self.last_refresh >= AUTO_REFRESH_INTERVAL && self@.overlay is None),
    {
        now >= self.last_refresh && now - self.last_refresh >= AUTO_REFRESH_INTERVAL
            && self.overlay.is_none()
    }
}

// ---------------------------------------------------------------------------------------------
// How requests went
// ---------------------------------------------------------------------------------------------

/// What follows a refresh, which went well or failed with a message.
pub open spec fn refreshed(
    a: AppView,
    after: app::AfterView,
    failure: Option<Seq<char>>,
    now: u64,
) -> AppView {
    match failure {
        None => match after {
            app::AfterView::Refreshed => a.told("Data refreshed"@),
            app::AfterView::Shown => a.told("Showing "@ + a.client_label()),
            app::AfterView::Paged => a,
            app::AfterView::Due => a,
            app::AfterView::Acted(message) => a.told(message),
            app::AfterView::Created(token) => a.covered(app::OverlayView::TokenCreated(token)),
        },
        Some(error) => match after {
            app::AfterView::Due => AppView { last_refresh: now, ..a.warned(error) },
            app::AfterView::Acted(message) => a.warned(message + "; refresh failed: "@ + error),
            app::AfterView::Created(_) => a.warned(
                "Token created, but refresh failed: "@ + error,
            ),
            _ => a.warned(error),
        },
    }
}

/// How an action went.
#[derive(Debug, Clone, Copy, PartialEq, Eq, Structural)]
pub enum Outcome {
    /// It was done. Of a session that was ended: how many seconds it took.
    Done(i64),
    /// The server does not know the thing.
    Gone,
}

/// The message on how an action went.
pub open spec fn message(action: app::ActionView, outcome: Outcome) -> Seq<char> {
    match action {
        app::ActionView::DeleteRecord(id) => "Record #"@ + text::dec(id as int) + match outcome {
            Outcome::Done(_) => " deleted"@,
            Outcome::Gone => " no longer exists"@,
        },
        app::ActionView::EndSession(id) => "Session #"@ + text::dec(id as int) + match outcome {
            Outcome::Done(seconds) => " ended ("@ + stats::duration_text(seconds as int) + ")"@,
            Outcome::Gone => " is no longer active"@,
        },
        app::ActionView::DiscardSession(id) => "Session #"@ + text::dec(id as int) + match outcome {
            Outcome::Done(_) => " discarded"@,
            Outcome::Gone => " is no longer active"@,
        },
        app::ActionView::RevokeToken(token) => match outcome {
            Outcome::Done(_) => "Token "@ + selection::redacted(token) + " revoked"@,
            Outcome::Gone => "Token no longer exists"@,
        },
    }
}

/// The message on how an action went.
fn outcome_message(action: &AdminAction, outcome: Outcome) -> (r: String)
    ensures
        r@ == message(action@, outcome),
{
    let mut r = String::new();
    match action {
        AdminAction::DeleteRecord(id) => {
            r.append("Record #");
            r.append(int_text(*id).as_str());
            match outcome {
                Outcome::Done(_) => r.append(" deleted"),
                Outcome::Gone => r.append(" no longer exists"),
            }
        },
        AdminAction::EndSession(id) => {
            r.append("Session #");
            r.append(int_text(*id).as_str());
            match outcome {
                Outcome::Done(seconds) => {
                    r.append(" ended (");
                    r.append(human_readable_time(seconds).as_str());
                    r.append(")");
                },
                Outcome::Gone => r.append(" is no longer active"),
            }
        },
        AdminAction::DiscardSession(id) => {
            r.append("Session #");
            r.append(int_text(*id).as_str());
            match outcome {
                Outcome::Done(_) => r.append(" discarded"),
                Outcome::Gone => r.append(" is no longer active"),
            }
        },
        AdminAction::RevokeToken(token) => {
            match outcome {
                Outcome::Done(_) => {
                    r.append("Token ");
                    r.append(redact_token(token.as_str()).as_str());
                    r.append(" revoked");
                },
                Outcome::Gone => r.append("Token no longer exists"),
            }
        },
    }
    assert(r@ =~= message(action@, outcome));
    r
}

impl App {
    /// Takes how a refresh went.
    pub fn finish_refresh(&mut self, after: After, result: Result<(), String>, now: u64)
        requires
            old(self)@.wf(),
        ensures
            final(self)@ == refreshed(
                old(self)@,
                after@,
                match result {
                    Ok(()) => None,
                    Err(error) => Some(error@),
                },
                now,
            ),
            final(self)@.wf(),
    {
        match result {
            Ok(()) => match after {
                After::Refreshed => self.set_notice("Data refreshed".to_owned()),
                After::Shown => {
                    let mut message = "Showing ".to_owned();
                    message.append(self.current_client_label());
                    self.set_notice(message);
                },
                After::Paged => {},
                After::Due => {},
                After::Acted(message) => self.set_notice(message),
                After::Created(token) => {
                    self.overlay = Some(Overlay::TokenCreated(token));
                },
            },
            Err(error) => match after {
                After::Due => {
                    self.set_error(error);
                    self.last_refresh = now;
                },
                After::Acted(message) => {
                    let mut text = message;
                    text.append("; refresh failed: ");
                    text.append(error.as_str());
                    self.set_error(text);
                },
                After::Created(_) => {
                    let mut text = "Token created, but refresh failed: ".to_owned();
                    text.append(error.as_str());
                    self.set_error(text);
                },
                _ => self.set_error(error),
            },
        }
    }

    /// Takes how an action went: everything is loaded anew after it, unless it failed.
    pub fn perform_action(&mut self, action: &AdminAction, result: Result<Outcome, String>) -> (r:
        Option<Job>)
        requires
            old(self)@.wf(),
        ensures
            match result {
                Ok(outcome) => final(self)@ == old(self)@ && app::opt_job(r) == Some(
                    app::JobView::Refresh(app::AfterView::Acted(message(action@, outcome))),
                ),
                Err(error) => final(self)@ == old(self)@.warned(error@) && r is None,
            },
            final(self)@.wf(),
    {
        match result {
            Ok(outcome) => Some(Job::Refresh(After::Acted(outcome_message(action, outcome)))),
            Err(error) => {
                self.set_error(error);
                None
            },
        }
    }

    /// Takes how making a token went.
    pub fn token_made(&mut self, result: Result<String, String>) -> (r: Option<Job>)
        requires
            old(self)@.wf(),
        ensures
            match result {
                Ok(token) => final(self)@ == old(self)@ && app::opt_job(r) == Some(
                    app::JobView::Refresh(app::AfterView::Created(token@)),
                ),
                Err(error) => final(self)@ == old(self)@.warned(error@) && r is None,
            },
            final(self)@.wf(),
    {
        match result {
            Ok(token) => Some(Job::Refresh(After::Created(token))),
            Err(error) => {
                self.set_error(error);
                None
            },
        }
    }
}

// ---------------------------------------------------------------------------------------------
// Laws
// ---------------------------------------------------------------------------------------------

/// When everything was loaded, each selection names a row of its table, or none of an empty one.
pub proof fn law_loaded_selections_are_rows(
    a: AppView,
    client_id: Seq<char>,
    overview: OverviewData,
    page: RecordsPageResp,
    active: Seq<OrphanedSession>,
    tokens: Seq<ApiToken>,
    now: u64,
)
    requires
        active.len() <= usize::MAX,
        tokens.len() <= usize::MAX,
    ensures
        ({
            let b = shown(a, client_id, overview, page, active, tokens, now);
            &&& selection::points_into(b.records_row, b.records.len() as usize)
            &&& selection::points_into(b.active_row, b.active.len() as usize)
            &&& selection::points_into(b.tokens_row, b.tokens.len() as usize)
        }),
{
}

/// Of the running sessions that the server tells, those of the chosen client are shown, all of
/// them and no others.
pub proof fn law_sessions_of_the_client(sessions: Seq<OrphanedSession>, client_id: Seq<char>, n: int)
    requires
        0 <= n <= sessions.len(),
    ensures
        forall|i: int|
            0 <= i < sessions_of(sessions, client_id, n).len() ==> (#[trigger] sessions_of(
                sessions,
                client_id,
                n,
            )[i]).client_id@ == client_id,
        forall|k: int|
            0 <= k < n && (#[trigger] sessions[k]).client_id@ == client_id ==> sessions_of(
                sessions,
                client_id,
                n,
            ).contains(sessions[k]),
    decreases n,
{
    if n > 0 {
        law_sessions_of_the_client(sessions, client_id, n - 1);
        let before = sessions_of(sessions, client_id, n - 1);
        let after = sessions_of(sessions, client_id, n);
        assert forall|k: int|
            0 <= k < n && (#[trigger] sessions[k]).client_id@ == client_id implies after.contains(
            sessions[k],
        ) by {
            if k < n - 1 {
                assert(before.contains(sessions[k]));
                let m = choose|m: int| 0 <= m < before.len() && before[m] == sessions[k];
                assert(after[m] == sessions[k]);
            } else {
                assert(after[after.len() - 1] == sessions[k]);
            }
        }
    }
}

} // verus!
