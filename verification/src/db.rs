//! The record store: clients, access tokens and session records.

use crate::calendar::{utc_now, MAX_TIME};
use crate::order;
use crate::order::sort_keys;
use crate::pattern;
use crate::pattern::{exceeds_limit, occurs_like};
use crate::tally;
use crate::tally::Tally;
use crate::text;
use crate::text::{copy_opt, own_opt, same_text};
use crate::tokens;
use crate::tokens::command_to_tokens;
use vstd::prelude::*;

verus! {

/// A client that has sent records.
#[derive(Debug, Clone)]
pub struct Client {
    pub id: String,
    pub name: Option<String>,
    pub created_at: i64,
    pub last_seen: i64,
}

/// A client as it is listed.
#[derive(Debug, Clone)]
pub struct ClientInfo {
    pub id: String,
    pub name: Option<String>,
    pub created_at: i64,
    pub last_seen: i64,
}

/// An access token and the client that it stands for.
#[derive(Debug, Clone)]
pub struct ApiToken {
    pub token: String,
    pub client_id: String,
    pub description: Option<String>,
    pub created_at: i64,
}

/// How far a session has come.
#[derive(Debug, Clone, Copy, PartialEq, Eq, Structural)]
pub enum Status {
    Active,
    Completed,
    Discarded,
}

/// A session record as it is listed.
#[derive(Debug, Clone)]
pub struct Record {
    pub id: i64,
    pub client_id: String,
    pub start_time: i64,
    pub end_time: Option<i64>,
    pub duration_seconds: Option<i64>,
    pub command: Option<String>,
    pub alias: Option<String>,
    pub process_id: Option<i64>,
    pub status: String,
    pub created_at: i64,
}

/// A session record as it is stored.
#[derive(Debug, Clone)]
pub struct StoredRecord {
    pub id: i64,
    pub client_id: String,
    pub start_time: i64,
    pub end_time: Option<i64>,
    pub duration_seconds: Option<i64>,
    pub command: Option<String>,
    pub command_tokens: Option<String>,
    pub alias: Option<String>,
    pub process_id: Option<i64>,
    pub status: Status,
    pub created_at: i64,
}

/// A program that could not be started, as a client reported it.
#[derive(Debug, Clone)]
pub struct ExecEvent {
    pub id: i64,
    pub client_id: String,
    pub command: String,
    pub process_id: i64,
    pub timestamp: i64,
    pub errno: i64,
}

/// Why a change to the store was refused.
#[derive(Debug, Clone, Copy, PartialEq, Eq, Structural)]
pub enum DbError {
    /// Every id has been given out.
    Full,
    /// The token is already there.
    DuplicateToken,
    /// A record was held against a pattern with too many bytes.
    PatternTooLong,
}

/// The store.
pub struct Database {
    clients: Vec<Client>,
    api_tokens: Vec<ApiToken>,
    records: Vec<StoredRecord>,
    last_id: i64,
    exec_events: Vec<ExecEvent>,
    last_event_id: i64,
}

// ---------------------------------------------------------------------------------------------
// Model
// ---------------------------------------------------------------------------------------------

/// A client, by value.
#[verifier::ext_equal]
pub struct ClientView {
    pub id: Seq<char>,
    pub name: Option<Seq<char>>,
    pub created_at: i64,
    pub last_seen: i64,
}

/// An access token, by value.
#[verifier::ext_equal]
pub struct TokenView {
    pub token: Seq<char>,
    pub client_id: Seq<char>,
    pub description: Option<Seq<char>>,
    pub created_at: i64,
}

/// A stored record, by value.
#[verifier::ext_equal]
pub struct RecordView {
    pub id: i64,
    pub client_id: Seq<char>,
    pub start_time: i64,
    pub end_time: Option<i64>,
    pub duration_seconds: Option<i64>,
    pub command: Option<Seq<char>>,
    pub command_tokens: Option<Seq<char>>,
    pub alias: Option<Seq<char>>,
    pub process_id: Option<i64>,
    pub status: Status,
    pub created_at: i64,
}

/// A program that could not be started, by value.
#[verifier::ext_equal]
pub struct ExecEventView {
    pub id: i64,
    pub client_id: Seq<char>,
    pub command: Seq<char>,
    pub process_id: i64,
    pub timestamp: i64,
    pub errno: i64,
}

/// A listed record, by value.
#[verifier::ext_equal]
pub struct ListedView {
    pub id: i64,
    pub client_id: Seq<char>,
    pub start_time: i64,
    pub end_time: Option<i64>,
    pub duration_seconds: Option<i64>,
    pub command: Option<Seq<char>>,
    pub alias: Option<Seq<char>>,
    pub process_id: Option<i64>,
    pub status: Seq<char>,
    pub created_at: i64,
}

/// The store, by value.
#[verifier::ext_equal]
pub struct DbView {
    pub clients: Seq<ClientView>,
    pub api_tokens: Seq<TokenView>,
    pub records: Seq<RecordView>,
    pub last_id: i64,
    pub exec_events: Seq<ExecEventView>,
    pub last_event_id: i64,
}

impl View for Client {
    type V = ClientView;

    open spec fn view(&self) -> ClientView {
        ClientView {
            id: self.id@,
            name: text::opt_text(self.name),
            created_at: self.created_at,
            last_seen: self.last_seen,
        }
    }
}

impl View for ClientInfo {
    type V = ClientView;

    open spec fn view(&self) -> ClientView {
        ClientView {
            id: self.id@,
            name: text::opt_text(self.name),
            created_at: self.created_at,
            last_seen: self.last_seen,
        }
    }
}

impl View for ApiToken {
    type V = TokenView;

    open spec fn view(&self) -> TokenView {
        TokenView {
            token: self.token@,
            client_id: self.client_id@,
            description: text::opt_text(self.description),
            created_at: self.created_at,
        }
    }
}

impl View for StoredRecord {
    type V = RecordView;

    open spec fn view(&self) -> RecordView {
        RecordView {
            id: self.id,
            client_id: self.client_id@,
            start_time: self.start_time,
            end_time: self.end_time,
            duration_seconds: self.duration_seconds,
            command: text::opt_text(self.command),
            command_tokens: text::opt_text(self.command_tokens),
            alias: text::opt_text(self.alias),
            process_id: self.process_id,
            status: self.status,
            created_at: self.created_at,
        }
    }
}

impl View for ExecEvent {
    type V = ExecEventView;

    open spec fn view(&self) -> ExecEventView {
        ExecEventView {
            id: self.id,
            client_id: self.client_id@,
            command: self.command@,
            process_id: self.process_id,
            timestamp: self.timestamp,
            errno: self.errno,
        }
    }
}

impl View for Record {
    type V = ListedView;

    open spec fn view(&self) -> ListedView {
        ListedView {
            id: self.id,
            client_id: self.client_id@,
            start_time: self.start_time,
            end_time: self.end_time,
            duration_seconds: self.duration_seconds,
            command: text::opt_text(self.command),
            alias: text::opt_text(self.alias),
            process_id: self.process_id,
            status: self.status@,
            created_at: self.created_at,
        }
    }
}

/// The values of a list of clients.
pub open spec fn client_views(s: Seq<Client>) -> Seq<ClientView> {
    s.map_values(|c: Client| c@)
}

/// The values of a list of listed clients.
pub open spec fn info_views(s: Seq<ClientInfo>) -> Seq<ClientView> {
    s.map_values(|c: ClientInfo| c@)
}

/// The values of a list of tokens.
pub open spec fn token_views(s: Seq<ApiToken>) -> Seq<TokenView> {
    s.map_values(|t: ApiToken| t@)
}

/// The values of a list of stored records.
pub open spec fn record_views(s: Seq<StoredRecord>) -> Seq<RecordView> {
    s.map_values(|r: StoredRecord| r@)
}

/// The values of a list of programs that could not be started.
pub open spec fn exec_event_views(s: Seq<ExecEvent>) -> Seq<ExecEventView> {
    s.map_values(|e: ExecEvent| e@)
}

/// The values of a list of listed records.
pub open spec fn listed_views(s: Seq<Record>) -> Seq<ListedView> {
    s.map_values(|r: Record| r@)
}

impl View for Database {
    type V = DbView;

    closed spec fn view(&self) -> DbView {
        DbView {
            clients: client_views(self.clients@),
            api_tokens: token_views(self.api_tokens@),
            records: record_views(self.records@),
            last_id: self.last_id,
            exec_events: exec_event_views(self.exec_events@),
            last_event_id: self.last_event_id,
        }
    }
}

impl DbView {
    /// The store without any row.
    pub open spec fn empty() -> DbView {
        DbView {
            clients: Seq::empty(),
            api_tokens: Seq::empty(),
            records: Seq::empty(),
            last_id: 0,
            exec_events: Seq::empty(),
            last_event_id: 0,
        }
    }

    /// Whether a client of that id is stored.
    pub open spec fn has_client(self, id: Seq<char>) -> bool {
        exists|i: int| 0 <= i < self.clients.len() && #[trigger] self.clients[i].id == id
    }

    /// Whether the token is stored.
    pub open spec fn has_token(self, token: Seq<char>) -> bool {
        exists|i: int| 0 <= i < self.api_tokens.len() && #[trigger] self.api_tokens[i].token == token
    }

    /// What holds of every store: ids and tokens are unique, the ids of records and of programs
    /// that could not be started grow and are never given out twice, every record belongs to a
    /// stored client, and a session that still runs started at an instant of the calendar.
    pub open spec fn wf(self) -> bool {
        &&& 0 <= self.last_id
        &&& forall|i: int, j: int|
            0 <= i < j < self.clients.len() ==> #[trigger] self.clients[i].id != #[trigger] self.clients[j].id
        &&& forall|i: int, j: int|
            0 <= i < j < self.api_tokens.len() ==> #[trigger] self.api_tokens[i].token
                != #[trigger] self.api_tokens[j].token
        &&& forall|i: int, j: int|
            0 <= i < j < self.records.len() ==> #[trigger] self.records[i].id
                < #[trigger] self.records[j].id
        &&& forall|i: int|
            0 <= i < self.records.len() ==> 1 <= (#[trigger] self.records[i]).id <= self.last_id
        &&& forall|i: int|
            0 <= i < self.records.len() ==> self.has_client((#[trigger] self.records[i]).client_id)
        &&& forall|i: int|
            0 <= i < self.records.len() && (#[trigger] self.records[i]).status == Status::Active
                ==> 0 <= self.records[i].start_time <= MAX_TIME
        &&& self.events_wf()
    }

    /// What holds of the programs that could not be started: their ids grow, up to the last one
    /// that was given out.
    pub open spec fn events_wf(self) -> bool {
        &&& 0 <= self.last_event_id
        &&& forall|i: int, j: int|
            0 <= i < j < self.exec_events.len() ==> #[trigger] self.exec_events[i].id
                < #[trigger] self.exec_events[j].id
        &&& forall|i: int|
            0 <= i < self.exec_events.len() ==> 1 <= (#[trigger] self.exec_events[i]).id
                <= self.last_event_id
    }

    /// The store after a program that could not be started was entered under the next id.
    pub open spec fn with_event(self, e: ExecEventView) -> DbView {
        DbView {
            exec_events: self.exec_events.push(e),
            last_event_id: (self.last_event_id + 1) as i64,
            ..self
        }
    }

    /// The store after a client was seen at `now`: entered if it is new.
    pub open spec fn seen(self, id: Seq<char>, now: i64) -> DbView {
        DbView {
            clients: if self.has_client(id) {
                Seq::new(
                    self.clients.len(),
                    |i: int|
                        if self.clients[i].id == id {
                            ClientView { last_seen: now, ..self.clients[i] }
                        } else {
                            self.clients[i]
                        },
                )
            } else {
                self.clients.push(
                    ClientView { id, name: Some(id), created_at: now, last_seen: now },
                )
            },
            ..self
        }
    }

    /// The store after a record was appended under the next id.
    pub open spec fn appended(self, row: RecordView) -> DbView {
        DbView { records: self.records.push(row), last_id: (self.last_id + 1) as i64, ..self }
    }

    /// Whether row `i` is the running session `id`, of the given client where one is given.
    pub open spec fn running(self, i: int, id: i64, client: Option<Seq<char>>) -> bool {
        &&& 0 <= i < self.records.len()
        &&& self.records[i].id == id
        &&& self.records[i].status == Status::Active
        &&& client is Some ==> self.records[i].client_id == client->0
    }

    /// Whether the session `id` is running.
    pub open spec fn is_running(self, id: i64, client: Option<Seq<char>>) -> bool {
        exists|i: int| self.running(i, id, client)
    }

    /// The store without row `i`.
    pub open spec fn without_row(self, i: int) -> DbView {
        DbView { records: self.records.remove(i), ..self }
    }

    /// Where row ids are concerned: whether a record of that id is stored.
    pub open spec fn has_record(self, id: i64) -> bool {
        exists|i: int| 0 <= i < self.records.len() && #[trigger] self.records[i].id == id
    }

    /// The client that a token stands for.
    pub open spec fn client_of(self, token: Seq<char>) -> Seq<char> {
        self.api_tokens[choose|i: int|
            0 <= i < self.api_tokens.len() && #[trigger] self.api_tokens[i].token == token].client_id
    }

    /// The store after a token was entered.
    pub open spec fn with_token(self, t: TokenView) -> DbView {
        DbView { api_tokens: self.api_tokens.push(t), ..self }
    }

    /// The store without token `i`.
    pub open spec fn without_token(self, i: int) -> DbView {
        DbView { api_tokens: self.api_tokens.remove(i), ..self }
    }

    /// The store with row `i` replaced.
    pub open spec fn with_row(self, i: int, row: RecordView) -> DbView {
        DbView { records: self.records.update(i, row), ..self }
    }
}

impl RecordView {
    /// The record of a session that ended at `now`.
    pub open spec fn ended(self, now: i64) -> RecordView {
        RecordView {
            end_time: Some(now),
            duration_seconds: Some((now - self.start_time) as i64),
            status: Status::Completed,
            ..self
        }
    }

    /// The record of a session that was thrown away.
    pub open spec fn thrown_away(self) -> RecordView {
        RecordView { status: Status::Discarded, ..self }
    }

    /// The record as it is listed.
    pub open spec fn listed(self) -> ListedView {
        ListedView {
            id: self.id,
            client_id: self.client_id,
            start_time: self.start_time,
            end_time: self.end_time,
            duration_seconds: self.duration_seconds,
            command: self.command,
            alias: self.alias,
            process_id: self.process_id,
            status: status_text(self.status),
            created_at: self.created_at,
        }
    }
}

/// The text of a status.
pub open spec fn status_text(s: Status) -> Seq<char> {
    match s {
        Status::Active => "active"@,
        Status::Completed => "completed"@,
        Status::Discarded => "discarded"@,
    }
}

/// The stored form of the words of an optional command.
pub open spec fn words_of(command: Option<Seq<char>>) -> Option<Seq<char>> {
    match command {
        Some(c) => Some(tokens::stored_words(c)),
        None => None,
    }
}

/// The record of a session that starts at `now`.
pub open spec fn new_session(
    id: i64,
    client: Seq<char>,
    command: Option<Seq<char>>,
    alias: Option<Seq<char>>,
    process_id: Option<i64>,
    now: i64,
) -> RecordView {
    RecordView {
        id,
        client_id: client,
        start_time: now,
        end_time: None,
        duration_seconds: None,
        command,
        command_tokens: words_of(command),
        alias,
        process_id,
        status: Status::Active,
        created_at: now,
    }
}

/// The record of a session that is entered after the fact.
pub open spec fn past_session(
    id: i64,
    client: Seq<char>,
    start_time: i64,
    end_time: i64,
    duration_seconds: i64,
    command: Option<Seq<char>>,
    alias: Option<Seq<char>>,
) -> RecordView {
    RecordView {
        id,
        client_id: client,
        start_time,
        end_time: Some(end_time),
        duration_seconds: Some(duration_seconds),
        command,
        command_tokens: words_of(command),
        alias,
        process_id: None,
        status: Status::Completed,
        created_at: start_time,
    }
}

/// The start times of a list of records.
pub open spec fn starts(s: Seq<RecordView>) -> Seq<i64> {
    s.map_values(|r: RecordView| r.start_time)
}

/// Records as they are listed, the latest start first.
pub open spec fn latest_first(s: Seq<RecordView>) -> Seq<ListedView> {
    order::sorted(s, starts(s), true).map_values(|r: RecordView| r.listed())
}

/// The running sessions, of one client where one is given.
pub open spec fn wants_running(client: Option<Seq<char>>) -> spec_fn(RecordView) -> bool {
    |r: RecordView|
        r.status == Status::Active && (client is Some ==> r.client_id == client->0)
}

/// Whether a client filter is in force: the empty text and `__global__` stand for all clients.
pub open spec fn names_client(client: Seq<char>) -> bool {
    client.len() > 0 && client != "__global__"@
}

/// Whether a pattern filter lets an optional text pass.
pub open spec fn passes_like(value: Option<Seq<char>>, filter: Seq<char>) -> bool {
    filter.len() == 0 || (value is Some && pattern::contains_like(value->0, filter))
}

/// The records that a listing shows: those of sessions that no longer run, filtered by client, by
/// alias and by command.
pub open spec fn wants_listed(
    client: Seq<char>,
    alias: Seq<char>,
    command: Seq<char>,
) -> spec_fn(RecordView) -> bool {
    |r: RecordView|
        {
            &&& r.status != Status::Active
            &&& names_client(client) ==> r.client_id == client
            &&& passes_like(r.alias, alias)
            &&& passes_like(r.command, command)
        }
}

/// Whether a listing is refused: a pattern has too many bytes and a record is held against it. The
/// alias pattern is tried on what passes the client filter, the command pattern on what passes the
/// alias pattern too.
pub open spec fn listing_refused(
    records: Seq<RecordView>,
    client: Seq<char>,
    alias: Seq<char>,
    command: Seq<char>,
) -> bool {
    ||| pattern::too_long(alias) && order::kept(records, wants_listed(client, ""@, ""@)).len() > 0
    ||| pattern::too_long(command) && order::kept(
        records,
        wants_listed(client, alias, ""@),
    ).len() > 0
}

/// A window into a list: from `offset` on, at most `limit` items. A negative limit is no limit, a
/// negative offset is none.
pub open spec fn window<T>(s: Seq<T>, limit: int, offset: int) -> Seq<T> {
    let from = if offset < 0 {
        0
    } else if offset > s.len() {
        s.len() as int
    } else {
        offset
    };
    let to = if limit < 0 || from + limit > s.len() {
        s.len() as int
    } else {
        from + limit
    };
    s.subrange(from, to)
}

// ---------------------------------------------------------------------------------------------
// Operations
// ---------------------------------------------------------------------------------------------

/// The text of a status.
pub fn status_name(s: Status) -> (r: String)
    ensures
        r@ == status_text(s),
{
    match s {
        Status::Active => "active".to_owned(),
        Status::Completed => "completed".to_owned(),
        Status::Discarded => "discarded".to_owned(),
    }
}

/// The listed form of a stored record.
pub fn record_from_row(row: &StoredRecord) -> (r: Record)
    ensures
        r@ == row@.listed(),
{
    Record {
        id: row.id,
        client_id: row.client_id.clone(),
        start_time: row.start_time,
        end_time: row.end_time,
        duration_seconds: row.duration_seconds,
        command: copy_opt(&row.command),
        alias: copy_opt(&row.alias),
        process_id: row.process_id,
        status: status_name(row.status),
        created_at: row.created_at,
    }
}

fn names_one_client(client: &str) -> (r: bool)
    ensures
        r == names_client(client@),
{
    !client.is_empty() && !same_text(client, "__global__")
}

fn passes(value: &Option<String>, filter: &str) -> (r: bool)
    ensures
        r == passes_like(text::opt_text(*value), filter@),
{
    if filter.is_empty() {
        true
    } else {
        match value {
            Some(v) => occurs_like(v.as_str(), filter),
            None => false,
        }
    }
}

impl Database {
    /// What holds of every store.
    pub closed spec fn wf(&self) -> bool {
        self@.wf()
    }

    /// The invariant, in terms of the store's value.
    pub proof fn lemma_wf(&self)
        ensures
            self.wf() == self@.wf(),
    {
    }

    proof fn lemma_rows(&self)
        ensures
            self@.records.len() == self.records@.len(),
            self@.clients.len() == self.clients@.len(),
            self@.api_tokens.len() == self.api_tokens@.len(),
            forall|i: int| 0 <= i < self.records@.len() ==> self@.records[i] == #[trigger] self.records@[i]@,
            forall|i: int| 0 <= i < self.clients@.len() ==> self@.clients[i] == #[trigger] self.clients@[i]@,
            forall|i: int|
                0 <= i < self.api_tokens@.len() ==> self@.api_tokens[i] == #[trigger] self.api_tokens@[i]@,
    {
    }

    /// A store without any row.
    pub fn new() -> (r: Database)
        ensures
            r.wf(),
            r@ == DbView::empty(),
    {
        let r = Database {
            clients: Vec::new(),
            api_tokens: Vec::new(),
            records: Vec::new(),
            last_id: 0,
            exec_events: Vec::new(),
            last_event_id: 0,
        };
        assert(r@ =~= DbView::empty());
        r
    }

    /// The stored clients.
    pub fn clients(&self) -> (r: &Vec<Client>)
        ensures
            client_views(r@) == self@.clients,
    {
        &self.clients
    }

    /// The stored tokens.
    pub fn api_tokens(&self) -> (r: &Vec<ApiToken>)
        ensures
            token_views(r@) == self@.api_tokens,
    {
        &self.api_tokens
    }

    /// The stored records.
    pub fn records(&self) -> (r: &Vec<StoredRecord>)
        ensures
            record_views(r@) == self@.records,
    {
        &self.records
    }

    /// The stored programs that could not be started.
    pub fn exec_events(&self) -> (r: &Vec<ExecEvent>)
        ensures
            exec_event_views(r@) == self@.exec_events,
    {
        &self.exec_events
    }

    /// The last record id that was given out.
    pub fn last_id(&self) -> (r: i64)
        ensures
            r == self@.last_id,
    {
        self.last_id
    }

    fn client_index(&self, id: &str) -> (r: Option<usize>)
        ensures
            match r {
                Some(i) => i < self.clients@.len() && self@.clients[i as int].id == id@,
                None => !self@.has_client(id@),
            },
    {
        proof {
            self.lemma_rows();
        }
        for i in 0..self.clients.len()
            invariant
                forall|k: int| 0 <= k < i ==> #[trigger] self.clients@[k].id@ != id@,
        {
            if same_text(self.clients[i].id.as_str(), id) {
                return Some(i);
            }
        }
        assert forall|k: int| 0 <= k < self@.clients.len() implies #[trigger] self@.clients[k].id
            != id@ by {
            assert(self.clients@[k].id@ != id@);
        }
        None
    }

    fn running_index(&self, id: i64, client: Option<&str>) -> (r: Option<usize>)
        ensures
            match r {
                Some(i) => self@.running(i as int, id, text::opt_str(client)),
                None => !self@.is_running(id, text::opt_str(client)),
            },
    {
        for i in 0..self.records.len()
            invariant
                forall|k: int| 0 <= k < i ==> !#[trigger] self@.running(k, id, text::opt_str(client)),
        {
            proof {
                self.lemma_rows();
            }
            let row = &self.records[i];
            if row.id == id && row.status == Status::Active {
                let owned: bool = match client {
                    Some(c) => same_text(row.client_id.as_str(), c),
                    None => true,
                };
                if owned {
                    return Some(i);
                }
            }
        }
        None
    }
}

/// Enters a client, or notes that it was seen, at `now`.
pub fn ensure_client_at(db: &mut Database, client_id: &str, now: i64)
    requires
        old(db).wf(),
    ensures
        final(db).wf(),
        final(db)@ == old(db)@.seen(client_id@, now),
{
    proof {
        db.lemma_rows();
    }
    let ghost before = *db;
    match db.client_index(client_id) {
        Some(i) => {
            let mut c = Client {
                id: db.clients[i].id.clone(),
                name: copy_opt(&db.clients[i].name),
                created_at: db.clients[i].created_at,
                last_seen: now,
            };
            db.clients.set(i, c);
            proof {
                assert(before@.has_client(client_id@));
                db.lemma_rows();
                assert(db@.clients =~= before@.seen(client_id@, now).clients);
                assert(db@ =~= before@.seen(client_id@, now));
                lemma_seen_wf(before@, client_id@, now);
            }
        },
        None => {
            db.clients.push(
                Client {
                    id: client_id.to_owned(),
                    name: Some(client_id.to_owned()),
                    created_at: now,
                    last_seen: now,
                },
            );
            proof {
                db.lemma_rows();
                assert(db@.clients =~= before@.seen(client_id@, now).clients);
                assert(db@ =~= before@.seen(client_id@, now));
                lemma_seen_wf(before@, client_id@, now);
            }
        },
    }
}

/// Noting a client keeps the store well-formed and the client is then stored.
pub proof fn lemma_seen_wf(db: DbView, id: Seq<char>, now: i64)
    requires
        db.wf(),
    ensures
        db.seen(id, now).wf(),
        db.seen(id, now).has_client(id),
        forall|other: Seq<char>| #[trigger]
            db.seen(id, now).has_client(other) <==> db.has_client(other) || other == id,
{
    let after = db.seen(id, now);
    assert(after.clients.len() >= db.clients.len());
    assert forall|i: int| 0 <= i < db.clients.len() implies #[trigger] after.clients[i].id
        == db.clients[i].id by {}
    assert forall|other: Seq<char>| db.has_client(other) implies #[trigger] after.has_client(
        other,
    ) by {
        let i = choose|i: int| 0 <= i < db.clients.len() && #[trigger] db.clients[i].id == other;
        assert(after.clients[i].id == other);
    }
    assert(after.has_client(id)) by {
        if db.has_client(id) {
        } else {
            assert(after.clients[db.clients.len() as int].id == id);
        }
    }
    assert forall|other: Seq<char>| #[trigger] after.has_client(other) implies db.has_client(other)
        || other == id by {
        let i = choose|i: int| 0 <= i < after.clients.len() && #[trigger] after.clients[i].id
            == other;
        if i < db.clients.len() {
            assert(db.clients[i].id == other);
        }
    }
}

/// Appending a record of a stored client keeps the store well-formed.
pub proof fn lemma_appended_wf(db: DbView, row: RecordView)
    requires
        db.wf(),
        db.last_id < i64::MAX,
        row.id == db.last_id + 1,
        db.has_client(row.client_id),
        row.status == Status::Active ==> 0 <= row.start_time <= MAX_TIME,
    ensures
        db.appended(row).wf(),
{
    let after = db.appended(row);
    assert forall|i: int| 0 <= i < after.records.len() implies after.has_client(
        #[trigger] after.records[i].client_id,
    ) by {
        if i < db.records.len() {
            assert(db.has_client(db.records[i].client_id));
        }
        let c = after.records[i].client_id;
        let k = choose|k: int| 0 <= k < db.clients.len() && #[trigger] db.clients[k].id == c;
        assert(after.clients[k].id == c);
    }
}

/// Enters a client, or notes that it was seen just now.
pub fn ensure_client(db: &mut Database, client_id: &str)
    requires
        old(db).wf(),
    ensures
        final(db).wf(),
        exists|now: i64|
            0 <= now <= MAX_TIME && final(db)@ == #[trigger] old(db)@.seen(client_id@, now),
{
    let now: i64 = utc_now();
    ensure_client_at(db, client_id, now);
}

fn append_row(db: &mut Database, row: StoredRecord)
    requires
        old(db).wf(),
        old(db)@.last_id < i64::MAX,
        row.id == old(db)@.last_id + 1,
        old(db)@.has_client(row.client_id@),
        row.status == Status::Active ==> 0 <= row.start_time <= MAX_TIME,
    ensures
        final(db).wf(),
        final(db)@ == old(db)@.appended(row@),
{
    let ghost before = *db;
    let ghost value = row@;
    db.last_id = db.last_id + 1;
    db.records.push(row);
    proof {
        before.lemma_rows();
        db.lemma_rows();
        assert(db@.records =~= before@.appended(value).records);
        assert(db@ =~= before@.appended(value));
        lemma_appended_wf(before@, value);
    }
}

/// What starting a session at `now` leaves behind and returns.
pub open spec fn session_started(
    before: DbView,
    client: Seq<char>,
    command: Option<Seq<char>>,
    alias: Option<Seq<char>>,
    process_id: Option<i64>,
    now: i64,
    after: DbView,
    r: Result<i64, DbError>,
) -> bool {
    let noted = before.seen(client, now);
    if before.last_id == i64::MAX {
        r == Err::<i64, DbError>(DbError::Full) && after == noted
    } else {
        let id = (before.last_id + 1) as i64;
        r == Ok::<i64, DbError>(id) && after == noted.appended(
            new_session(id, client, command, alias, process_id, now),
        )
    }
}

/// Starts a session at `now` and returns its id.
pub fn start_session_at(
    db: &mut Database,
    client_id: &str,
    command: Option<&str>,
    alias: Option<&str>,
    process_id: Option<i64>,
    now: i64,
) -> (r: Result<i64, DbError>)
    requires
        old(db).wf(),
        0 <= now <= MAX_TIME,
    ensures
        final(db).wf(),
        session_started(
            old(db)@,
            client_id@,
            text::opt_str(command),
            text::opt_str(alias),
            process_id,
            now,
            final(db)@,
            r,
        ),
{
    proof {
        lemma_seen_wf(db@, client_id@, now);
    }
    ensure_client_at(db, client_id, now);
    if db.last_id == i64::MAX {
        return Err(DbError::Full);
    }
    let tokens = match command {
        Some(c) => command_to_tokens(c),
        None => None,
    };
    let id: i64 = db.last_id + 1;
    let row = StoredRecord {
        id,
        client_id: client_id.to_owned(),
        start_time: now,
        end_time: None,
        duration_seconds: None,
        command: own_opt(command),
        command_tokens: tokens,
        alias: own_opt(alias),
        process_id,
        status: Status::Active,
        created_at: now,
    };
    append_row(db, row);
    Ok(id)
}

/// Starts a session now and returns its id.
pub fn start_session(
    db: &mut Database,
    client_id: &str,
    command: Option<&str>,
    alias: Option<&str>,
    process_id: Option<i64>,
) -> (r: Result<i64, DbError>)
    requires
        old(db).wf(),
    ensures
        final(db).wf(),
        exists|now: i64|
            0 <= now <= MAX_TIME && #[trigger] session_started(
                old(db)@,
                client_id@,
                text::opt_str(command),
                text::opt_str(alias),
                process_id,
                now,
                final(db)@,
                r,
            ),
{
    let now: i64 = utc_now();
    start_session_at(db, client_id, command, alias, process_id, now)
}

/// What ending the session `id` at `now` leaves behind and returns: its duration, or `None` where
/// no such session runs.
pub open spec fn session_ended(
    before: DbView,
    id: i64,
    client: Option<Seq<char>>,
    now: i64,
    after: DbView,
    r: Option<i64>,
) -> bool {
    match r {
        Some(duration) => exists|i: int|
            {
                &&& #[trigger] before.running(i, id, client)
                &&& after == before.with_row(i, before.records[i].ended(now))
                &&& duration == now - before.records[i].start_time
            },
        None => !before.is_running(id, client) && after == before,
    }
}

/// What throwing the session `id` away leaves behind and returns: whether it ran.
pub open spec fn session_discarded(
    before: DbView,
    id: i64,
    client: Option<Seq<char>>,
    after: DbView,
    r: bool,
) -> bool {
    if r {
        exists|i: int|
            {
                &&& #[trigger] before.running(i, id, client)
                &&& after == before.with_row(i, before.records[i].thrown_away())
            }
    } else {
        !before.is_running(id, client) && after == before
    }
}

/// Replacing a row by one of the same id and client that no longer runs keeps the store
/// well-formed.
pub proof fn lemma_with_row_wf(db: DbView, i: int, row: RecordView)
    requires
        db.wf(),
        0 <= i < db.records.len(),
        row.id == db.records[i].id,
        row.client_id == db.records[i].client_id,
        row.status != Status::Active,
    ensures
        db.with_row(i, row).wf(),
{
    let after = db.with_row(i, row);
    assert forall|j: int| 0 <= j < after.records.len() implies after.has_client(
        #[trigger] after.records[j].client_id,
    ) by {
        assert(db.has_client(db.records[j].client_id));
        let c = after.records[j].client_id;
        let k = choose|k: int| 0 <= k < db.clients.len() && #[trigger] db.clients[k].id == c;
        assert(after.clients[k].id == c);
    }
}

fn finish(db: &mut Database, id: i64, client: Option<&str>, now: i64) -> (r: Option<i64>)
    requires
        old(db).wf(),
        0 <= now <= MAX_TIME,
    ensures
        final(db).wf(),
        session_ended(old(db)@, id, text::opt_str(client), now, final(db)@, r),
{
    let ghost before = *db;
    match db.running_index(id, client) {
        Some(i) => {
            proof {
                before.lemma_rows();
            }
            let old_row = &db.records[i];
            let duration: i64 = now - old_row.start_time;
            let row = StoredRecord {
                id: old_row.id,
                client_id: old_row.client_id.clone(),
                start_time: old_row.start_time,
                end_time: Some(now),
                duration_seconds: Some(duration),
                command: copy_opt(&old_row.command),
                command_tokens: copy_opt(&old_row.command_tokens),
                alias: copy_opt(&old_row.alias),
                process_id: old_row.process_id,
                status: Status::Completed,
                created_at: old_row.created_at,
            };
            let ghost value = row@;
            db.records.set(i, row);
            proof {
                db.lemma_rows();
                assert(value == before@.records[i as int].ended(now));
                assert(db@.records =~= before@.with_row(i as int, value).records);
                assert(db@ =~= before@.with_row(i as int, value));
                lemma_with_row_wf(before@, i as int, value);
                assert(before@.running(i as int, id, text::opt_str(client)));
            }
            Some(duration)
        },
        None => None,
    }
}

fn throw_away(db: &mut Database, id: i64, client: Option<&str>) -> (r: bool)
    requires
        old(db).wf(),
    ensures
        final(db).wf(),
        session_discarded(old(db)@, id, text::opt_str(client), final(db)@, r),
{
    let ghost before = *db;
    match db.running_index(id, client) {
        Some(i) => {
            proof {
                before.lemma_rows();
            }
            let old_row = &db.records[i];
            let row = StoredRecord {
                id: old_row.id,
                client_id: old_row.client_id.clone(),
                start_time: old_row.start_time,
                end_time: old_row.end_time,
                duration_seconds: old_row.duration_seconds,
                command: copy_opt(&old_row.command),
                command_tokens: copy_opt(&old_row.command_tokens),
                alias: copy_opt(&old_row.alias),
                process_id: old_row.process_id,
                status: Status::Discarded,
                created_at: old_row.created_at,
            };
            let ghost value = row@;
            db.records.set(i, row);
            proof {
                db.lemma_rows();
                assert(value == before@.records[i as int].thrown_away());
                assert(db@.records =~= before@.with_row(i as int, value).records);
                assert(db@ =~= before@.with_row(i as int, value));
                lemma_with_row_wf(before@, i as int, value);
                assert(before@.running(i as int, id, text::opt_str(client)));
            }
            true
        },
        None => false,
    }
}

/// Ends a running session of a client at `now` and returns its duration.
pub fn end_session_at(db: &mut Database, id: i64, client_id: &str, now: i64) -> (r: Option<i64>)
    requires
        old(db).wf(),
        0 <= now <= MAX_TIME,
    ensures
        final(db).wf(),
        session_ended(old(db)@, id, Some(client_id@), now, final(db)@, r),
{
    finish(db, id, Some(client_id), now)
}

/// Ends a running session of a client now and returns its duration.
pub fn end_session(db: &mut Database, id: i64, client_id: &str) -> (r: Option<i64>)
    requires
        old(db).wf(),
    ensures
        final(db).wf(),
        exists|now: i64|
            0 <= now <= MAX_TIME && #[trigger] session_ended(
                old(db)@,
                id,
                Some(client_id@),
                now,
                final(db)@,
                r,
            ),
{
    let now: i64 = utc_now();
    end_session_at(db, id, client_id, now)
}

/// Throws a running session of a client away; tells whether it ran.
pub fn discard_session(db: &mut Database, id: i64, client_id: &str) -> (r: bool)
    requires
        old(db).wf(),
    ensures
        final(db).wf(),
        session_discarded(old(db)@, id, Some(client_id@), final(db)@, r),
{
    throw_away(db, id, Some(client_id))
}

/// Ends a running session of any client at `now` and returns its duration.
pub fn end_session_admin_at(db: &mut Database, id: i64, now: i64) -> (r: Option<i64>)
    requires
        old(db).wf(),
        0 <= now <= MAX_TIME,
    ensures
        final(db).wf(),
        session_ended(old(db)@, id, None, now, final(db)@, r),
{
    finish(db, id, None, now)
}

/// Ends a running session of any client now and returns its duration.
pub fn end_session_admin(db: &mut Database, id: i64) -> (r: Option<i64>)
    requires
        old(db).wf(),
    ensures
        final(db).wf(),
        exists|now: i64|
            0 <= now <= MAX_TIME && #[trigger] session_ended(
                old(db)@,
                id,
                None,
                now,
                final(db)@,
                r,
            ),
{
    let now: i64 = utc_now();
    end_session_admin_at(db, id, now)
}

/// Throws a running session of any client away; tells whether it ran.
pub fn discard_session_admin(db: &mut Database, id: i64) -> (r: bool)
    requires
        old(db).wf(),
    ensures
        final(db).wf(),
        session_discarded(old(db)@, id, None, final(db)@, r),
{
    throw_away(db, id, None)
}

/// The records at the given positions.
pub open spec fn rows_at(rows: Seq<RecordView>, at: Seq<usize>) -> Seq<RecordView> {
    at.map_values(|p: usize| rows[p as int])
}

/// The positions of the records at the given positions, sorted by start time, the latest first.
fn by_latest_start(db: &Database, at: &Vec<usize>) -> (r: Vec<usize>)
    requires
        forall|i: int| 0 <= i < at@.len() ==> #[trigger] at@[i] < db.records@.len(),
    ensures
        forall|i: int| 0 <= i < r@.len() ==> #[trigger] r@[i] < db.records@.len(),
        rows_at(db@.records, r@) == order::sorted(
            rows_at(db@.records, at@),
            starts(rows_at(db@.records, at@)),
            true,
        ),
{
    let ghost rows = rows_at(db@.records, at@);
    proof {
        db.lemma_rows();
    }
    let mut keys: Vec<i64> = Vec::new();
    for i in 0..at.len()
        invariant
            forall|k: int| 0 <= k < at@.len() ==> #[trigger] at@[k] < db.records@.len(),
            rows == rows_at(db@.records, at@),
            keys@.len() == i,
            forall|k: int| 0 <= k < i ==> #[trigger] keys@[k] == rows[k].start_time,
            forall|k: int|
                0 <= k < db.records@.len() ==> db@.records[k] == #[trigger] db.records@[k]@,
    {
        assert(rows[i as int] == db@.records[at@[i as int] as int]);
        keys.push(db.records[at[i]].start_time);
    }
    assert(keys@ =~= starts(rows));
    let sorted = sort_keys(&keys, true);
    let mut r: Vec<usize> = Vec::new();
    for i in 0..sorted.len()
        invariant
            forall|k: int| 0 <= k < at@.len() ==> #[trigger] at@[k] < db.records@.len(),
            order::arranged(keys@, true, 0, keys@.len() as int, order::positions(sorted@)),
            keys@.len() == at@.len(),
            r@.len() == i,
            forall|k: int| 0 <= k < i ==> #[trigger] r@[k] == at@[sorted@[k] as int],
            forall|k: int| 0 <= k < i ==> #[trigger] r@[k] < db.records@.len(),
    {
        assert(order::positions(sorted@)[i as int] == sorted@[i as int]);
        r.push(at[sorted[i]]);
    }
    proof {
        let positions = order::order(keys@, true);
        assert(positions == order::positions(sorted@));
        assert forall|k: int| 0 <= k < r@.len() implies #[trigger] rows_at(db@.records, r@)[k]
            == rows[positions[k]] by {
            assert(r@[k] == at@[sorted@[k] as int]);
            assert(positions[k] == sorted@[k]);
        }
        assert(rows_at(db@.records, r@) =~= order::sorted(rows, starts(rows), true));
    }
    r
}

/// The listed records at the positions `from..to` of a list of positions.
fn listed_rows(db: &Database, at: &Vec<usize>, from: usize, to: usize) -> (r: Vec<Record>)
    requires
        forall|i: int| 0 <= i < at@.len() ==> #[trigger] at@[i] < db.records@.len(),
        from <= to <= at@.len(),
    ensures
        listed_views(r@) == rows_at(db@.records, at@).map_values(
            |row: RecordView| row.listed(),
        ).subrange(from as int, to as int),
{
    let mut r: Vec<Record> = Vec::new();
    proof {
        db.lemma_rows();
    }
    for i in from..to
        invariant
            forall|k: int| 0 <= k < at@.len() ==> #[trigger] at@[k] < db.records@.len(),
            from <= to <= at@.len(),
            r@.len() == i - from,
            forall|k: int|
                0 <= k < r@.len() ==> #[trigger] r@[k]@ == db@.records[at@[from + k] as int].listed(),
            forall|k: int|
                0 <= k < db.records@.len() ==> db@.records[k] == #[trigger] db.records@[k]@,
    {
        r.push(record_from_row(&db.records[at[i]]));
    }
    proof {
        let all = rows_at(db@.records, at@).map_values(|row: RecordView| row.listed());
        assert(listed_views(r@) =~= all.subrange(from as int, to as int));
    }
    r
}

fn running_positions(db: &Database, client: Option<&str>) -> (r: Vec<usize>)
    ensures
        forall|i: int| 0 <= i < r@.len() ==> #[trigger] r@[i] < db.records@.len(),
        rows_at(db@.records, r@) == order::kept(
            db@.records,
            wants_running(text::opt_str(client)),
        ),
{
    let ghost wanted = wants_running(text::opt_str(client));
    let mut r: Vec<usize> = Vec::new();
    proof {
        db.lemma_rows();
        assert(db@.records.take(0) =~= Seq::<RecordView>::empty());
        assert(rows_at(db@.records, r@) =~= order::kept(db@.records.take(0), wanted));
    }
    for i in 0..db.records.len()
        invariant
            wanted == wants_running(text::opt_str(client)),
            db@.records.len() == db.records@.len(),
            forall|k: int|
                0 <= k < db.records@.len() ==> db@.records[k] == #[trigger] db.records@[k]@,
            forall|k: int| 0 <= k < r@.len() ==> #[trigger] r@[k] < db.records@.len(),
            rows_at(db@.records, r@) == order::kept(db@.records.take(i as int), wanted),
    {
        let row = &db.records[i];
        let owned: bool = match client {
            Some(c) => same_text(row.client_id.as_str(), c),
            None => true,
        };
        let ghost before = r@;
        proof {
            order::lemma_kept_step(db@.records, wanted, i as int);
        }
        if row.status == Status::Active && owned {
            r.push(i);
            assert(rows_at(db@.records, r@) =~= rows_at(db@.records, before).push(
                db@.records[i as int],
            ));
        }
    }
    assert(db@.records.take(db@.records.len() as int) =~= db@.records);
    r
}

/// The running sessions of a client, the latest start first.
pub fn get_orphaned_sessions(db: &Database, client_id: &str) -> (r: Vec<Record>)
    ensures
        listed_views(r@) == latest_first(
            order::kept(db@.records, wants_running(Some(client_id@))),
        ),
{
    let hits = running_positions(db, Some(client_id));
    let sorted = by_latest_start(db, &hits);
    let r = listed_rows(db, &sorted, 0, sorted.len());
    proof {
        let all = rows_at(db@.records, sorted@).map_values(|row: RecordView| row.listed());
        assert(all.subrange(0, all.len() as int) =~= all);
        assert(all =~= latest_first(order::kept(db@.records, wants_running(Some(client_id@)))));
    }
    r
}

/// The running sessions of all clients, the latest start first.
pub fn get_orphaned_sessions_admin(db: &Database) -> (r: Vec<Record>)
    ensures
        listed_views(r@) == latest_first(order::kept(db@.records, wants_running(None))),
        db.wf() ==> forall|i: int|
            0 <= i < r@.len() ==> 0 <= (#[trigger] r@[i]).start_time <= MAX_TIME,
{
    let hits = running_positions(db, None);
    let sorted = by_latest_start(db, &hits);
    let r = listed_rows(db, &sorted, 0, sorted.len());
    proof {
        let all = rows_at(db@.records, sorted@).map_values(|row: RecordView| row.listed());
        assert(all.subrange(0, all.len() as int) =~= all);
        assert(all =~= latest_first(order::kept(db@.records, wants_running(None))));
        assert(listed_views(r@) == latest_first(order::kept(db@.records, wants_running(None))));
        if db.wf() {
            lemma_running_starts(db@, None);
            assert forall|i: int| 0 <= i < r@.len() implies 0 <= (#[trigger] r@[i]).start_time
                <= MAX_TIME by {
                assert(listed_views(r@)[i] == r@[i]@);
            }
        }
    }
    r
}

/// The running sessions of a well-formed store started at instants of the calendar.
pub proof fn lemma_running_starts(db: DbView, client: Option<Seq<char>>)
    requires
        db.wf(),
    ensures
        forall|i: int|
            0 <= i < latest_first(order::kept(db.records, wants_running(client))).len() ==> 0
                <= (#[trigger] latest_first(
                order::kept(db.records, wants_running(client)),
            )[i]).start_time <= MAX_TIME,
{
    let wanted = wants_running(client);
    let rows = order::kept(db.records, wanted);
    let sorted = order::sorted(rows, starts(rows), true);
    order::lemma_kept_member(db.records, wanted);
    order::lemma_sorted_member(rows, starts(rows), true);
    assert forall|i: int| 0 <= i < latest_first(rows).len() implies 0 <= (#[trigger] latest_first(
        rows,
    )[i]).start_time <= MAX_TIME by {
        assert(rows.contains(sorted[i]));
        let k = choose|k: int| 0 <= k < rows.len() && rows[k] == sorted[i];
        assert(wanted(rows[k]) && db.records.contains(rows[k]));
        let j = choose|j: int| 0 <= j < db.records.len() && db.records[j] == rows[k];
        assert(db.records[j].status == Status::Active);
    }
}

fn listed_positions(db: &Database, client: &str, alias: &str, command: &str) -> (r: Vec<usize>)
    ensures
        forall|i: int| 0 <= i < r@.len() ==> #[trigger] r@[i] < db.records@.len(),
        rows_at(db@.records, r@) == order::kept(
            db@.records,
            wants_listed(client@, alias@, command@),
        ),
{
    let ghost wanted = wants_listed(client@, alias@, command@);
    let one_client: bool = names_one_client(client);
    let mut r: Vec<usize> = Vec::new();
    proof {
        db.lemma_rows();
        assert(db@.records.take(0) =~= Seq::<RecordView>::empty());
        assert(rows_at(db@.records, r@) =~= order::kept(db@.records.take(0), wanted));
    }
    for i in 0..db.records.len()
        invariant
            wanted == wants_listed(client@, alias@, command@),
            one_client == names_client(client@),
            db@.records.len() == db.records@.len(),
            forall|k: int|
                0 <= k < db.records@.len() ==> db@.records[k] == #[trigger] db.records@[k]@,
            forall|k: int| 0 <= k < r@.len() ==> #[trigger] r@[k] < db.records@.len(),
            rows_at(db@.records, r@) == order::kept(db@.records.take(i as int), wanted),
    {
        let row = &db.records[i];
        let ghost before = r@;
        proof {
            order::lemma_kept_step(db@.records, wanted, i as int);
        }
        if row.status != Status::Active && (!one_client || same_text(row.client_id.as_str(), client))
            && passes(&row.alias, alias) && passes(&row.command, command) {
            assert(wanted(db@.records[i as int]));
            r.push(i);
            assert(rows_at(db@.records, r@) =~= rows_at(db@.records, before).push(
                db@.records[i as int],
            ));
        }
    }
    assert(db@.records.take(db@.records.len() as int) =~= db@.records);
    r
}

/// One page of the records of sessions that no longer run, the latest start first, and how many
/// such records there are. Pages count from 1.
pub fn list_records_page(
    db: &Database,
    client_id: &str,
    alias_filter: &str,
    command_filter: &str,
    page: i64,
    per_page: i64,
) -> (r: Result<(Vec<Record>, i64), DbError>)
    requires
        db.wf(),
        crate::arith::fits(page - 1),
        crate::arith::fits((page - 1) * per_page),
    ensures
        ({
            let hits = order::kept(
                db@.records,
                wants_listed(client_id@, alias_filter@, command_filter@),
            );
            match r {
                Ok((records, total)) => {
                    &&& !listing_refused(db@.records, client_id@, alias_filter@, command_filter@)
                    &&& listed_views(records@) == window(
                        latest_first(hits),
                        per_page as int,
                        (page - 1) * per_page,
                    )
                    &&& total == hits.len()
                },
                Err(e) => e == DbError::PatternTooLong && listing_refused(
                    db@.records,
                    client_id@,
                    alias_filter@,
                    command_filter@,
                ),
            }
        }),
{
    if exceeds_limit(alias_filter) {
        let tried = listed_positions(db, client_id, "", "");
        assert(rows_at(db@.records, tried@).len() == tried@.len());
        if tried.len() > 0 {
            return Err(DbError::PatternTooLong);
        }
    }
    if exceeds_limit(command_filter) {
        let tried = listed_positions(db, client_id, alias_filter, "");
        assert(rows_at(db@.records, tried@).len() == tried@.len());
        if tried.len() > 0 {
            return Err(DbError::PatternTooLong);
        }
    }
    let offset: i64 = (page - 1) * per_page;
    let hits = listed_positions(db, client_id, alias_filter, command_filter);
    let sorted = by_latest_start(db, &hits);
    let ghost rows = order::kept(db@.records, wants_listed(client_id@, alias_filter@, command_filter@));
    proof {
        db.lemma_wf();
        lemma_record_count(db@);
        order::lemma_kept_len(db@.records, wants_listed(client_id@, alias_filter@, command_filter@));
        assert(rows_at(db@.records, hits@).len() == hits@.len());
    }
    let total: i64 = hits.len() as i64;
    let from: i64 = if offset < 0 {
        0
    } else if offset > total {
        total
    } else {
        offset
    };
    let to: i64 = if per_page < 0 || per_page > total - from {
        total
    } else {
        from + per_page
    };
    proof {
        let all = rows_at(db@.records, sorted@).map_values(|row: RecordView| row.listed());
        assert(all =~= latest_first(rows));
        order::lemma_sorted_len(rows, starts(rows), true);
        assert(rows_at(db@.records, sorted@).len() == sorted@.len());
    }
    let r = listed_rows(db, &sorted, from as usize, to as usize);
    Ok((r, total))
}

/// A well-formed store holds no more records than ids were given out.
pub proof fn lemma_record_count(db: DbView)
    requires
        db.wf(),
    ensures
        db.records.len() <= db.last_id,
{
    lemma_id_floor(db, db.records.len() as int);
    if db.records.len() > 0 {
        let last = db.records.len() - 1;
        assert(db.records[last].id >= last + 1);
    }
}

proof fn lemma_id_floor(db: DbView, n: int)
    requires
        db.wf(),
        0 <= n <= db.records.len(),
    ensures
        forall|i: int| 0 <= i < n ==> #[trigger] db.records[i].id >= i + 1,
    decreases n,
{
    if n > 0 {
        lemma_id_floor(db, n - 1);
        if n > 1 {
            assert(db.records[n - 2].id < db.records[n - 1].id);
        }
    }
}

/// The client ids that occur in the records, as items without a value.
pub open spec fn client_items(s: Seq<RecordView>) -> Seq<tally::Item> {
    s.map_values(|r: RecordView| tally::Item { key: r.client_id, seconds: 0 })
}

/// Whether `names` are the clients that have records, each once, in text order.
pub open spec fn lists_clients(d: DbView, names: Seq<Seq<char>>) -> bool {
    &&& forall|i: int, j: int|
        0 <= i < j < names.len() ==> text::before(#[trigger] names[i], #[trigger] names[j])
    &&& forall|name: Seq<char>| #[trigger]
        names.contains(name) <==> has_records(d, name)
}

/// Whether a client has records.
pub open spec fn has_records(d: DbView, client: Seq<char>) -> bool {
    exists|k: int| 0 <= k < d.records.len() && #[trigger] d.records[k].client_id == client
}

/// The clients that have records, each once, in text order.
pub fn distinct_client_ids(db: &Database) -> (r: Vec<String>)
    requires
        db.wf(),
    ensures
        lists_clients(db@, text::texts(r@)),
{
    proof {
        db.lemma_wf();
        db.lemma_rows();
        lemma_record_count(db@);
    }
    let mut t = Tally::new();
    let ghost items = client_items(db@.records);
    assert(items.take(0) =~= Seq::<tally::Item>::empty());
    for i in 0..db.records.len()
        invariant
            db@.records.len() == db.records@.len() <= i64::MAX,
            forall|k: int|
                0 <= k < db.records@.len() ==> db@.records[k] == #[trigger] db.records@[k]@,
            items == client_items(db@.records),
            t.wf(),
            t.items() == items.take(i as int),
    {
        proof {
            assert(items.take(i as int).push(items[i as int]) =~= items.take(i + 1));
            tally::lemma_zero_tally(items.take(i + 1));
        }
        let fitted = t.enter(db.records[i].client_id.as_str(), 0);
        assert(fitted);
    }
    assert(items.take(items.len() as int) =~= items);
    let groups = t.into_groups();
    let ghost views = tally::group_views(groups@);
    let mut r: Vec<String> = Vec::new();
    for i in 0..groups.len()
        invariant
            r@.len() == i,
            forall|k: int| 0 <= k < i ==> #[trigger] r@[k]@ == groups@[k].key@,
    {
        r.push(groups[i].key.clone());
    }
    proof {
        let names = text::texts(r@);
        assert forall|i: int, j: int| 0 <= i < j < names.len() implies text::before(
            #[trigger] names[i],
            #[trigger] names[j],
        ) by {
            assert(text::before(views[i].key, views[j].key));
        }
        assert forall|name: Seq<char>| #[trigger] names.contains(name) <==> has_records(
            db@,
            name,
        ) by {
            if names.contains(name) {
                let i = choose|i: int| 0 <= i < names.len() && names[i] == name;
                assert(views[i].times > 0 && views[i].key == name);
                let k = tally::lemma_value_origin(items, name);
                assert(db@.records[k].client_id == name);
            }
            if has_records(db@, name) {
                let k = choose|k: int|
                    0 <= k < db@.records.len() && #[trigger] db@.records[k].client_id == name;
                assert(items[k].key == name);
                tally::lemma_value_present(items, k);
                assert(tally::values_of(items, name).len() > 0);
                let i = choose|i: int| 0 <= i < views.len() && #[trigger] views[i].key == name;
                assert(names[i] == name);
            }
        }
    }
    r
}

/// The clients, the one seen last first.
pub fn list_clients(db: &Database) -> (r: Vec<ClientInfo>)
    ensures
        info_views(r@) == order::sorted(
            db@.clients,
            db@.clients.map_values(|c: ClientView| c.last_seen),
            true,
        ),
{
    proof {
        db.lemma_rows();
    }
    let mut keys: Vec<i64> = Vec::new();
    for i in 0..db.clients.len()
        invariant
            keys@.len() == i,
            forall|k: int| 0 <= k < i ==> #[trigger] keys@[k] == db.clients@[k].last_seen,
    {
        keys.push(db.clients[i].last_seen);
    }
    assert(keys@ =~= db@.clients.map_values(|c: ClientView| c.last_seen));
    let sorted = sort_keys(&keys, true);
    let mut r: Vec<ClientInfo> = Vec::new();
    for i in 0..sorted.len()
        invariant
            order::arranged(keys@, true, 0, keys@.len() as int, order::positions(sorted@)),
            keys@.len() == db.clients@.len(),
            r@.len() == i,
            forall|k: int| 0 <= k < i ==> #[trigger] r@[k]@ == db.clients@[sorted@[k] as int]@,
    {
        assert(order::positions(sorted@)[i as int] == sorted@[i as int]);
        let c = &db.clients[sorted[i]];
        r.push(
            ClientInfo {
                id: c.id.clone(),
                name: copy_opt(&c.name),
                created_at: c.created_at,
                last_seen: c.last_seen,
            },
        );
    }
    proof {
        assert forall|k: int| 0 <= k < r@.len() implies #[trigger] info_views(r@)[k]
            == db@.clients[order::order(keys@, true)[k]] by {
            assert(order::positions(sorted@)[k] == sorted@[k]);
        }
        assert(info_views(r@) =~= order::sorted(db@.clients, keys@, true));
    }
    r
}

/// Whether the token is stored, and the client that it stands for.
pub fn verify_api_token(db: &Database, token: &str) -> (r: (bool, String))
    requires
        db.wf(),
    ensures
        r.0 == db@.has_token(token@),
        r.1@ == (if db@.has_token(token@) {
            db@.client_of(token@)
        } else {
            Seq::empty()
        }),
{
    proof {
        db.lemma_rows();
        db.lemma_wf();
    }
    match token_index(db, token) {
        Some(i) => {
            assert(db@.api_tokens[i as int].token == token@);
            (true, db.api_tokens[i].client_id.clone())
        },
        None => (false, String::new()),
    }
}

fn token_index(db: &Database, token: &str) -> (r: Option<usize>)
    ensures
        match r {
            Some(i) => i < db.api_tokens@.len() && db@.api_tokens[i as int].token == token@,
            None => !db@.has_token(token@),
        },
{
    proof {
        db.lemma_rows();
    }
    for i in 0..db.api_tokens.len()
        invariant
            forall|k: int| 0 <= k < i ==> #[trigger] db.api_tokens@[k].token@ != token@,
    {
        if same_text(db.api_tokens[i].token.as_str(), token) {
            return Some(i);
        }
    }
    assert forall|k: int| 0 <= k < db@.api_tokens.len() implies #[trigger] db@.api_tokens[k].token
        != token@ by {
        assert(db.api_tokens@[k].token@ != token@);
    }
    None
}

/// The tokens, the one made last first.
pub fn list_api_tokens(db: &Database) -> (r: Vec<ApiToken>)
    ensures
        token_views(r@) == order::sorted(
            db@.api_tokens,
            db@.api_tokens.map_values(|t: TokenView| t.created_at),
            true,
        ),
{
    proof {
        db.lemma_rows();
    }
    let mut keys: Vec<i64> = Vec::new();
    for i in 0..db.api_tokens.len()
        invariant
            keys@.len() == i,
            forall|k: int| 0 <= k < i ==> #[trigger] keys@[k] == db.api_tokens@[k].created_at,
    {
        keys.push(db.api_tokens[i].created_at);
    }
    assert(keys@ =~= db@.api_tokens.map_values(|t: TokenView| t.created_at));
    let sorted = sort_keys(&keys, true);
    let mut r: Vec<ApiToken> = Vec::new();
    for i in 0..sorted.len()
        invariant
            order::arranged(keys@, true, 0, keys@.len() as int, order::positions(sorted@)),
            keys@.len() == db.api_tokens@.len(),
            r@.len() == i,
            forall|k: int| 0 <= k < i ==> #[trigger] r@[k]@ == db.api_tokens@[sorted@[k] as int]@,
    {
        assert(order::positions(sorted@)[i as int] == sorted@[i as int]);
        let t = &db.api_tokens[sorted[i]];
        r.push(
            ApiToken {
                token: t.token.clone(),
                client_id: t.client_id.clone(),
                description: copy_opt(&t.description),
                created_at: t.created_at,
            },
        );
    }
    proof {
        assert forall|k: int| 0 <= k < r@.len() implies #[trigger] token_views(r@)[k]
            == db@.api_tokens[order::order(keys@, true)[k]] by {
            assert(order::positions(sorted@)[k] == sorted@[k]);
        }
        assert(token_views(r@) =~= order::sorted(db@.api_tokens, keys@, true));
    }
    r
}

/// What entering a token at `now` leaves behind and returns: an error, and no change, where the
/// token is already stored.
pub open spec fn token_added(
    before: DbView,
    token: Seq<char>,
    client: Seq<char>,
    description: Option<Seq<char>>,
    now: i64,
    after: DbView,
    r: Result<(), DbError>,
) -> bool {
    if before.has_token(token) {
        r == Err::<(), DbError>(DbError::DuplicateToken) && after == before
    } else {
        r == Ok::<(), DbError>(()) && after == before.with_token(
            TokenView { token, client_id: client, description, created_at: now },
        )
    }
}

/// Enters a token at `now`.
pub fn add_api_token_at(
    db: &mut Database,
    token: &str,
    client_id: &str,
    description: Option<&str>,
    now: i64,
) -> (r: Result<(), DbError>)
    requires
        old(db).wf(),
    ensures
        final(db).wf(),
        token_added(
            old(db)@,
            token@,
            client_id@,
            text::opt_str(description),
            now,
            final(db)@,
            r,
        ),
{
    let ghost before = *db;
    proof {
        db.lemma_rows();
    }
    if let Some(i) = token_index(db, token) {
        assert(db@.api_tokens[i as int].token == token@);
        return Err(DbError::DuplicateToken);
    }
    let t = ApiToken {
        token: token.to_owned(),
        client_id: client_id.to_owned(),
        description: own_opt(description),
        created_at: now,
    };
    let ghost value = t@;
    db.api_tokens.push(t);
    proof {
        db.lemma_rows();
        assert(db@ =~= before@.with_token(value));
        lemma_clients_same(before@, db@);
        assert forall|i: int, j: int| 0 <= i < j < db@.api_tokens.len() implies #[trigger] db@.api_tokens[i].token
            != #[trigger] db@.api_tokens[j].token by {
            assert(db@.api_tokens[i] == before@.api_tokens[i]);
        }
    }
    Ok(())
}

proof fn lemma_clients_same(a: DbView, b: DbView)
    requires
        a.clients == b.clients,
    ensures
        forall|id: Seq<char>| #[trigger] a.has_client(id) ==> b.has_client(id),
{
    assert forall|id: Seq<char>| #[trigger] a.has_client(id) implies b.has_client(id) by {
        let k = choose|k: int| 0 <= k < a.clients.len() && #[trigger] a.clients[k].id == id;
        assert(b.clients[k].id == id);
    }
}

/// Enters a token now.
pub fn add_api_token(
    db: &mut Database,
    token: &str,
    client_id: &str,
    description: Option<&str>,
) -> (r: Result<(), DbError>)
    requires
        old(db).wf(),
    ensures
        final(db).wf(),
        exists|now: i64|
            0 <= now <= MAX_TIME && #[trigger] token_added(
                old(db)@,
                token@,
                client_id@,
                text::opt_str(description),
                now,
                final(db)@,
                r,
            ),
{
    let now: i64 = utc_now();
    add_api_token_at(db, token, client_id, description, now)
}

/// What deleting a token leaves behind and returns: whether it was stored.
pub open spec fn token_deleted(before: DbView, token: Seq<char>, after: DbView, r: bool) -> bool {
    if r {
        exists|i: int|
            {
                &&& 0 <= i < before.api_tokens.len()
                &&& #[trigger] before.api_tokens[i].token == token
                &&& after == before.without_token(i)
            }
    } else {
        !before.has_token(token) && after == before
    }
}

/// Deletes a token; tells whether it was stored.
pub fn delete_api_token(db: &mut Database, token: &str) -> (r: bool)
    requires
        old(db).wf(),
    ensures
        final(db).wf(),
        token_deleted(old(db)@, token@, final(db)@, r),
{
    let ghost before = *db;
    proof {
        db.lemma_rows();
    }
    match token_index(db, token) {
        Some(i) => {
            let gone = db.api_tokens.remove(i);
            proof {
                db.lemma_rows();
                assert(db@.api_tokens =~= before@.api_tokens.remove(i as int));
                assert(db@ =~= before@.without_token(i as int));
                lemma_clients_same(before@, db@);
                assert(before@.api_tokens[i as int].token == token@);
                assert forall|a: int, b: int| 0 <= a < b < db@.api_tokens.len() implies #[trigger] db@.api_tokens[a].token
                    != #[trigger] db@.api_tokens[b].token by {
                    let a0 = if a < i {
                        a
                    } else {
                        a + 1
                    };
                    let b0 = if b < i {
                        b
                    } else {
                        b + 1
                    };
                    assert(before@.api_tokens[a0].token != before@.api_tokens[b0].token);
                }
            }
            true
        },
        None => false,
    }
}

/// What deleting a record leaves behind and returns: whether it was stored.
pub open spec fn record_deleted(before: DbView, id: i64, after: DbView, r: bool) -> bool {
    if r {
        exists|i: int|
            {
                &&& 0 <= i < before.records.len()
                &&& #[trigger] before.records[i].id == id
                &&& after == before.without_row(i)
            }
    } else {
        !before.has_record(id) && after == before
    }
}

/// Deletes a record; tells whether it was stored.
pub fn delete_record(db: &mut Database, id: i64) -> (r: bool)
    requires
        old(db).wf(),
    ensures
        final(db).wf(),
        record_deleted(old(db)@, id, final(db)@, r),
{
    let ghost before = *db;
    let n: usize = db.records.len();
    for i in 0..n
        invariant
            *db == before,
            before@ == old(db)@,
            n == db.records@.len(),
            before.wf(),
            forall|k: int| 0 <= k < i ==> #[trigger] before@.records[k].id != id,
    {
        proof {
            before.lemma_rows();
        }
        if db.records[i].id == id {
            let gone = db.records.remove(i);
            proof {
                db.lemma_rows();
                assert(db@.records =~= before@.records.remove(i as int));
                assert(db@ =~= before@.without_row(i as int));
                assert(before@.records[i as int].id == id);
                lemma_without_row_wf(before@, i as int);
            }
            return true;
        }
    }
    proof {
        before.lemma_rows();
    }
    false
}

/// Deleting a row keeps the store well-formed.
pub proof fn lemma_without_row_wf(db: DbView, i: int)
    requires
        db.wf(),
        0 <= i < db.records.len(),
    ensures
        db.without_row(i).wf(),
{
    let after = db.without_row(i);
    lemma_clients_same(db, after);
    assert forall|a: int, b: int| 0 <= a < b < after.records.len() implies #[trigger] after.records[a].id
        < #[trigger] after.records[b].id by {
        let a0 = if a < i {
            a
        } else {
            a + 1
        };
        let b0 = if b < i {
            b
        } else {
            b + 1
        };
        assert(db.records[a0].id < db.records[b0].id);
    }
    assert forall|a: int| 0 <= a < after.records.len() implies {
        &&& 1 <= #[trigger] after.records[a].id <= after.last_id
        &&& after.has_client(after.records[a].client_id)
        &&& after.records[a].status == Status::Active ==> 0 <= after.records[a].start_time
            <= MAX_TIME
    } by {
        let a0 = if a < i {
            a
        } else {
            a + 1
        };
        assert(after.records[a] == db.records[a0]);
        assert(db.has_client(db.records[a0].client_id));
    }
}

/// What entering a past session leaves behind and returns. The client is noted at `now`.
pub open spec fn session_imported(
    before: DbView,
    client: Seq<char>,
    start_time: i64,
    end_time: i64,
    duration_seconds: i64,
    command: Option<Seq<char>>,
    alias: Option<Seq<char>>,
    now: i64,
    after: DbView,
    r: Result<(), DbError>,
) -> bool {
    let noted = before.seen(client, now);
    if before.last_id == i64::MAX {
        r == Err::<(), DbError>(DbError::Full) && after == noted
    } else {
        let id = (before.last_id + 1) as i64;
        r == Ok::<(), DbError>(()) && after == noted.appended(
            past_session(id, client, start_time, end_time, duration_seconds, command, alias),
        )
    }
}

/// Enters a past session, noting the client at `now`.
pub fn import_record_at(
    db: &mut Database,
    client_id: &str,
    start_time: i64,
    end_time: i64,
    duration_seconds: i64,
    command: Option<&str>,
    alias: Option<&str>,
    now: i64,
) -> (r: Result<(), DbError>)
    requires
        old(db).wf(),
    ensures
        final(db).wf(),
        session_imported(
            old(db)@,
            client_id@,
            start_time,
            end_time,
            duration_seconds,
            text::opt_str(command),
            text::opt_str(alias),
            now,
            final(db)@,
            r,
        ),
{
    proof {
        lemma_seen_wf(db@, client_id@, now);
    }
    ensure_client_at(db, client_id, now);
    if db.last_id == i64::MAX {
        return Err(DbError::Full);
    }
    let tokens = match command {
        Some(c) => command_to_tokens(c),
        None => None,
    };
    let id: i64 = db.last_id + 1;
    let row = StoredRecord {
        id,
        client_id: client_id.to_owned(),
        start_time,
        end_time: Some(end_time),
        duration_seconds: Some(duration_seconds),
        command: own_opt(command),
        command_tokens: tokens,
        alias: own_opt(alias),
        process_id: None,
        status: Status::Completed,
        created_at: start_time,
    };
    append_row(db, row);
    Ok(())
}

/// Enters a past session.
pub fn import_record(
    db: &mut Database,
    client_id: &str,
    start_time: i64,
    end_time: i64,
    duration_seconds: i64,
    command: Option<&str>,
    alias: Option<&str>,
) -> (r: Result<(), DbError>)
    requires
        old(db).wf(),
    ensures
        final(db).wf(),
        exists|now: i64|
            0 <= now <= MAX_TIME && #[trigger] session_imported(
                old(db)@,
                client_id@,
                start_time,
                end_time,
                duration_seconds,
                text::opt_str(command),
                text::opt_str(alias),
                now,
                final(db)@,
                r,
            ),
{
    let now: i64 = utc_now();
    import_record_at(
        db,
        client_id,
        start_time,
        end_time,
        duration_seconds,
        command,
        alias,
        now,
    )
}

/// What entering a program that could not be started leaves behind and returns: the id under which
/// it is stored.
pub open spec fn exec_event_logged(
    before: DbView,
    client: Seq<char>,
    command: Seq<char>,
    process_id: i64,
    timestamp: i64,
    errno: i64,
    after: DbView,
    r: Result<i64, DbError>,
) -> bool {
    if before.last_event_id == i64::MAX {
        r == Err::<i64, DbError>(DbError::Full) && after == before
    } else {
        let id = (before.last_event_id + 1) as i64;
        r == Ok::<i64, DbError>(id) && after == before.with_event(
            ExecEventView { id, client_id: client, command, process_id, timestamp, errno },
        )
    }
}

/// Enters a program that a client could not start.
pub fn log_exec_event(
    db: &mut Database,
    client_id: &str,
    command: &str,
    process_id: i64,
    timestamp: i64,
    errno: i64,
) -> (r: Result<i64, DbError>)
    requires
        old(db).wf(),
    ensures
        final(db).wf(),
        exec_event_logged(
            old(db)@,
            client_id@,
            command@,
            process_id,
            timestamp,
            errno,
            final(db)@,
            r,
        ),
{
    if db.last_event_id == i64::MAX {
        return Err(DbError::Full);
    }
    let ghost before = db@;
    let id: i64 = db.last_event_id + 1;
    let e = ExecEvent {
        id,
        client_id: client_id.to_owned(),
        command: command.to_owned(),
        process_id,
        timestamp,
        errno,
    };
    let ghost entered = e@;
    let ghost events = db.exec_events@;
    db.exec_events.push(e);
    db.last_event_id = id;
    proof {
        assert(exec_event_views(db.exec_events@) =~= exec_event_views(events).push(entered));
        assert(db@ =~= before.with_event(entered));
        lemma_clients_same(before, db@);
        assert(forall|i: int| 0 <= i < before.exec_events.len() ==> #[trigger] db@.exec_events[i]
            == before.exec_events[i]);
    }
    Ok(id)
}

impl Database {
    fn events_sound(&self) -> (r: bool)
        ensures
            r == self@.events_wf(),
    {
        let ghost all = exec_event_views(self.exec_events@);
        if self.last_event_id < 0 {
            return false;
        }
        for i in 0..self.exec_events.len()
            invariant
                all == self@.exec_events,
                all == exec_event_views(self.exec_events@),
                self.last_event_id == self@.last_event_id,
                forall|a: int, b: int|
                    0 <= a < b < i ==> #[trigger] all[a].id < #[trigger] all[b].id,
                forall|a: int| 0 <= a < i ==> 1 <= (#[trigger] all[a]).id <= self.last_event_id,
        {
            assert(all[i as int].id == self.exec_events@[i as int].id);
            let id: i64 = self.exec_events[i].id;
            if id < 1 || id > self.last_event_id {
                return false;
            }
            if i > 0 && self.exec_events[i - 1].id >= id {
                assert(all[i - 1].id >= all[i as int].id);
                return false;
            }
            assert(i > 0 ==> all[i - 1].id < all[i as int].id);
        }
        true
    }

    fn clients_distinct(&self) -> (r: bool)
        ensures
            r == (forall|i: int, j: int|
                0 <= i < j < self@.clients.len() ==> #[trigger] self@.clients[i].id
                    != #[trigger] self@.clients[j].id),
    {
        proof {
            self.lemma_rows();
        }
        for i in 0..self.clients.len()
            invariant
                self@.clients.len() == self.clients@.len(),
                forall|k: int|
                    0 <= k < self.clients@.len() ==> self@.clients[k] == #[trigger] self.clients@[k]@,
                forall|a: int, b: int|
                    0 <= a < b < i ==> #[trigger] self@.clients[a].id
                        != #[trigger] self@.clients[b].id,
        {
            for j in 0..i
                invariant
                    i < self.clients@.len(),
                    self@.clients.len() == self.clients@.len(),
                    forall|k: int|
                        0 <= k < self.clients@.len() ==> self@.clients[k]
                            == #[trigger] self.clients@[k]@,
                    forall|a: int|
                        0 <= a < j ==> #[trigger] self@.clients[a].id != self@.clients[i as int].id,
            {
                if same_text(self.clients[j].id.as_str(), self.clients[i].id.as_str()) {
                    assert(self@.clients[j as int].id == self@.clients[i as int].id);
                    return false;
                }
            }
        }
        true
    }

    fn tokens_distinct(&self) -> (r: bool)
        ensures
            r == (forall|i: int, j: int|
                0 <= i < j < self@.api_tokens.len() ==> #[trigger] self@.api_tokens[i].token
                    != #[trigger] self@.api_tokens[j].token),
    {
        proof {
            self.lemma_rows();
        }
        for i in 0..self.api_tokens.len()
            invariant
                self@.api_tokens.len() == self.api_tokens@.len(),
                forall|k: int|
                    0 <= k < self.api_tokens@.len() ==> self@.api_tokens[k]
                        == #[trigger] self.api_tokens@[k]@,
                forall|a: int, b: int|
                    0 <= a < b < i ==> #[trigger] self@.api_tokens[a].token
                        != #[trigger] self@.api_tokens[b].token,
        {
            for j in 0..i
                invariant
                    i < self.api_tokens@.len(),
                    self@.api_tokens.len() == self.api_tokens@.len(),
                    forall|k: int|
                        0 <= k < self.api_tokens@.len() ==> self@.api_tokens[k]
                            == #[trigger] self.api_tokens@[k]@,
                    forall|a: int|
                        0 <= a < j ==> #[trigger] self@.api_tokens[a].token
                            != self@.api_tokens[i as int].token,
            {
                if same_text(self.api_tokens[j].token.as_str(), self.api_tokens[i].token.as_str()) {
                    assert(self@.api_tokens[j as int].token == self@.api_tokens[i as int].token);
                    return false;
                }
            }
        }
        true
    }

    fn row_sound(&self, i: usize) -> (r: bool)
        requires
            i < self.records@.len(),
        ensures
            r == {
                &&& 1 <= self@.records[i as int].id <= self@.last_id
                &&& self@.has_client(self@.records[i as int].client_id)
                &&& self@.records[i as int].status == Status::Active ==> 0
                    <= self@.records[i as int].start_time <= MAX_TIME
            },
    {
        proof {
            self.lemma_rows();
        }
        let row = &self.records[i];
        if row.id < 1 || row.id > self.last_id {
            return false;
        }
        if row.status == Status::Active && (row.start_time < 0 || row.start_time > MAX_TIME) {
            return false;
        }
        match self.client_index(row.client_id.as_str()) {
            Some(k) => {
                assert(self@.clients[k as int].id == row.client_id@);
                true
            },
            None => false,
        }
    }

    fn rows_sound(&self) -> (r: bool)
        ensures
            r == {
                &&& forall|i: int, j: int|
                    0 <= i < j < self@.records.len() ==> #[trigger] self@.records[i].id
                        < #[trigger] self@.records[j].id
                &&& forall|i: int|
                    0 <= i < self@.records.len() ==> {
                        &&& 1 <= (#[trigger] self@.records[i]).id <= self@.last_id
                        &&& self@.has_client(self@.records[i].client_id)
                        &&& self@.records[i].status == Status::Active ==> 0
                            <= self@.records[i].start_time <= MAX_TIME
                    }
            },
    {
        proof {
            self.lemma_rows();
        }
        for i in 0..self.records.len()
            invariant
                self@.records.len() == self.records@.len(),
                forall|k: int|
                    0 <= k < self.records@.len() ==> self@.records[k] == #[trigger] self.records@[k]@,
                forall|a: int, b: int|
                    0 <= a < b < i ==> #[trigger] self@.records[a].id
                        < #[trigger] self@.records[b].id,
                forall|a: int|
                    0 <= a < i ==> {
                        &&& 1 <= (#[trigger] self@.records[a]).id <= self@.last_id
                        &&& self@.has_client(self@.records[a].client_id)
                        &&& self@.records[a].status == Status::Active ==> 0
                            <= self@.records[a].start_time <= MAX_TIME
                    },
        {
            assert(self@.records[i as int] == self.records@[i as int]@);
            if !self.row_sound(i) {
                return false;
            }
            if i > 0 && self.records[i - 1].id >= self.records[i].id {
                assert(self@.records[i - 1].id >= self@.records[i as int].id);
                return false;
            }
        }
        true
    }

    /// A store of the given rows, or `None` where they do not make a well-formed store.
    pub fn load(
        clients: Vec<Client>,
        api_tokens: Vec<ApiToken>,
        records: Vec<StoredRecord>,
        last_id: i64,
        exec_events: Vec<ExecEvent>,
        last_event_id: i64,
    ) -> (r: Option<Database>)
        ensures
            r is Some == (DbView {
                clients: client_views(clients@),
                api_tokens: token_views(api_tokens@),
                records: record_views(records@),
                last_id,
                exec_events: exec_event_views(exec_events@),
                last_event_id,
            }).wf(),
            r is Some ==> r->0.wf() && r->0@ == (DbView {
                clients: client_views(clients@),
                api_tokens: token_views(api_tokens@),
                records: record_views(records@),
                last_id,
                exec_events: exec_event_views(exec_events@),
                last_event_id,
            }),
    {
        let db = Database {
            clients,
            api_tokens,
            records,
            last_id,
            exec_events,
            last_event_id,
        };
        if db.last_id >= 0 && db.clients_distinct() && db.tokens_distinct() && db.rows_sound()
            && db.events_sound() {
            Some(db)
        } else {
            None
        }
    }
}

} // verus!
