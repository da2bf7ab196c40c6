//! The requests of the terminal interface to the server.

use crate::auth;
use crate::auth::basic_authorization;
use crate::text;
use crate::text::{chars_of, int_text, string_of, strip_prefix};
use crate::words;
use crate::words::trimmed;
use crate::zone::Tz;
use vstd::prelude::*;

verus! {

/// The method of a request.
#[derive(Debug, Clone, Copy, PartialEq, Eq, Structural)]
pub enum Method {
    Get,
    Post,
    Delete,
}

/// A request. The action says what it is for in messages.
#[derive(Debug)]
pub struct ApiCall {
    pub method: Method,
    pub url: String,
    pub query: Vec<(String, String)>,
    pub action: String,
}

/// The view of a request.
#[verifier::ext_equal]
pub struct CallView {
    pub method: Method,
    pub url: Seq<char>,
    pub query: Seq<(Seq<char>, Seq<char>)>,
    pub action: Seq<char>,
}

/// The views of pairs of texts.
pub open spec fn pairs(s: Seq<(String, String)>) -> Seq<(Seq<char>, Seq<char>)> {
    s.map_values(|p: (String, String)| (p.0@, p.1@))
}

impl View for ApiCall {
    type V = CallView;

    open spec fn view(&self) -> CallView {
        CallView {
            method: self.method,
            url: self.url@,
            query: pairs(self.query@),
            action: self.action@,
        }
    }
}

/// The views of requests.
pub open spec fn calls(s: Seq<ApiCall>) -> Seq<CallView> {
    s.map_values(|c: ApiCall| c@)
}

/// What went wrong with a request.
#[derive(Debug)]
pub enum ApiFault {
    /// The server answered with this status.
    Status(u16),
    /// The answer could not be read.
    Unreadable,
    /// The answer is no JSON of the expected form.
    InvalidJson,
    /// The request could not be made, with the reason.
    Other(String),
}

/// The message on what went wrong.
pub open spec fn fault_text(action: Seq<char>, fault: ApiFault) -> Seq<char> {
    match fault {
        ApiFault::Status(status) => if status == 401 {
            action + ": authentication failed (check --username and --password)"@
        } else if status == 403 {
            action + ": administrator access is required"@
        } else {
            action + ": server returned HTTP "@ + text::dec(status as int)
        },
        ApiFault::Unreadable => action + ": could not read server response"@,
        ApiFault::InvalidJson => action + ": server returned invalid JSON"@,
        ApiFault::Other(reason) => action + ": "@ + reason@,
    }
}

/// The message on what went wrong.
pub fn api_error(action: &str, fault: &ApiFault) -> (r: String)
    ensures
        r@ == fault_text(action@, *fault),
{
    let mut r = action.to_owned();
    match fault {
        ApiFault::Status(status) => {
            if *status == 401 {
                r.append(": authentication failed (check --username and --password)");
            } else if *status == 403 {
                r.append(": administrator access is required");
            } else {
                r.append(": server returned HTTP ");
                r.append(int_text(*status as i64).as_str());
            }
        },
        ApiFault::Unreadable => {
            r.append(": could not read server response");
        },
        ApiFault::InvalidJson => {
            r.append(": server returned invalid JSON");
        },
        ApiFault::Other(reason) => {
            r.append(": ");
            r.append(reason.as_str());
        },
    }
    r
}

/// Whether the server did what was asked: not where it does not know the thing; the message where
/// something else went wrong.
pub fn done(action: &str, result: Result<(), ApiFault>) -> (r: Result<bool, String>)
    ensures
        match result {
            Ok(()) => r == Ok::<bool, String>(true),
            Err(ApiFault::Status(404)) => r == Ok::<bool, String>(false),
            Err(fault) => r is Err && r->Err_0@ == fault_text(action@, fault),
        },
{
    match result {
        Ok(()) => Ok(true),
        Err(ApiFault::Status(404)) => Ok(false),
        Err(fault) => Err(api_error(action, &fault)),
    }
}

/// The duration of the session that the server ended; none where it does not know the session.
pub fn ended(result: Result<i64, ApiFault>) -> (r: Result<Option<i64>, String>)
    ensures
        match result {
            Ok(duration) => r == Ok::<Option<i64>, String>(Some(duration)),
            Err(ApiFault::Status(404)) => r == Ok::<Option<i64>, String>(None),
            Err(fault) => r is Err && r->Err_0@ == fault_text("end session"@, fault),
        },
{
    match result {
        Ok(duration) => Ok(Some(duration)),
        Err(ApiFault::Status(404)) => Ok(None),
        Err(fault) => Err(api_error("end session", &fault)),
    }
}

/// The text without a character at its end.
pub open spec fn without_tail(s: Seq<char>, c: char) -> Seq<char>
    decreases s.len(),
{
    if s.len() > 0 && s.last() == c {
        without_tail(s.drop_last(), c)
    } else {
        s
    }
}

/// The text without a character at its start.
pub open spec fn without_head(s: Seq<char>, c: char) -> Seq<char>
    decreases s.len(),
{
    if s.len() > 0 && s[0] == c {
        without_head(s.drop_first(), c)
    } else {
        s
    }
}

fn cut_tail(s: &str, c: char) -> (r: String)
    ensures
        r@ == without_tail(s@, c),
{
    let v = chars_of(s);
    let mut n: usize = v.len();
    assert(v@.take(n as int) =~= v@);
    while n > 0 && v[n - 1] == c
        invariant
            n <= v@.len(),
            without_tail(v@.take(n as int), c) == without_tail(v@, c),
        decreases n,
    {
        assert(v@.take(n as int).drop_last() =~= v@.take(n - 1));
        n = n - 1;
    }
    let r = string_of(&v, 0, n);
    assert(r@ =~= v@.take(n as int));
    r
}

fn cut_head(s: &str, c: char) -> (r: String)
    ensures
        r@ == without_head(s@, c),
{
    let v = chars_of(s);
    let mut n: usize = 0;
    assert(v@.skip(0) =~= v@);
    while n < v.len() && v[n] == c
        invariant
            n <= v@.len(),
            without_head(v@.skip(n as int), c) == without_head(v@, c),
        decreases v@.len() - n,
    {
        assert(v@.skip(n as int).drop_first() =~= v@.skip(n + 1));
        n = n + 1;
    }
    let r = string_of(&v, n, v.len());
    assert(r@ =~= v@.skip(n as int));
    r
}

/// The server's address without white space around it and without slashes at its end.
pub open spec fn base_of(server_url: Seq<char>) -> Seq<char> {
    without_tail(words::trim(server_url), '/')
}

/// Whether an address is one of HTTP.
pub open spec fn is_http(url: Seq<char>) -> bool {
    text::starts_with(url, "http://"@) || text::starts_with(url, "https://"@)
}

/// The server that is talked to.
#[derive(Debug)]
pub struct ApiClient {
    pub base_url: String,
    pub authorization: String,
}

impl ApiClient {
    /// A client of a server; a message where its address is not one of HTTP or the user's name
    /// holds a colon.
    pub fn new(server_url: &str, username: &str, password: &str) -> (r: Result<ApiClient, String>)
        ensures
            match r {
                Ok(client) => {
                    &&& is_http(base_of(server_url@))
                    &&& !username@.contains(':')
                    &&& client.base_url@ == base_of(server_url@)
                    &&& client.authorization@ == auth::basic_header(username@, password@)
                },
                Err(message) => {
                    ||| !is_http(base_of(server_url@)) && message@
                        == "server URL must begin with http:// or https://"@
                    ||| is_http(base_of(server_url@)) && username@.contains(':') && message@
                        == "username cannot contain ':'"@
                },
            },
    {
        let base_url = cut_tail(trimmed(server_url).as_str(), '/');
        let plain = strip_prefix(base_url.as_str(), "http://").is_some();
        let secure = strip_prefix(base_url.as_str(), "https://").is_some();
        if !plain && !secure {
            return Err("server URL must begin with http:// or https://".to_owned());
        }
        let name = chars_of(username);
        for i in 0..name.len()
            invariant
                name@ == username@,
                is_http(base_of(server_url@)),
                forall|k: int| 0 <= k < i ==> #[trigger] name@[k] != ':',
        {
            if name[i] == ':' {
                assert(username@[i as int] == ':');
                return Err("username cannot contain ':'".to_owned());
            }
        }
        Ok(ApiClient { base_url, authorization: basic_authorization(username, password) })
    }

    /// The server's address.
    pub fn label(&self) -> (r: &str)
        ensures
            r@ == self.base_url@,
    {
        self.base_url.as_str()
    }

    /// The address of a path of the server's interface.
    pub open spec fn address(self, path: Seq<char>) -> Seq<char> {
        self.base_url@ + "/api/"@ + without_head(path, '/')
    }

    /// The address of a path of the server's interface.
    pub fn endpoint(&self, path: &str) -> (r: String)
        ensures
            r@ == self.address(path@),
    {
        let mut r = self.base_url.clone();
        r.append("/api/");
        r.append(cut_head(path, '/').as_str());
        r
    }

    /// A request for a path.
    pub open spec fn call(
        self,
        method: Method,
        path: Seq<char>,
        query: Seq<(Seq<char>, Seq<char>)>,
        action: Seq<char>,
    ) -> CallView {
        CallView { method, url: self.address(path), query, action }
    }

    fn make(&self, method: Method, path: &str, query: Vec<(String, String)>, action: &str) -> (r:
        ApiCall)
        ensures
            r@ == self.call(method, path@, pairs(query@), action@),
    {
        ApiCall { method, url: self.endpoint(path), query, action: action.to_owned() }
    }

    /// The filter of a client.
    fn for_client(client_id: &str) -> (r: Vec<(String, String)>)
        ensures
            pairs(r@) == seq![("client_id"@, client_id@)],
    {
        let mut r: Vec<(String, String)> = Vec::new();
        r.push(("client_id".to_owned(), client_id.to_owned()));
        assert(pairs(r@) =~= seq![("client_id"@, client_id@)]);
        r
    }

    /// The filter of a client with one more value.
    fn for_client_with(client_id: &str, key: &str, value: &str) -> (r: Vec<(String, String)>)
        ensures
            pairs(r@) == seq![("client_id"@, client_id@), (key@, value@)],
    {
        let mut r = Self::for_client(client_id);
        let ghost before = r@;
        r.push((key.to_owned(), value.to_owned()));
        assert(pairs(r@) =~= pairs(before).push((key@, value@)));
        assert(pairs(r@) =~= seq![("client_id"@, client_id@), (key@, value@)]);
        r
    }

    /// The requests for the statistics of a client: the summary, the streaks, the durations, and
    /// the breakdowns by client, alias and the first word of the command.
    pub open spec fn overview_calls(self, client_id: Seq<char>, zone: Seq<char>) -> Seq<CallView> {
        let zoned = seq![("client_id"@, client_id), ("tz"@, zone)];
        let grouped = seq![("client_id"@, client_id)];
        let deep = seq![("client_id"@, client_id), ("depth"@, "1"@)];
        seq![
            self.call(Method::Get, "stats"@, zoned, "load summary statistics"@),
            self.call(Method::Get, "stats/streaks"@, zoned, "load streak statistics"@),
            self.call(
                Method::Get,
                "stats/session-distribution"@,
                grouped,
                "load session distribution"@,
            ),
            self.call(Method::Get, "stats/by-client"@, grouped, "load client statistics"@),
            self.call(Method::Get, "stats/by-alias"@, grouped, "load alias statistics"@),
            self.call(Method::Get, "stats/by-command"@, deep, "load command statistics"@),
        ]
    }

    /// The requests for the statistics of a client.
    pub fn overview(&self, client_id: &str, timezone: &Tz) -> (r: Vec<ApiCall>)
        ensures
            calls(r@) == self.overview_calls(client_id@, timezone@),
    {
        let zone = timezone.name();
        let r = vec![
            self.make(
                Method::Get,
                "stats",
                Self::for_client_with(client_id, "tz", zone),
                "load summary statistics",
            ),
            self.make(
                Method::Get,
                "stats/streaks",
                Self::for_client_with(client_id, "tz", zone),
                "load streak statistics",
            ),
            self.make(
                Method::Get,
                "stats/session-distribution",
                Self::for_client(client_id),
                "load session distribution",
            ),
            self.make(
                Method::Get,
                "stats/by-client",
                Self::for_client(client_id),
                "load client statistics",
            ),
            self.make(
                Method::Get,
                "stats/by-alias",
                Self::for_client(client_id),
                "load alias statistics",
            ),
            self.make(
                Method::Get,
                "stats/by-command",
                Self::for_client_with(client_id, "depth", "1"),
                "load command statistics",
            ),
        ];
        assert(calls(r@) =~= self.overview_calls(client_id@, timezone@));
        r
    }

    fn plain(&self, method: Method, path: &str, action: &str) -> (r: ApiCall)
        ensures
            r@ == self.call(method, path@, Seq::empty(), action@),
    {
        let none: Vec<(String, String)> = Vec::new();
        assert(pairs(none@) =~= Seq::empty());
        self.make(method, path, none, action)
    }

    /// The request for the clients.
    pub fn clients(&self) -> (r: ApiCall)
        ensures
            r@ == self.call(Method::Get, "clients"@, Seq::empty(), "load clients"@),
    {
        self.plain(Method::Get, "clients", "load clients")
    }

    /// The request for a page of a client's records.
    pub fn records(&self, client_id: &str, page: i64, page_size: i64) -> (r: ApiCall)
        ensures
            r@ == self.call(
                Method::Get,
                "records"@,
                seq![
                    ("client_id"@, client_id@),
                    ("page"@, text::dec(page as int)),
                    ("per_page"@, text::dec(page_size as int)),
                ],
                "load records"@,
            ),
    {
        let mut query = Self::for_client_with(client_id, "page", int_text(page).as_str());
        let ghost before = query@;
        query.push(("per_page".to_owned(), int_text(page_size)));
        assert(pairs(query@) =~= pairs(before).push(("per_page"@, text::dec(page_size as int))));
        assert(pairs(query@) =~= seq![
            ("client_id"@, client_id@),
            ("page"@, text::dec(page as int)),
            ("per_page"@, text::dec(page_size as int)),
        ]);
        self.make(Method::Get, "records", query, "load records")
    }

    /// The request for the running sessions.
    pub fn active_sessions(&self) -> (r: ApiCall)
        ensures
            r@ == self.call(
                Method::Get,
                "sessions/orphaned"@,
                Seq::empty(),
                "load active sessions"@,
            ),
    {
        self.plain(Method::Get, "sessions/orphaned", "load active sessions")
    }

    /// The request for the tokens.
    pub fn tokens(&self) -> (r: ApiCall)
        ensures
            r@ == self.call(Method::Get, "admin/tokens"@, Seq::empty(), "load API tokens"@),
    {
        self.plain(Method::Get, "admin/tokens", "load API tokens")
    }

    /// The request to delete a record.
    pub fn delete_record(&self, id: i64) -> (r: ApiCall)
        ensures
            r@ == self.call(
                Method::Delete,
                "admin/records/"@ + text::dec(id as int),
                Seq::empty(),
                "delete record"@,
            ),
    {
        let mut path = "admin/records/".to_owned();
        path.append(int_text(id).as_str());
        self.plain(Method::Delete, path.as_str(), "delete record")
    }

    /// The request to end a session.
    pub fn end_session(&self, id: i64) -> (r: ApiCall)
        ensures
            r@ == self.call(
                Method::Post,
                "sessions/"@ + text::dec(id as int) + "/end"@,
                Seq::empty(),
                "end session"@,
            ),
    {
        let mut path = "sessions/".to_owned();
        path.append(int_text(id).as_str());
        path.append("/end");
        self.plain(Method::Post, path.as_str(), "end session")
    }

    /// The request to discard a session.
    pub fn discard_session(&self, id: i64) -> (r: ApiCall)
        ensures
            r@ == self.call(
                Method::Post,
                "sessions/"@ + text::dec(id as int) + "/discard"@,
                Seq::empty(),
                "discard session"@,
            ),
    {
        let mut path = "sessions/".to_owned();
        path.append(int_text(id).as_str());
        path.append("/discard");
        self.plain(Method::Post, path.as_str(), "discard session")
    }

    /// The request to make a token, which carries the client and the description.
    pub fn create_token(&self) -> (r: ApiCall)
        ensures
            r@ == self.call(Method::Post, "admin/tokens"@, Seq::empty(), "create token"@),
    {
        self.plain(Method::Post, "admin/tokens", "create token")
    }

    /// The request to revoke a token.
    pub fn revoke_token(&self, token: &str) -> (r: ApiCall)
        ensures
            r@ == self.call(
                Method::Delete,
                "admin/tokens/"@ + token@,
                Seq::empty(),
                "revoke token"@,
            ),
    {
        let mut path = "admin/tokens/".to_owned();
        path.append(token);
        self.plain(Method::Delete, path.as_str(), "revoke token")
    }
}

} // verus!
