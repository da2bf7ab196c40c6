//! The requests by which the process tracer reports to the server.

use crate::text;
use crate::text::int_text;
use vstd::prelude::*;

verus! {

/// A report to the server. The one that could not be made is kept, to be made later.
#[derive(Debug)]
pub enum RetryItem {
    /// A program was started.
    StartSession { command: String, process_id: u32, timestamp: i64 },
    /// A session ended.
    EndSession { session_id: i64 },
    /// A program could not be started.
    LogFailed { command: String, process_id: u32, timestamp: i64, errno: i64 },
}

/// The view of a report.
#[verifier::ext_equal]
pub enum ItemView {
    StartSession { command: Seq<char>, process_id: u32, timestamp: i64 },
    EndSession { session_id: i64 },
    LogFailed { command: Seq<char>, process_id: u32, timestamp: i64, errno: i64 },
}

impl View for RetryItem {
    type V = ItemView;

    open spec fn view(&self) -> ItemView {
        match *self {
            RetryItem::StartSession { command, process_id, timestamp } => ItemView::StartSession {
                command: command@,
                process_id,
                timestamp,
            },
            RetryItem::EndSession { session_id } => ItemView::EndSession { session_id },
            RetryItem::LogFailed { command, process_id, timestamp, errno } => ItemView::LogFailed {
                command: command@,
                process_id,
                timestamp,
                errno,
            },
        }
    }
}

/// What a request carries.
#[derive(Debug)]
pub enum RequestBody {
    /// Nothing.
    Empty,
    /// A session that starts.
    StartSession { client_id: String, command: String, process_id: i64 },
    /// A program that could not be started.
    ExecEvent { client_id: String, command: String, process_id: i64, timestamp: i64, errno: i64 },
}

/// A POST request.
#[derive(Debug)]
pub struct Request {
    pub url: String,
    pub authorization: String,
    pub body: RequestBody,
}

/// The view of what a request carries.
#[verifier::ext_equal]
pub enum BodyView {
    Empty,
    StartSession { client_id: Seq<char>, command: Seq<char>, process_id: i64 },
    ExecEvent {
        client_id: Seq<char>,
        command: Seq<char>,
        process_id: i64,
        timestamp: i64,
        errno: i64,
    },
}

/// The view of a request.
#[verifier::ext_equal]
pub struct RequestView {
    pub url: Seq<char>,
    pub authorization: Seq<char>,
    pub body: BodyView,
}

impl View for Request {
    type V = RequestView;

    open spec fn view(&self) -> RequestView {
        RequestView {
            url: self.url@,
            authorization: self.authorization@,
            body: match self.body {
                RequestBody::Empty => BodyView::Empty,
                RequestBody::StartSession { client_id, command, process_id } =>
                    BodyView::StartSession { client_id: client_id@, command: command@, process_id },
                RequestBody::ExecEvent { client_id, command, process_id, timestamp, errno } =>
                    BodyView::ExecEvent {
                    client_id: client_id@,
                    command: command@,
                    process_id,
                    timestamp,
                    errno,
                },
            },
        }
    }
}

/// The server that is reported to, and who reports.
#[derive(Debug)]
pub struct Exporter {
    pub server_url: String,
    pub token: String,
    pub client_id: String,
}

impl Exporter {
    /// The request that a report makes.
    pub open spec fn request(self, item: ItemView) -> RequestView {
        match item {
            ItemView::StartSession { command, process_id, timestamp } => RequestView {
                url: self.server_url@ + "/api/sessions/start"@,
                authorization: "Bearer "@ + self.token@,
                body: BodyView::StartSession {
                    client_id: self.client_id@,
                    command,
                    process_id: process_id as i64,
                },
            },
            ItemView::EndSession { session_id } => RequestView {
                url: self.server_url@ + "/api/sessions/"@ + text::dec(session_id as int) + "/end"@,
                authorization: "Bearer "@ + self.token@,
                body: BodyView::Empty,
            },
            ItemView::LogFailed { command, process_id, timestamp, errno } => RequestView {
                url: self.server_url@ + "/api/exec-events"@,
                authorization: "Bearer "@ + self.token@,
                body: BodyView::ExecEvent {
                    client_id: self.client_id@,
                    command,
                    process_id: process_id as i64,
                    timestamp,
                    errno,
                },
            },
        }
    }

    /// An exporter to a server, with the token and the client that it reports for.
    pub fn new(server_url: String, token: String, client_id: String) -> (r: Exporter)
        ensures
            r.server_url == server_url,
            r.token == token,
            r.client_id == client_id,
    {
        Exporter { server_url, token, client_id }
    }

    /// A URL of the server.
    fn url(&self, path: &str) -> (r: String)
        ensures
            r@ == self.server_url@ + path@,
    {
        let mut r = self.server_url.clone();
        r.append(path);
        r
    }

    /// The header that shows the token.
    fn authorization(&self) -> (r: String)
        ensures
            r@ == "Bearer "@ + self.token@,
    {
        let mut r = "Bearer ".to_owned();
        r.append(self.token.as_str());
        r
    }

    /// The request for a session that starts. The server notes its own time.
    pub fn start_session(&self, command: &str, process_id: u32, timestamp: i64) -> (r: Request)
        ensures
            r@ == self.request(
                (ItemView::StartSession { command: command@, process_id, timestamp }),
            ),
    {
        Request {
            url: self.url("/api/sessions/start"),
            authorization: self.authorization(),
            body: RequestBody::StartSession {
                client_id: self.client_id.clone(),
                command: command.to_owned(),
                process_id: process_id as i64,
            },
        }
    }

    /// The request for a session that ended.
    pub fn end_session(&self, session_id: i64) -> (r: Request)
        ensures
            r@ == self.request((ItemView::EndSession { session_id })),
    {
        let mut url = self.url("/api/sessions/");
        let id = int_text(session_id);
        url.append(id.as_str());
        url.append("/end");
        Request { url, authorization: self.authorization(), body: RequestBody::Empty }
    }

    /// The request for a program that could not be started.
    pub fn log_failed(&self, command: &str, process_id: u32, timestamp: i64, errno: i64) -> (r:
        Request)
        ensures
            r@ == self.request(
                (ItemView::LogFailed { command: command@, process_id, timestamp, errno }),
            ),
    {
        Request {
            url: self.url("/api/exec-events"),
            authorization: self.authorization(),
            body: RequestBody::ExecEvent {
                client_id: self.client_id.clone(),
                command: command.to_owned(),
                process_id: process_id as i64,
                timestamp,
                errno,
            },
        }
    }

    /// The request for a report.
    pub fn report(&self, item: &RetryItem) -> (r: Request)
        ensures
            r@ == self.request(item@),
    {
        match item {
            RetryItem::StartSession { command, process_id, timestamp } => self.start_session(
                command.as_str(),
                *process_id,
                *timestamp,
            ),
            RetryItem::EndSession { session_id } => self.end_session(*session_id),
            RetryItem::LogFailed { command, process_id, timestamp, errno } => self.log_failed(
                command.as_str(),
                *process_id,
                *timestamp,
                *errno,
            ),
        }
    }
}

} // verus!
