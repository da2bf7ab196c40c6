//! Who may do what: access tokens and the password of the web interface.

use crate::db;
use crate::db::{verify_api_token, Database};
use crate::encoding;
use crate::encoding::{base64_of, decode_base64, text_from_bytes};
use crate::text;
use crate::text::{same_text, split_once, strip_prefix};
use vstd::prelude::*;

verus! {

/// The credentials of the web interface: a user name and a bcrypt hash or a plain password.
#[derive(Clone)]
pub struct AuthConfig {
    pub web_username: String,
    pub web_password_hash: String,
}

/// Why a request is refused.
#[derive(Debug, Clone, Copy, PartialEq, Eq, Structural)]
pub enum HttpError {
    Unauthorized,
    NotFound,
    Internal,
}

impl HttpError {
    /// The status code of the answer.
    pub fn status(&self) -> (r: u16)
        ensures
            r == (match *self {
                HttpError::Unauthorized => 401u16,
                HttpError::NotFound => 404u16,
                HttpError::Internal => 500u16,
            }),
    {
        match self {
            HttpError::Unauthorized => 401,
            HttpError::NotFound => 404,
            HttpError::Internal => 500,
        }
    }

    /// The text of the answer.
    pub fn body(&self) -> (r: &'static str)
        ensures
            r@ == (match *self {
                HttpError::Unauthorized => "Unauthorized"@,
                HttpError::NotFound => "Not Found"@,
                HttpError::Internal => "Internal Server Error"@,
            }),
    {
        match self {
            HttpError::Unauthorized => "Unauthorized",
            HttpError::NotFound => "Not Found",
            HttpError::Internal => "Internal Server Error",
        }
    }
}

/// What `bcrypt::verify` says of a password and a hash: whether they match, or `None` where it
/// reports an error.
pub uninterp spec fn bcrypt_verdict(password: Seq<char>, hash: Seq<char>) -> Option<bool>;

/// `bcrypt::verify`. It is a function of the password and the hash.
#[verifier::external_body]
fn bcrypt_check(password: &str, hash: &str) -> (r: Option<bool>)
    ensures
        r == bcrypt_verdict(password@, hash@),
{
    bcrypt::verify(password, hash).ok()
}

/// The token of an `Authorization` header of the bearer scheme.
pub open spec fn bearer_token(header: Option<Seq<char>>) -> Option<Seq<char>> {
    match header {
        Some(h) => text::after_prefix(h, "Bearer "@),
        None => None,
    }
}

/// The token of an `Authorization` header of the bearer scheme.
pub fn extract_bearer_token(header: Option<&str>) -> (r: Option<String>)
    ensures
        text::opt_text(r) == bearer_token(text::opt_str(header)),
{
    match header {
        Some(h) => strip_prefix(h, "Bearer "),
        None => None,
    }
}

/// Whether a token is stored, and the client that it stands for.
pub fn verify_api_token_sync(db: &Database, token: &str) -> (r: (bool, String))
    requires
        db.wf(),
    ensures
        r.0 == db@.has_token(token@),
        r.1@ == (if db@.has_token(token@) {
            db@.client_of(token@)
        } else {
            Seq::empty()
        }),
{
    verify_api_token(db, token)
}

/// The client on whose behalf a request comes: that of a stored bearer token.
pub open spec fn api_client(d: db::DbView, header: Option<Seq<char>>) -> Option<Seq<char>> {
    match bearer_token(header) {
        Some(token) => if d.has_token(token) {
            Some(d.client_of(token))
        } else {
            None
        },
        None => None,
    }
}

/// The client on whose behalf a request comes.
pub fn check_api_auth(db: &Database, header: Option<&str>) -> (r: Result<String, HttpError>)
    requires
        db.wf(),
    ensures
        match r {
            Ok(client) => api_client(db@, text::opt_str(header)) == Some(client@),
            Err(e) => e == HttpError::Unauthorized && api_client(
                db@,
                text::opt_str(header),
            ) is None,
        },
{
    match extract_bearer_token(header) {
        Some(token) => {
            let (valid, client) = verify_api_token_sync(db, token.as_str());
            if valid {
                Ok(client)
            } else {
                Err(HttpError::Unauthorized)
            }
        },
        None => Err(HttpError::Unauthorized),
    }
}

/// User name and password of an `Authorization` header of the basic scheme.
pub open spec fn basic_credentials(header: Option<Seq<char>>) -> Option<(Seq<char>, Seq<char>)> {
    match header {
        Some(h) => match text::after_prefix(h, "Basic "@) {
            Some(encoded) => match encoding::base64_bytes(encoded) {
                Some(bytes) => text::cut_at(encoding::lossy_text(bytes), ':'),
                None => None,
            },
            None => None,
        },
        None => None,
    }
}

/// Whether a user name and a password match the configuration: the stored value is a bcrypt hash
/// where it starts with `$2`, else the password itself.
pub open spec fn matches_config(
    username: Seq<char>,
    password: Seq<char>,
    user: Seq<char>,
    stored: Seq<char>,
) -> bool {
    username == user && if text::starts_with(stored, "$2"@) {
        bcrypt_verdict(password, stored) == Some(true)
    } else {
        password == stored
    }
}

/// Whether a header carries the credentials of the web interface.
pub open spec fn web_authorized(config: AuthConfig, header: Option<Seq<char>>) -> bool {
    match basic_credentials(header) {
        Some(c) => matches_config(
            c.0,
            c.1,
            config.web_username@,
            config.web_password_hash@,
        ),
        None => false,
    }
}

/// Whether a user name and a password match the configuration.
pub fn verify_basic_auth(username: &str, password: &str, config: &AuthConfig) -> (r: bool)
    ensures
        r == matches_config(
            username@,
            password@,
            config.web_username@,
            config.web_password_hash@,
        ),
{
    if !same_text(username, config.web_username.as_str()) {
        return false;
    }
    let verdict = match strip_prefix(config.web_password_hash.as_str(), "$2") {
        Some(_rest) => match bcrypt_check(password, config.web_password_hash.as_str()) {
            Some(v) => v,
            None => false,
        },
        None => same_text(password, config.web_password_hash.as_str()),
    };
    verdict
}

/// The header of the basic scheme that carries a user name and a password.
pub open spec fn basic_header(username: Seq<char>, password: Seq<char>) -> Seq<char> {
    "Basic "@ + encoding::base64_text(encoding::bytes_of(username + ":"@ + password))
}

/// The header of the basic scheme that carries a user name and a password.
pub fn basic_authorization(username: &str, password: &str) -> (r: String)
    ensures
        r@ == basic_header(username@, password@),
{
    let mut credentials = username.to_owned();
    credentials.append(":");
    credentials.append(password);
    let mut r = "Basic ".to_owned();
    r.append(base64_of(credentials.as_str()).as_str());
    r
}

/// What follows a prefix is what was put behind it.
proof fn lemma_after_prefix(prefix: Seq<char>, rest: Seq<char>)
    ensures
        text::after_prefix(prefix + rest, prefix) == Some(rest),
{
    assert((prefix + rest).take(prefix.len() as int) =~= prefix);
    assert((prefix + rest).skip(prefix.len() as int) =~= rest);
}

/// A name without a colon is what stands before the first colon.
proof fn lemma_cut_credentials(username: Seq<char>, password: Seq<char>)
    requires
        !username.contains(':'),
    ensures
        text::cut_at(username + ":"@ + password, ':') == Some((username, password)),
{
    reveal_strlit(":");
    let whole = username + ":"@ + password;
    let k = username.len() as int;
    assert forall|i: int| 0 <= i < k implies whole[i] != ':' by {
        assert(username.contains(username[i]));
    }
    text::lemma_place_unique(whole, ':', k);
    assert(whole.take(k) =~= username);
    assert(whole.skip(k + 1) =~= password);
}

/// User name and password of an `Authorization` header of the basic scheme. Of a header made from
/// a name without a colon and a password, they are that name and that password.
pub fn extract_credentials(header: Option<&str>) -> (r: Option<(String, String)>)
    ensures
        match r {
            Some((username, password)) => basic_credentials(text::opt_str(header)) == Some(
                (username@, password@),
            ),
            None => basic_credentials(text::opt_str(header)) is None,
        },
        forall|username: Seq<char>, password: Seq<char>|
            text::opt_str(header) == Some(#[trigger] basic_header(username, password))
                && !username.contains(':') ==> basic_credentials(text::opt_str(header)) == Some(
                (username, password),
            ),
{
    let h = match header {
        Some(h) => h,
        None => {
            return None;
        },
    };
    proof {
        assert forall|username: Seq<char>, password: Seq<char>|
            h@ == #[trigger] basic_header(username, password) implies text::after_prefix(
            h@,
            "Basic "@,
        ) == Some(
            encoding::base64_text(encoding::bytes_of(username + ":"@ + password)),
        ) by {
            lemma_after_prefix(
                "Basic "@,
                encoding::base64_text(encoding::bytes_of(username + ":"@ + password)),
            );
        }
    }
    let encoded = match strip_prefix(h, "Basic ") {
        Some(e) => e,
        None => {
            return None;
        },
    };
    let bytes = match decode_base64(encoded.as_str()) {
        Some(b) => b,
        None => {
            return None;
        },
    };
    let decoded = text_from_bytes(bytes.as_slice());
    proof {
        assert forall|username: Seq<char>, password: Seq<char>|
            h@ == #[trigger] basic_header(username, password) && !username.contains(':') implies
            basic_credentials(Some(h@)) == Some((username, password)) by {
            let whole = username + ":"@ + password;
            assert(encoded@ == encoding::base64_text(encoding::bytes_of(whole)));
            assert(bytes@ == vstd::utf8::encode_utf8(whole));
            assert(decoded@ == whole);
            lemma_cut_credentials(username, password);
        }
    }
    split_once(decoded.as_str(), ':')
}

/// Lets a request pass that carries the credentials of the web interface. A header made from a
/// name without a colon and a password passes exactly where these match the configuration.
pub fn check_web_auth(config: &AuthConfig, header: Option<&str>) -> (r: Result<(), HttpError>)
    ensures
        match r {
            Ok(_) => web_authorized(*config, text::opt_str(header)),
            Err(e) => e == HttpError::Unauthorized && !web_authorized(
                *config,
                text::opt_str(header),
            ),
        },
        forall|username: Seq<char>, password: Seq<char>|
            text::opt_str(header) == Some(#[trigger] basic_header(username, password))
                && !username.contains(':') ==> r is Ok == matches_config(
                username,
                password,
                config.web_username@,
                config.web_password_hash@,
            ),
{
    match extract_credentials(header) {
        Some((username, password)) => {
            if verify_basic_auth(username.as_str(), password.as_str(), config) {
                Ok(())
            } else {
                Err(HttpError::Unauthorized)
            }
        },
        None => Err(HttpError::Unauthorized),
    }
}

} // verus!
