//! The words of a command line, and the text under which they are stored.

use crate::text;
use crate::words;
use crate::words::split_words;
use vstd::prelude::*;

verus! {

/// What `shlex::split` makes of a command line: its words, or `None` where a quote or an escape is
/// left open.
pub uninterp spec fn shell_words(command: Seq<char>) -> Option<Seq<Seq<char>>>;

/// The JSON text that `serde_json::to_string` gives for a list of strings.
pub uninterp spec fn json_of(items: Seq<Seq<char>>) -> Seq<char>;

/// The list of strings that `serde_json::from_str` reads in a JSON text, or `None` where it
/// reports an error.
pub uninterp spec fn json_strings(json: Seq<char>) -> Option<Seq<Seq<char>>>;

/// `shlex::split`: the words of a command line by the quoting rules of the shell. It is a function
/// of the text.
#[verifier::external_body]
fn shell_split(command: &str) -> (r: Option<Vec<String>>)
    ensures
        r is Some == shell_words(command@) is Some,
        r is Some ==> shell_words(command@) == Some(text::texts(r->0@)),
{
    shlex::split(command)
}

/// `serde_json::to_string` of a list of strings, which never fails. Read back, the text gives the
/// same list.
#[verifier::external_body]
fn to_json(items: &Vec<String>) -> (r: Option<String>)
    ensures
        r is Some,
        r->0@ == json_of(text::texts(items@)),
        json_strings(r->0@) == Some(text::texts(items@)),
{
    serde_json::to_string(items).ok()
}

/// `serde_json::from_str` for a list of strings. It is a function of the text.
#[verifier::external_body]
pub(crate) fn from_json(json: &str) -> (r: Option<Vec<String>>)
    ensures
        r is Some == json_strings(json@) is Some,
        r is Some ==> json_strings(json@) == Some(text::texts(r->0@)),
{
    serde_json::from_str::<Vec<String>>(json).ok()
}

/// The words of a command: by the rules of the shell, or split at white space where those do not
/// apply.
pub open spec fn command_words(command: Seq<char>) -> Seq<Seq<char>> {
    match shell_words(command) {
        Some(w) => w,
        None => words::words(command),
    }
}

/// The text under which the words of a command are stored.
pub open spec fn stored_words(command: Seq<char>) -> Seq<char> {
    json_of(command_words(command))
}

/// The words of a command as they are stored.
pub fn command_to_tokens(command: &str) -> (r: Option<String>)
    ensures
        r is Some,
        r->0@ == stored_words(command@),
        json_strings(r->0@) == Some(command_words(command@)),
{
    let items = match shell_split(command) {
        Some(w) => w,
        None => split_words(command),
    };
    to_json(&items)
}

} // verus!
