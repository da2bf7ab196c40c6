//! The settings of the process tracer.

use crate::event;
use crate::event::bytes_to_string;
use vstd::prelude::*;

verus! {

/// The server that is reported to where none is named.
pub const DEFAULT_SERVER: &'static str = "http://localhost:8080";

/// The file that keeps reports where none is named.
pub const DEFAULT_RETRY_FILE: &'static str = "/var/lib/tspan-ebpf/retry.jsonl";

/// The settings of the process tracer.
#[derive(Debug)]
pub struct Config {
    pub server: String,
    pub token: String,
    pub client_id: String,
    pub retry_file: String,
    /// The users whose programs are tracked; none stands for all.
    pub allow_uids: Vec<u32>,
    /// The pattern of the commands that are not tracked; an empty one is none.
    pub deny_comm: Option<String>,
}

/// The machine's name, from the buffer that the system filled; `unknown` where it failed.
pub fn get_hostname(answer: Option<&[u8]>) -> (r: String)
    ensures
        r@ == match answer {
            Some(buf) => event::c_text(buf@),
            None => "unknown"@,
        },
{
    match answer {
        Some(buf) => bytes_to_string(buf),
        None => "unknown".to_owned(),
    }
}

} // verus!
