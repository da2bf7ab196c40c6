//! Events of the process tracer, as the kernel side lays them out.

use crate::encoding;
use crate::encoding::text_from_bytes;
use vstd::prelude::*;

verus! {

/// How many arguments an event holds.
pub const MAX_ARGS: usize = 2;

/// Bytes of one argument.
pub const ARG_SIZE: usize = 32;

/// Bytes of all arguments together.
pub const ARG_BUF_SIZE: usize = 64;

/// Bytes of a file name.
pub const FILENAME_SIZE: usize = 128;

/// Bytes of a process name.
pub const COMM_SIZE: usize = 16;

/// Bytes of an event's data.
pub const EVENT_DATA_SIZE: usize = 256;

/// A program was started.
pub const EVENT_EXEC_SUCCESS: u32 = 1;

/// A program could not be started.
pub const EVENT_EXEC_FAILED: u32 = 2;

/// A process ended.
pub const EVENT_PROCESS_EXIT: u32 = 3;

/// An event before it is told apart.
#[derive(Debug, Clone, Copy)]
pub struct RawEvent {
    pub ty: u32,
    pub data: [u8; 256],
}

/// A started program.
#[derive(Debug, Clone, Copy)]
pub struct ExecSuccessData {
    pub pid: u32,
    pub tgid: u32,
    pub uid: u32,
    pub start_ns: u64,
    pub comm: [u8; 16],
    pub filename: [u8; 128],
    pub argc: u8,
    pub args: [[u8; 32]; 2],
}

/// A program that could not be started.
#[derive(Debug, Clone, Copy)]
pub struct ExecFailedData {
    pub pid: u32,
    pub tgid: u32,
    pub uid: u32,
    pub start_ns: u64,
    pub comm: [u8; 16],
    pub filename: [u8; 128],
    pub argc: u8,
    pub args: [[u8; 32]; 2],
    pub errno: i64,
}

/// A process that ended.
#[derive(Debug, Clone, Copy, PartialEq, Eq, Structural)]
pub struct ProcessExitData {
    pub pid: u32,
    pub tgid: u32,
    pub exit_ns: u64,
    pub exit_code: u32,
}

/// A started program, with its texts.
#[derive(Debug)]
pub struct ExecSuccessInfo {
    pub pid: u32,
    pub tgid: u32,
    pub uid: u32,
    pub start_ns: u64,
    pub comm: String,
    pub filename: String,
    pub args: Vec<String>,
}

/// A program that could not be started, with its texts.
#[derive(Debug)]
pub struct ExecFailedInfo {
    pub pid: u32,
    pub tgid: u32,
    pub uid: u32,
    pub start_ns: u64,
    pub comm: String,
    pub filename: String,
    pub args: Vec<String>,
    pub errno: i64,
}

/// The bytes before the first zero byte; all of them where there is none.
pub open spec fn c_bytes(buf: Seq<u8>) -> Seq<u8>
    decreases buf.len(),
{
    if buf.len() == 0 || buf[0] == 0 {
        Seq::empty()
    } else {
        seq![buf[0]] + c_bytes(buf.drop_first())
    }
}

/// The text in a buffer that a zero byte may end.
pub open spec fn c_text(buf: Seq<u8>) -> Seq<char> {
    encoding::lossy_text(c_bytes(buf))
}

proof fn lemma_c_bytes(buf: Seq<u8>, n: int)
    requires
        0 <= n <= buf.len(),
        forall|i: int| 0 <= i < n ==> buf[i] != 0,
        n < buf.len() ==> buf[n] == 0,
    ensures
        c_bytes(buf) == buf.take(n),
    decreases n,
{
    if n == 0 {
        assert(c_bytes(buf) =~= buf.take(0));
    } else {
        let rest = buf.drop_first();
        assert forall|i: int| 0 <= i < n - 1 implies rest[i] != 0 by {
            assert(rest[i] == buf[i + 1]);
        }
        lemma_c_bytes(rest, n - 1);
        assert(c_bytes(buf) =~= buf.take(n));
    }
}

/// What follows the first zero byte of a buffer has no effect: buffers that agree up to it hold the
/// same text.
pub proof fn law_bytes_after_the_zero_do_not_matter(a: Seq<u8>, b: Seq<u8>, k: int)
    requires
        0 <= k <= a.len(),
        k <= b.len(),
        a.take(k) == b.take(k),
        !a.take(k).contains(0),
        k < a.len() ==> a[k] == 0,
        k < b.len() ==> b[k] == 0,
    ensures
        c_bytes(a) == a.take(k),
        c_text(a) == c_text(b),
{
    assert forall|i: int| 0 <= i < k implies a[i] != 0 && b[i] != 0 by {
        assert(a.take(k).contains(a.take(k)[i]));
        assert(a.take(k)[i] == a[i] && b.take(k)[i] == b[i]);
    }
    lemma_c_bytes(a, k);
    lemma_c_bytes(b, k);
}

/// The text in a buffer that a zero byte may end. Bytes before it that are the UTF-8 form of a text
/// give that text; NUL never occurs in it.
pub fn bytes_to_string(buf: &[u8]) -> (r: String)
    ensures
        r@ == c_text(buf@),
        forall|s: Seq<char>| c_bytes(buf@) == #[trigger] encoding::bytes_of(s) ==> r@ == s,
        !r@.contains('\0'),
{
    let mut n: usize = 0;
    let total: usize = buf.len();
    while n < total && buf[n] != 0
        invariant
            n <= total == buf@.len(),
            forall|i: int| 0 <= i < n ==> buf@[i] != 0,
        decreases total - n,
    {
        n = n + 1;
    }
    proof {
        lemma_c_bytes(buf@, n as int);
        assert(buf@.subrange(0, n as int) =~= buf@.take(n as int));
        assert(!buf@.take(n as int).contains(0));
    }
    text_from_bytes(vstd::slice::slice_subrange(buf, 0, n))
}

/// A file name followed by the first `n` arguments that are not empty.
pub open spec fn with_args(filename: Seq<char>, args: Seq<Seq<char>>, n: int) -> Seq<char>
    decreases n,
{
    if n <= 0 {
        filename
    } else if args[n - 1].len() == 0 {
        with_args(filename, args, n - 1)
    } else {
        with_args(filename, args, n - 1).push(' ') + args[n - 1]
    }
}

/// The texts of the arguments of an event.
pub open spec fn arg_texts(args: [[u8; 32]; 2]) -> Seq<Seq<char>> {
    seq![c_text(args@[0]@), c_text(args@[1]@)]
}

/// How many of an event's arguments count.
pub open spec fn arg_count(argc: u8) -> int {
    if argc < MAX_ARGS {
        argc as int
    } else {
        MAX_ARGS as int
    }
}

/// The command line of a file name and arguments.
pub fn build_command(filename: &[u8], argc: u8, args: &[[u8; 32]; 2]) -> (r: String)
    ensures
        r@ == with_args(c_text(filename@), arg_texts(*args), arg_count(argc)),
{
    let ghost all = arg_texts(*args);
    let ghost name = c_text(filename@);
    let mut r = bytes_to_string(filename);
    assert(with_args(name, all, 0) == name);
    if argc >= 1 {
        let first = bytes_to_string(&args[0]);
        assert(first@ == all[0]);
        if !first.as_str().is_empty() {
            r.push(' ');
            r.append(first.as_str());
        }
        assert(r@ == with_args(name, all, 1));
    }
    if argc >= 2 {
        let second = bytes_to_string(&args[1]);
        assert(second@ == all[1]);
        if !second.as_str().is_empty() {
            r.push(' ');
            r.append(second.as_str());
        }
        assert(r@ == with_args(name, all, 2));
    }
    r
}

} // verus!
