//! Reading the events that the process tracer puts into its ring buffer.

use crate::encoding;
use crate::encoding::text_from_bytes;
use crate::event;
use crate::event::{
    bytes_to_string, ExecFailedInfo, ExecSuccessInfo, ProcessExitData, ARG_BUF_SIZE,
    EVENT_EXEC_FAILED, EVENT_EXEC_SUCCESS, EVENT_PROCESS_EXIT,
};
use crate::text;
use vstd::prelude::*;
use vstd::slice::slice_subrange;

verus! {

/// An event of the process tracer.
#[derive(Debug)]
pub enum EbpfEvent {
    Success(ExecSuccessInfo),
    Failed(ExecFailedInfo),
    Exit(ProcessExitData),
}

/// What an item of the ring buffer turns out to be.
#[derive(Debug)]
pub enum Decoded {
    /// An item that ends too early.
    Short,
    /// An item of a type that the tracer does not have.
    Unknown(u32),
    /// An event.
    Event(EbpfEvent),
}

/// A call to start a program.
#[verifier::ext_equal]
pub struct ExecView {
    pub pid: u32,
    pub tgid: u32,
    pub uid: u32,
    pub start_ns: u64,
    pub comm: Seq<char>,
    pub filename: Seq<char>,
    pub args: Seq<Seq<char>>,
}

/// The view of what an item turns out to be.
#[verifier::ext_equal]
pub enum DecodedView {
    Short,
    Unknown(u32),
    Success(ExecView),
    Failed(ExecView, i64),
    Exit(ProcessExitData),
}

impl View for ExecSuccessInfo {
    type V = ExecView;

    open spec fn view(&self) -> ExecView {
        ExecView {
            pid: self.pid,
            tgid: self.tgid,
            uid: self.uid,
            start_ns: self.start_ns,
            comm: self.comm@,
            filename: self.filename@,
            args: text::texts(self.args@),
        }
    }
}

impl View for ExecFailedInfo {
    type V = (ExecView, i64);

    /// The call and the number of its error.
    open spec fn view(&self) -> (ExecView, i64) {
        (
            ExecView {
                pid: self.pid,
                tgid: self.tgid,
                uid: self.uid,
                start_ns: self.start_ns,
                comm: self.comm@,
                filename: self.filename@,
                args: text::texts(self.args@),
            },
            self.errno,
        )
    }
}

impl View for Decoded {
    type V = DecodedView;

    open spec fn view(&self) -> DecodedView {
        match *self {
            Decoded::Short => DecodedView::Short,
            Decoded::Unknown(ty) => DecodedView::Unknown(ty),
            Decoded::Event(EbpfEvent::Success(info)) => DecodedView::Success(info@),
            Decoded::Event(EbpfEvent::Failed(info)) => DecodedView::Failed(info@.0, info@.1),
            Decoded::Event(EbpfEvent::Exit(data)) => DecodedView::Exit(data),
        }
    }
}

// ---------------------------------------------------------------------------------------------
// Numbers
// ---------------------------------------------------------------------------------------------

/// The number in the `n` bytes from `at` on: the least significant byte first where `little` is
/// set, else the most significant one.
pub open spec fn number(b: Seq<u8>, at: int, n: nat, little: bool) -> int
    decreases n,
{
    if n == 0 {
        0
    } else if little {
        b[at] + 256 * number(b, at + 1, (n - 1) as nat, little)
    } else {
        256 * number(b, at, (n - 1) as nat, little) + b[at + n - 1]
    }
}

/// `u32::from_ne_bytes`: the number that the machine keeps in memory as these bytes. Its first byte
/// is the least significant one on some machines and the most significant one on others; which of
/// the two is not claimed.
#[verifier::external_body]
fn native_word(bytes: [u8; 4]) -> (r: u32)
    ensures
        r == number(bytes@, 0, 4, true) || r == number(bytes@, 0, 4, false),
{
    u32::from_ne_bytes(bytes)
}

/// The number with the bits of `n` in two's complement.
pub open spec fn signed(n: int) -> int {
    if n < 0x8000_0000_0000_0000 {
        n
    } else {
        n - 0x1_0000_0000_0000_0000
    }
}

/// The four bytes from `at` on.
fn u32_at(b: &[u8], at: usize, little: bool) -> (r: u32)
    requires
        at + 4 <= b@.len(),
    ensures
        r == number(b@, at as int, 4, little),
{
    proof {
        reveal_with_fuel(number, 5);
    }
    let (w, x, y, z) = (b[at] as u32, b[at + 1] as u32, b[at + 2] as u32, b[at + 3] as u32);
    if little {
        w + 256 * (x + 256 * (y + 256 * z))
    } else {
        256 * (256 * (256 * w + x) + y) + z
    }
}

/// The eight bytes from `at` on.
fn u64_at(b: &[u8], at: usize, little: bool) -> (r: u64)
    requires
        at + 8 <= b@.len(),
    ensures
        r == number(b@, at as int, 8, little),
{
    let total: usize = b.len();
    assert(at + 8 <= total);
    let first = u32_at(b, at, little);
    let second = u32_at(b, at + 4, little);
    proof {
        reveal_with_fuel(number, 9);
    }
    if little {
        first as u64 + 0x1_0000_0000 * (second as u64)
    } else {
        0x1_0000_0000 * (first as u64) + second as u64
    }
}

/// The eight bytes from `at` on, in two's complement.
fn i64_at(b: &[u8], at: usize, little: bool) -> (r: i64)
    requires
        at + 8 <= b@.len(),
    ensures
        r == signed(number(b@, at as int, 8, little)),
{
    let n = u64_at(b, at, little);
    if n < 0x8000_0000_0000_0000 {
        n as i64
    } else {
        (n as i128 - 0x1_0000_0000_0000_0000) as i64
    }
}

// ---------------------------------------------------------------------------------------------
// Arguments
// ---------------------------------------------------------------------------------------------

/// The finished runs of nonzero bytes and the run at the end, which may be empty.
pub open spec fn runs_and_rest(b: Seq<u8>) -> (Seq<Seq<u8>>, Seq<u8>)
    decreases b.len(),
{
    if b.len() == 0 {
        (Seq::empty(), Seq::empty())
    } else {
        let (done, rest) = runs_and_rest(b.drop_last());
        if b.last() != 0 {
            (done, rest.push(b.last()))
        } else if rest.len() > 0 {
            (done.push(rest), Seq::empty())
        } else {
            (done, rest)
        }
    }
}

/// The longest runs of nonzero bytes.
pub open spec fn runs(b: Seq<u8>) -> Seq<Seq<u8>> {
    let (done, rest) = runs_and_rest(b);
    if rest.len() > 0 {
        done.push(rest)
    } else {
        done
    }
}

/// The texts of the first `limit` byte strings.
pub open spec fn first_texts(parts: Seq<Seq<u8>>, limit: int) -> Seq<Seq<char>> {
    parts.take(
        if parts.len() < limit {
            parts.len() as int
        } else {
            limit
        },
    ).map_values(|p: Seq<u8>| encoding::lossy_text(p))
}

/// The arguments in an event: the runs of nonzero bytes, at most as many as were counted, where
/// a count of none stands for one.
pub open spec fn arguments(b: Seq<u8>, argc: u32) -> Seq<Seq<char>> {
    first_texts(
        runs(b),
        if argc == 0 {
            1
        } else {
            argc as int
        },
    )
}

/// Enters a run as the next argument where there is room for it.
fn enter_argument(args: &mut Vec<String>, run: &[u8], limit: u32, Ghost(done): Ghost<Seq<Seq<u8>>>)
    requires
        text::texts(old(args)@) == first_texts(done, limit as int),
    ensures
        text::texts(final(args)@) == first_texts(done.push(run@), limit as int),
{
    let ghost before = args@;
    if args.len() < limit as usize {
        assert(text::texts(before).len() == before.len());
        let t = text_from_bytes(run);
        args.push(t);
        assert(first_texts(done, limit as int) =~= done.map_values(
            |p: Seq<u8>| encoding::lossy_text(p),
        ));
        assert(text::texts(args@) =~= text::texts(before).push(t@));
        assert(text::texts(args@) =~= first_texts(done.push(run@), limit as int));
    } else {
        assert(text::texts(before).len() == before.len());
        assert(text::texts(args@) =~= first_texts(done.push(run@), limit as int));
    }
}

/// The arguments in an event.
pub fn parse_args(args_data: &[u8], argc: u32) -> (r: Vec<String>)
    ensures
        text::texts(r@) == arguments(args_data@, argc),
{
    let limit: u32 = if argc == 0 {
        1
    } else {
        argc
    };
    let total: usize = args_data.len();
    let mut args: Vec<String> = Vec::new();
    let mut from: usize = 0;
    let ghost mut done: Seq<Seq<u8>> = Seq::empty();
    assert(text::texts(args@) =~= first_texts(done, limit as int));
    assert(args_data@.take(0) =~= Seq::<u8>::empty());
    for i in 0..total
        invariant
            total == args_data@.len(),
            from <= i,
            text::texts(args@) == first_texts(done, limit as int),
            runs_and_rest(args_data@.take(i as int)) == (
                done,
                args_data@.subrange(from as int, i as int),
            ),
    {
        proof {
            assert(args_data@.take(i + 1).drop_last() =~= args_data@.take(i as int));
        }
        if args_data[i] == 0 {
            if from < i {
                let ghost run = args_data@.subrange(from as int, i as int);
                enter_argument(&mut args, slice_subrange(args_data, from, i), limit, Ghost(done));
                proof {
                    done = done.push(run);
                }
            }
            from = i + 1;
            assert(args_data@.subrange(from as int, i + 1) =~= Seq::<u8>::empty());
        } else {
            assert(args_data@.subrange(from as int, i + 1) =~= args_data@.subrange(
                from as int,
                i as int,
            ).push(args_data@[i as int]));
        }
    }
    assert(args_data@.take(total as int) =~= args_data@);
    if from < total {
        enter_argument(&mut args, slice_subrange(args_data, from, total), limit, Ghost(done));
    }
    args
}

// ---------------------------------------------------------------------------------------------
// Events
// ---------------------------------------------------------------------------------------------

/// Where the parts of an event for a started program begin.
pub open spec fn args_from() -> int {
    184
}

/// How many bytes of arguments an event holds.
pub open spec fn args_size(item: Seq<u8>, little: bool) -> int {
    let n = number(item, 172, 4, little);
    if n < ARG_BUF_SIZE {
        n
    } else {
        ARG_BUF_SIZE as int
    }
}

/// The call to start a program that an item tells of.
pub open spec fn exec_in(item: Seq<u8>, little: bool) -> ExecView {
    ExecView {
        pid: number(item, 4, 4, little) as u32,
        tgid: number(item, 8, 4, little) as u32,
        uid: number(item, 12, 4, little) as u32,
        start_ns: number(item, 16, 8, little) as u64,
        comm: event::c_text(item.subrange(152, 168)),
        filename: event::c_text(item.subrange(24, 152)),
        args: arguments(
            item.subrange(args_from(), args_from() + args_size(item, little)),
            number(item, 168, 4, little) as u32,
        ),
    }
}

/// What an item of the ring buffer is, its numbers in the byte order that `little` tells.
pub open spec fn decoded(item: Seq<u8>, little: bool) -> DecodedView {
    let ty = number(item, 0, 4, little);
    if item.len() < 4 {
        DecodedView::Short
    } else if ty == EVENT_EXEC_SUCCESS || ty == EVENT_EXEC_FAILED {
        if item.len() < args_from() || item.len() < args_from() + args_size(item, little) {
            DecodedView::Short
        } else if ty == EVENT_EXEC_SUCCESS {
            DecodedView::Success(exec_in(item, little))
        } else {
            DecodedView::Failed(exec_in(item, little), signed(number(item, 176, 8, little)) as i64)
        }
    } else if ty == EVENT_PROCESS_EXIT {
        if item.len() < 32 {
            DecodedView::Short
        } else {
            DecodedView::Exit(
                ProcessExitData {
                    pid: number(item, 4, 4, little) as u32,
                    tgid: number(item, 8, 4, little) as u32,
                    exit_ns: number(item, 16, 8, little) as u64,
                    exit_code: number(item, 24, 4, little) as u32,
                },
            )
        }
    } else {
        DecodedView::Unknown(ty as u32)
    }
}

/// Reads an item of the ring buffer, whose numbers are in the byte order of this machine.
pub fn decode_event(item: &[u8]) -> (r: Decoded)
    ensures
        exists|little: bool| r@ == #[trigger] decoded(item@, little),
{
    let probe: [u8; 4] = [1, 0, 0, 0];
    assert(probe@ =~= seq![1u8, 0u8, 0u8, 0u8]);
    let word: u32 = native_word(probe);
    let r = decode_event_by(item, word);
    assert(r@ == decoded(item@, true) || r@ == decoded(item@, false));
    r
}

/// Reads an item of the ring buffer, whose numbers have the byte order in which the bytes 1, 0, 0, 0
/// make up `word`.
pub fn decode_event_by(item: &[u8], word: u32) -> (r: Decoded)
    ensures
        forall|little: bool|
            word == number(seq![1u8, 0u8, 0u8, 0u8], 0, 4, little) ==> r@ == #[trigger] decoded(
                item@,
                little,
            ),
{
    proof {
        reveal_with_fuel(number, 5);
    }
    decode_event_in(item, word == 1)
}

/// Reads an item of the ring buffer, whose numbers have the least significant byte first where
/// `little` is set, else the most significant one.
pub fn decode_event_in(item: &[u8], little: bool) -> (r: Decoded)
    ensures
        r@ == decoded(item@, little),
{
    let len: usize = item.len();
    if len < 4 {
        return Decoded::Short;
    }
    let ty = u32_at(item, 0, little);
    if ty == EVENT_EXEC_SUCCESS || ty == EVENT_EXEC_FAILED {
        if len < 184 {
            return Decoded::Short;
        }
        let announced = u32_at(item, 172, little);
        let size: usize = if announced < 64 {
            announced as usize
        } else {
            ARG_BUF_SIZE
        };
        if len < 184 + size {
            return Decoded::Short;
        }
        let pid = u32_at(item, 4, little);
        let tgid = u32_at(item, 8, little);
        let uid = u32_at(item, 12, little);
        let start_ns = u64_at(item, 16, little);
        let filename = bytes_to_string(slice_subrange(item, 24, 152));
        let comm = bytes_to_string(slice_subrange(item, 152, 168));
        let argc = u32_at(item, 168, little);
        let args = parse_args(slice_subrange(item, 184, 184 + size), argc);
        if ty == EVENT_EXEC_SUCCESS {
            Decoded::Event(
                EbpfEvent::Success(
                    ExecSuccessInfo { pid, tgid, uid, start_ns, comm, filename, args },
                ),
            )
        } else {
            let errno = i64_at(item, 176, little);
            Decoded::Event(
                EbpfEvent::Failed(
                    ExecFailedInfo { pid, tgid, uid, start_ns, comm, filename, args, errno },
                ),
            )
        }
    } else if ty == EVENT_PROCESS_EXIT {
        if len < 32 {
            return Decoded::Short;
        }
        let pid = u32_at(item, 4, little);
        let tgid = u32_at(item, 8, little);
        let exit_ns = u64_at(item, 16, little);
        let exit_code = u32_at(item, 24, little);
        Decoded::Event(EbpfEvent::Exit(ProcessExitData { pid, tgid, exit_ns, exit_code }))
    } else {
        Decoded::Unknown(ty)
    }
}

/// The command line of a file name and its arguments, those that are empty left out.
pub fn command_line(filename: &str, args: &Vec<String>) -> (r: String)
    ensures
        r@ == event::with_args(filename@, text::texts(args@), args@.len() as int),
{
    let mut r = filename.to_owned();
    let ghost all = text::texts(args@);
    for i in 0..args.len()
        invariant
            all == text::texts(args@),
            r@ == event::with_args(filename@, all, i as int),
    {
        assert(all[i as int] == args@[i as int]@);
        if !args[i].as_str().is_empty() {
            r.push(' ');
            r.append(args[i].as_str());
        }
    }
    r
}

} // verus!
