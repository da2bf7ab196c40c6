//! What the tracer makes of kernel events and what it reports.

use crate::buffer;
use crate::daemon;
use crate::ebpf;
use crate::ebpf::{DecodedView, EbpfEvent};
use crate::encoding;
use crate::event;
use crate::event::{ExecFailedInfo, ExecSuccessInfo, ProcessExitData};
use crate::exporter::{BodyView, Exporter, ItemView};
use crate::filter;
use crate::filter::FilterView;
use crate::text;
use crate::tracker;
use crate::tracker::SessionMeta;
use crate::words;
use vstd::prelude::*;

verus! {

// ---------------------------------------------------------------------------------------------
// Events
// ---------------------------------------------------------------------------------------------

/// The number of four bytes, in either order.
pub open spec fn word(a: u8, b: u8, c: u8, d: u8, little: bool) -> int {
    if little {
        a + 256 * b + 65536 * c + 16777216 * d
    } else {
        d + 256 * c + 65536 * b + 16777216 * a
    }
}

/// The number of the four bytes from a place on.
pub open spec fn word_at(b: Seq<u8>, at: int, little: bool) -> int {
    word(b[at], b[at + 1], b[at + 2], b[at + 3], little)
}

/// The number of the eight bytes from a place on.
pub open spec fn long_at(b: Seq<u8>, at: int, little: bool) -> int {
    if little {
        word_at(b, at, little) + 4294967296 * word_at(b, at + 4, little)
    } else {
        4294967296 * word_at(b, at, little) + word_at(b, at + 4, little)
    }
}

/// Numbers are read byte by byte in the given order.
pub proof fn law_numbers_are_read_by_byte(b: Seq<u8>, at: int, little: bool)
    ensures
        ebpf::number(b, at, 4, little) == word_at(b, at, little),
        ebpf::number(b, at, 8, little) == long_at(b, at, little),
        0 <= word_at(b, at, little) < 4294967296,
{
    reveal_with_fuel(ebpf::number, 9);
}

/// An item of type 1 or 2 tells of a call to start a program, with the process, the user, the time,
/// the texts and the arguments at their places; one of type 2 has the number of the error as well. An
/// item of type 3 tells of the end of a process. Items that are too short or of another type tell
/// nothing.
pub proof fn law_events_are_read_from_their_places(item: Seq<u8>, little: bool)
    ensures
        item.len() < 4 ==> ebpf::decoded(item, little) is Short,
        item.len() >= 4 && (word_at(item, 0, little) < 1 || word_at(item, 0, little) > 3)
            ==> ebpf::decoded(item, little) == DecodedView::Unknown(
            word_at(item, 0, little) as u32,
        ),
        4 <= item.len() < 32 && word_at(item, 0, little) == 3 ==> ebpf::decoded(
            item,
            little,
        ) is Short,
        item.len() >= 32 && word_at(item, 0, little) == 3 ==> ebpf::decoded(item, little)
            == DecodedView::Exit(
            ProcessExitData {
                pid: word_at(item, 4, little) as u32,
                tgid: word_at(item, 8, little) as u32,
                exit_ns: long_at(item, 16, little) as u64,
                exit_code: word_at(item, 24, little) as u32,
            },
        ),
        4 <= item.len() < 184 && 1 <= word_at(item, 0, little) <= 2 ==> ebpf::decoded(
            item,
            little,
        ) is Short,
        item.len() >= 248 && word_at(item, 0, little) == 1 ==> ebpf::decoded(
            item,
            little,
        ) is Success && told_call(item, little, ebpf::decoded(item, little)->Success_0),
        item.len() >= 248 && word_at(item, 0, little) == 2 ==> ebpf::decoded(
            item,
            little,
        ) is Failed && told_call(item, little, ebpf::decoded(item, little)->Failed_0)
            && ebpf::decoded(item, little)->Failed_1 == ebpf::signed(
            long_at(item, 176, little),
        ) as i64,
{
    law_numbers_are_read_by_byte(item, 0, little);
    law_numbers_are_read_by_byte(item, 4, little);
    law_numbers_are_read_by_byte(item, 8, little);
    law_numbers_are_read_by_byte(item, 12, little);
    law_numbers_are_read_by_byte(item, 16, little);
    law_numbers_are_read_by_byte(item, 24, little);
    law_numbers_are_read_by_byte(item, 168, little);
    law_numbers_are_read_by_byte(item, 172, little);
    law_numbers_are_read_by_byte(item, 176, little);
}

/// Whether a call is the one that an item tells of.
pub open spec fn told_call(item: Seq<u8>, little: bool, call: ebpf::ExecView) -> bool {
    let size = if word_at(item, 172, little) < 64 {
        word_at(item, 172, little)
    } else {
        64
    };
    &&& call.pid == word_at(item, 4, little)
    &&& call.tgid == word_at(item, 8, little)
    &&& call.uid == word_at(item, 12, little)
    &&& call.start_ns == long_at(item, 16, little) as u64
    &&& call.filename == event::c_text(item.subrange(24, 152))
    &&& call.comm == event::c_text(item.subrange(152, 168))
    &&& call.args == ebpf::arguments(
        item.subrange(184, 184 + size),
        word_at(item, 168, little) as u32,
    )
}

/// A number of eight bytes is signed in two's complement: it keeps its value where the topmost bit is
/// not set, and is negative where it is.
pub proof fn law_error_numbers_are_signed(n: int)
    requires
        0 <= n < 0x1_0000_0000_0000_0000,
    ensures
        i64::MIN <= ebpf::signed(n) <= i64::MAX,
        ebpf::signed(n) == n || ebpf::signed(n) == n - 0x1_0000_0000_0000_0000,
        n <= i64::MAX ==> ebpf::signed(n) == n,
{
}

/// The text of a buffer is that of the bytes before the first zero byte.
pub proof fn law_texts_end_at_a_zero_byte(a: Seq<u8>, rest: Seq<u8>)
    requires
        !a.contains(0),
    ensures
        event::c_text(a.push(0) + rest) == encoding::lossy_text(a),
        event::c_text(a) == encoding::lossy_text(a),
{
    lemma_bytes_before_zero(a, rest);
}

proof fn lemma_bytes_before_zero(a: Seq<u8>, rest: Seq<u8>)
    requires
        !a.contains(0),
    ensures
        event::c_bytes(a.push(0) + rest) == a,
        event::c_bytes(a) == a,
    decreases a.len(),
{
    if a.len() > 0 {
        assert(a.contains(a[0]));
        let shorter = a.drop_first();
        assert forall|x: u8| shorter.contains(x) implies a.contains(x) by {
            let i = choose|i: int| 0 <= i < shorter.len() && shorter[i] == x;
            assert(a[i + 1] == x);
        }
        lemma_bytes_before_zero(shorter, rest);
        assert((a.push(0) + rest).drop_first() =~= shorter.push(0) + rest);
        assert(seq![a[0]] + shorter =~= a);
    }
}

/// Arguments that each end with a zero byte come back one by one, in their order, as far as they were
/// counted; a count of none stands for one.
pub proof fn law_arguments_come_back(a: Seq<u8>, b: Seq<u8>, argc: u32)
    requires
        a.len() > 0,
        b.len() > 0,
        !a.contains(0),
        !b.contains(0),
    ensures
        argc >= 2 ==> ebpf::arguments(a.push(0) + b.push(0), argc) == seq![
            encoding::lossy_text(a),
            encoding::lossy_text(b),
        ],
        argc <= 1 ==> ebpf::arguments(a.push(0) + b.push(0), argc) == seq![encoding::lossy_text(a)],
        ebpf::arguments(Seq::<u8>::empty(), argc).len() == 0,
{
    let none = Seq::<u8>::empty();
    lemma_run(none, a);
    assert(none + a =~= a);
    lemma_run_ends(a);
    lemma_run(a.push(0), b);
    lemma_run_ends(a.push(0) + b);
    assert((a.push(0) + b).push(0) =~= a.push(0) + b.push(0));
    let runs = ebpf::runs(a.push(0) + b.push(0));
    assert(runs =~= seq![a, b]);
    let limit = if argc == 0 {
        1
    } else {
        argc as int
    };
    let texts = ebpf::first_texts(runs, limit);
    if argc >= 2 {
        assert(texts =~= seq![encoding::lossy_text(a), encoding::lossy_text(b)]);
    } else {
        assert(texts =~= seq![encoding::lossy_text(a)]);
    }
    assert(ebpf::runs(none) =~= Seq::<Seq<u8>>::empty());
}

proof fn lemma_run(front: Seq<u8>, a: Seq<u8>)
    requires
        !a.contains(0),
        ebpf::runs_and_rest(front).1.len() == 0,
    ensures
        ebpf::runs_and_rest(front + a) == (ebpf::runs_and_rest(front).0, a),
    decreases a.len(),
{
    if a.len() == 0 {
        assert(front + a =~= front);
        assert(ebpf::runs_and_rest(front).1 =~= a);
    } else {
        let t = a.drop_last();
        assert(!t.contains(0)) by {
            if t.contains(0) {
                let i = choose|i: int| 0 <= i < t.len() && t[i] == 0;
                assert(a[i] == 0);
            }
        }
        lemma_run(front, t);
        assert((front + a).drop_last() =~= front + t);
        assert((front + a).last() == a.last());
        assert(a.last() != 0) by {
            assert(a[a.len() - 1] == a.last());
        }
        assert(t.push(a.last()) =~= a);
    }
}

proof fn lemma_run_ends(b: Seq<u8>)
    ensures
        ebpf::runs_and_rest(b).1.len() > 0 ==> ebpf::runs_and_rest(b.push(0)) == (
            ebpf::runs_and_rest(b).0.push(ebpf::runs_and_rest(b).1),
            Seq::<u8>::empty(),
        ),
{
    assert(b.push(0).drop_last() =~= b);
}

/// A command line is the file name and after it each argument that is not empty, with a space before
/// it.
pub proof fn law_command_line(filename: Seq<char>, args: Seq<Seq<char>>, x: Seq<char>)
    ensures
        event::with_args(filename, Seq::<Seq<char>>::empty(), 0) == filename,
        ({
            let longer = args.push(x);
            let before = event::with_args(filename, args, args.len() as int);
            event::with_args(filename, longer, longer.len() as int) == (if x.len() == 0 {
                before
            } else {
                before + seq![' '] + x
            })
        }),
{
    let longer = args.push(x);
    lemma_with_args(filename, args, longer, args.len() as int);
    let before = event::with_args(filename, args, args.len() as int);
    assert(before.push(' ') + x =~= before + seq![' '] + x);
}

proof fn lemma_with_args(
    filename: Seq<char>,
    a: Seq<Seq<char>>,
    b: Seq<Seq<char>>,
    n: int,
)
    requires
        0 <= n <= a.len(),
        n <= b.len(),
        forall|i: int| 0 <= i < n ==> a[i] == b[i],
    ensures
        event::with_args(filename, a, n) == event::with_args(filename, b, n),
    decreases n,
{
    if n > 0 {
        lemma_with_args(filename, a, b, n - 1);
    }
}

// ---------------------------------------------------------------------------------------------
// Reports
// ---------------------------------------------------------------------------------------------

/// A program that an allowed user starts, whose command the pattern does not deny, is reported with
/// its command line, its process and the second of its start; one that could not be started with the
/// number of the error as well.
pub proof fn law_allowed_programs_are_reported(
    f: FilterView,
    running: Map<u32, SessionMeta>,
    started: ExecSuccessInfo,
    failed: ExecFailedInfo,
)
    ensures
        ({
            let command = event::with_args(
                started.filename@,
                text::texts(started.args@),
                started.args@.len() as int,
            );
            daemon::wanted(EbpfEvent::Success(started), f, running) == (if (f.allow_uids.len() == 0
                || f.allow_uids.contains(started.uid)) && (f.deny_pattern is None
                || !filter::regex_matches(f.deny_pattern->0, command)) {
                Some(
                    ItemView::StartSession {
                        command,
                        process_id: started.pid,
                        timestamp: (started.start_ns as int / 1_000_000_000) as i64,
                    },
                )
            } else {
                None
            })
        }),
        ({
            let command = event::with_args(
                failed.filename@,
                text::texts(failed.args@),
                failed.args@.len() as int,
            );
            daemon::wanted(EbpfEvent::Failed(failed), f, running) == (if (f.allow_uids.len() == 0
                || f.allow_uids.contains(failed.uid)) && (f.deny_pattern is None
                || !filter::regex_matches(f.deny_pattern->0, command)) {
                Some(
                    ItemView::LogFailed {
                        command,
                        process_id: failed.pid,
                        timestamp: (failed.start_ns as int / 1_000_000_000) as i64,
                        errno: failed.errno,
                    },
                )
            } else {
                None
            })
        }),
{
}

/// Each report goes to its address of the server, with the token, and carries what it reports.
pub proof fn law_reports_go_to_the_server(
    e: Exporter,
    command: Seq<char>,
    process_id: u32,
    timestamp: i64,
    errno: i64,
    session_id: i64,
    item: ItemView,
)
    ensures
        e.request(item).authorization == "Bearer "@ + e.token@,
        e.request((ItemView::StartSession { command, process_id, timestamp })).url == e.server_url@
            + "/api/sessions/start"@,
        e.request((ItemView::StartSession { command, process_id, timestamp })).body
            == (BodyView::StartSession {
            client_id: e.client_id@,
            command,
            process_id: process_id as i64,
        }),
        e.request((ItemView::EndSession { session_id })).url == e.server_url@ + "/api/sessions/"@
            + text::dec(session_id as int) + "/end"@,
        e.request((ItemView::EndSession { session_id })).body == BodyView::Empty,
        e.request((ItemView::LogFailed { command, process_id, timestamp, errno })).url
            == e.server_url@ + "/api/exec-events"@,
        e.request((ItemView::LogFailed { command, process_id, timestamp, errno })).body
            == (BodyView::ExecEvent {
            client_id: e.client_id@,
            command,
            process_id: process_id as i64,
            timestamp,
            errno,
        }),
{
}

/// An entry of the tracker is kept for a day to the whole second: it is too old from the second after
/// on.
pub proof fn law_entries_are_kept_for_a_day(
    all: Map<u32, SessionMeta>,
    pid: u32,
    now: u64,
)
    requires
        all.dom().contains(pid),
        all[pid].inserted_at <= now,
    ensures
        tracker::fresh(all, now).dom().contains(pid) <==> now - all[pid].inserted_at < 86401
            * 1_000_000_000,
        tracker::fresh(all, now).dom().contains(pid) ==> tracker::fresh(all, now)[pid] == all[pid],
{
    let age = now - all[pid].inserted_at;
    assert(age / 1_000_000_000 > 86400 <==> age >= 86401 * 1_000_000_000);
    assert(tracker::SECOND as int == 1_000_000_000);
    assert(tracker::stale(all[pid], now) <==> age >= 86401 * 1_000_000_000);
}

/// A pattern that is empty is none, so it denies nothing.
pub proof fn law_empty_pattern_denies_nothing(p: Seq<char>, uid: u32, command: Seq<char>)
    ensures
        filter::effective(Some(""@)) is None,
        filter::effective(None) is None,
        p != ""@ ==> filter::effective(Some(p)) == Some(p),
        filter::allows((FilterView { allow_uids: Seq::empty(), deny_pattern: None }), uid, command),
{
    reveal_strlit("");
    if p.len() == 0 {
        assert(p =~= ""@);
    }
}

/// Of the lines of a file those that hold more than white space are kept, and no others.
pub proof fn law_lines_with_text_are_kept(lines: Seq<Seq<char>>, n: int, line: Seq<char>)
    requires
        0 <= n <= lines.len(),
    ensures
        buffer::filled(lines, n).contains(line) <==> lines.take(n).contains(line) && words::trim(
            line,
        ).len() > 0,
    decreases n,
{
    if n > 0 {
        law_lines_with_text_are_kept(lines, n - 1, line);
        let before = buffer::filled(lines, n - 1);
        let after = buffer::filled(lines, n);
        assert(lines.take(n) =~= lines.take(n - 1).push(lines[n - 1]));
        assert(forall|s: Seq<Seq<char>>, x: Seq<char>|
            #![trigger s.push(x).contains(line)]
            s.push(x).contains(line) <==> s.contains(line) || x == line) by {
            assert forall|s: Seq<Seq<char>>, x: Seq<char>|
                #![trigger s.push(x).contains(line)]
                s.push(x).contains(line) <==> s.contains(line) || x == line by {
                assert(s.push(x)[s.len() as int] == x);
                if s.contains(line) {
                    let k = choose|k: int| 0 <= k < s.len() && s[k] == line;
                    assert(s.push(x)[k] == line);
                }
                if s.push(x).contains(line) {
                    let k = choose|k: int| 0 <= k < s.push(x).len() && s.push(x)[k] == line;
                    if k < s.len() {
                        assert(s[k] == line);
                    }
                }
            }
        }
        assert(after == before || after == before.push(lines[n - 1]));
    } else {
        assert(lines.take(0).len() == 0);
    }
}

/// Of a pass over the kept reports, exactly those stay that were not made.
pub proof fn law_unmade_reports_stay(lines: Seq<Seq<char>>, made: Seq<bool>, k: int)
    requires
        0 <= k < made.len() <= lines.len(),
    ensures
        !made[k] ==> buffer::unmade(lines, made, k + 1) == buffer::unmade(lines, made, k).push(
            lines[k],
        ),
        made[k] ==> buffer::unmade(lines, made, k + 1) == buffer::unmade(lines, made, k),
{
}

} // verus!
