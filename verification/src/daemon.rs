//! What the process tracer does with an event and with the server's answer.

use crate::ebpf;
use crate::ebpf::{command_line, EbpfEvent};
use crate::event;
use crate::event::{ExecFailedInfo, ExecSuccessInfo, ProcessExitData};
use crate::exporter;
use crate::exporter::RetryItem;
use crate::filter;
use crate::filter::Filter;
use crate::text;
use crate::tracker;
use crate::tracker::{SessionMeta, Tracker};
use vstd::prelude::*;

verus! {

/// Nanoseconds in a second.
pub const NANOS: u64 = 1_000_000_000;

/// How a report to the server went.
#[derive(Debug, Clone, Copy, PartialEq, Eq, Structural)]
pub enum Answer {
    /// The server started the session of that number.
    Started(i64),
    /// The server took the report.
    Taken,
    /// The report could not be made.
    Refused,
}

/// The command line of a call to start a program.
pub open spec fn command_of(call: ebpf::ExecView) -> Seq<char> {
    event::with_args(call.filename, call.args, call.args.len() as int)
}

/// The report that an event asks for, given the filter and the running processes.
pub open spec fn wanted(
    event: EbpfEvent,
    filter: filter::FilterView,
    running: Map<u32, SessionMeta>,
) -> Option<exporter::ItemView> {
    match event {
        EbpfEvent::Success(info) => if filter::allows(filter, info.uid, command_of(info@)) {
            Some(
                exporter::ItemView::StartSession {
                    command: command_of(info@),
                    process_id: info.pid,
                    timestamp: (info.start_ns / NANOS) as i64,
                },
            )
        } else {
            None
        },
        EbpfEvent::Failed(info) => if filter::allows(filter, info.uid, command_of(info@.0)) {
            Some(
                exporter::ItemView::LogFailed {
                    command: command_of(info@.0),
                    process_id: info.pid,
                    timestamp: (info.start_ns / NANOS) as i64,
                    errno: info.errno,
                },
            )
        } else {
            None
        },
        EbpfEvent::Exit(data) => if running.dom().contains(data.pid) {
            Some(exporter::ItemView::EndSession { session_id: running[data.pid].session_id })
        } else {
            None
        },
    }
}

/// The view of an optional report.
pub open spec fn opt_item(item: Option<RetryItem>) -> Option<exporter::ItemView> {
    match item {
        Some(i) => Some(i@),
        None => None,
    }
}

/// The report that an event asks for. A process that ended is no longer tracked.
pub fn handle_event(event: &EbpfEvent, filter: &Filter, tracker: &mut Tracker) -> (r: Option<
    RetryItem,
>)
    ensures
        opt_item(r) == wanted(*event, filter@, old(tracker)@),
        final(tracker)@ == match *event {
            EbpfEvent::Exit(data) => old(tracker)@.remove(data.pid),
            _ => old(tracker)@,
        },
{
    match event {
        EbpfEvent::Success(info) => {
            let command = command_line(info.filename.as_str(), &info.args);
            assert(text::texts(info.args@).len() == info.args@.len());
            if !filter.allow(info.uid, command.as_str()) {
                return None;
            }
            Some(
                RetryItem::StartSession {
                    command,
                    process_id: info.pid,
                    timestamp: (info.start_ns / NANOS) as i64,
                },
            )
        },
        EbpfEvent::Failed(info) => {
            let command = command_line(info.filename.as_str(), &info.args);
            assert(text::texts(info.args@).len() == info.args@.len());
            if !filter.allow(info.uid, command.as_str()) {
                return None;
            }
            Some(
                RetryItem::LogFailed {
                    command,
                    process_id: info.pid,
                    timestamp: (info.start_ns / NANOS) as i64,
                    errno: info.errno,
                },
            )
        },
        EbpfEvent::Exit(data) => match tracker.remove(data.pid) {
            Some(meta) => Some(RetryItem::EndSession { session_id: meta.session_id }),
            None => None,
        },
    }
}

/// The running processes by number, each entry by its view.
pub open spec fn entries(all: Map<u32, SessionMeta>) -> Map<u32, tracker::MetaView> {
    all.map_values(|meta: SessionMeta| meta@)
}

/// Takes the server's answer to a report: a session that it started is tracked, under the number
/// of its process and with its command; a report that could not be made is given back, to be
/// kept.
pub fn settle(item: RetryItem, answer: Answer, tracker: &mut Tracker, now: u64) -> (r: Option<
    RetryItem,
>)
    ensures
        opt_item(r) == if answer is Refused {
            Some(item@)
        } else {
            None
        },
        entries(final(tracker)@) == match (item@, answer) {
            (
                exporter::ItemView::StartSession { command, process_id, timestamp },
                Answer::Started(session_id),
            ) => entries(tracker::fresh(old(tracker)@, now)).insert(
                process_id,
                tracker::MetaView {
                    session_id,
                    start_time: timestamp,
                    client_id: command,
                    inserted_at: now,
                },
            ),
            _ => entries(old(tracker)@),
        },
{
    let ghost before = tracker@;
    match answer {
        Answer::Refused => Some(item),
        Answer::Taken => None,
        Answer::Started(session_id) => {
            if let RetryItem::StartSession { command, process_id, timestamp } = item {
                tracker.insert(process_id, session_id, timestamp, command, now);
                assert(entries(tracker@) =~= entries(tracker::fresh(before, now)).insert(
                    process_id,
                    tracker::MetaView {
                        session_id,
                        start_time: timestamp,
                        client_id: command@,
                        inserted_at: now,
                    },
                ));
            }
            None
        },
    }
}

/// The end of a process that is tracked with a session asks to end that session.
pub proof fn law_exit_ends_the_session(
    filter: filter::FilterView,
    running: Map<u32, SessionMeta>,
    pid: u32,
    meta: tracker::MetaView,
    data: ProcessExitData,
)
    requires
        entries(running).contains_pair(pid, meta),
        data.pid == pid,
    ensures
        wanted(EbpfEvent::Exit(data), filter, running) == Some(
            exporter::ItemView::EndSession { session_id: meta.session_id },
        ),
{
    assert(entries(running)[pid] == running[pid]@);
}

/// A process that is not tracked, or no longer, asks for nothing when it ends.
pub proof fn law_unknown_exit_asks_nothing(
    filter: filter::FilterView,
    running: Map<u32, SessionMeta>,
    data: ProcessExitData,
)
    ensures
        wanted(EbpfEvent::Exit(data), filter, running.remove(data.pid)) is None,
{
}

/// What the filter does not allow is neither reported nor, for want of a session, ever ended.
pub proof fn law_denied_is_not_reported(
    filter: filter::FilterView,
    running: Map<u32, SessionMeta>,
    started: ExecSuccessInfo,
    failed: ExecFailedInfo,
)
    requires
        !filter::allows(filter, started.uid, command_of(started@)),
        !filter::allows(filter, failed.uid, command_of(failed@.0)),
    ensures
        wanted(EbpfEvent::Success(started), filter, running) is None,
        wanted(EbpfEvent::Failed(failed), filter, running) is None,
{
}

} // verus!
