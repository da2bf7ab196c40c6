use tspan::buffer::{Leftover, Replay, RetryBuffer};
use tspan::config::get_hostname;
use tspan::daemon::{handle_event, settle, Answer};
use tspan::ebpf::{
    command_line, decode_event, decode_event_by, decode_event_in, parse_args, Decoded, EbpfEvent,
};
use tspan::event::{
    build_command, bytes_to_string, ExecFailedInfo, ExecSuccessInfo, ProcessExitData,
    EVENT_EXEC_FAILED, EVENT_EXEC_SUCCESS, EVENT_PROCESS_EXIT,
};
use tspan::exporter::{Exporter, RequestBody, RetryItem};
use tspan::filter::Filter;
use tspan::tracker::{Tracker, SECOND, TRACKER_STALE_SECS};

fn fill(text: &str, size: usize) -> Vec<u8> {
    let mut bytes = text.as_bytes().to_vec();
    bytes.resize(size, 0);
    bytes
}

fn exec_item(ty: u32, args: &[u8], argc: u32, errno: i64) -> Vec<u8> {
    let mut item = Vec::new();
    item.extend(ty.to_ne_bytes());
    item.extend(41u32.to_ne_bytes());
    item.extend(42u32.to_ne_bytes());
    item.extend(1000u32.to_ne_bytes());
    item.extend(5_000_000_123u64.to_ne_bytes());
    item.extend(fill("/usr/bin/vim", 128));
    item.extend(fill("vim", 16));
    item.extend(argc.to_ne_bytes());
    item.extend((args.len() as u32).to_ne_bytes());
    item.extend(errno.to_ne_bytes());
    item.extend(args);
    item
}

#[test]
fn a_buffer_ends_at_its_first_zero() {
    assert_eq!(bytes_to_string(b"bash\0junk"), "bash");
    assert_eq!(bytes_to_string(b"full"), "full");
    assert_eq!(bytes_to_string(b""), "");
    assert_eq!(bytes_to_string(&[0xff, b'a', 0]), "\u{fffd}a");
}

#[test]
fn a_command_is_a_file_and_its_arguments() {
    let mut args = [[0u8; 32]; 2];
    args[0][..2].copy_from_slice(b"-n");
    args[1][..5].copy_from_slice(b"a.txt");
    assert_eq!(build_command(b"vim\0", 2, &args), "vim -n a.txt");
    assert_eq!(build_command(b"vim\0", 1, &args), "vim -n");
    assert_eq!(build_command(b"vim\0", 0, &args), "vim");
    assert_eq!(build_command(b"vim\0", 9, &args), "vim -n a.txt");
    args[0][0] = 0;
    assert_eq!(build_command(b"vim", 2, &args), "vim a.txt");
}

#[test]
fn arguments_are_runs_of_bytes() {
    assert_eq!(parse_args(b"-n\0\0a.txt\0", 5), vec!["-n", "a.txt"]);
    assert_eq!(parse_args(b"-n\0a.txt", 1), vec!["-n"]);
    assert_eq!(parse_args(b"-n\0a.txt", 0), vec!["-n"]);
    assert!(parse_args(b"\0\0", 3).is_empty());
}

#[test]
fn started_programs_are_read() {
    let item = exec_item(EVENT_EXEC_SUCCESS, b"-n\0a.txt\0", 2, 0);
    match decode_event(&item) {
        Decoded::Event(EbpfEvent::Success(info)) => {
            assert_eq!((info.pid, info.tgid, info.uid), (41, 42, 1000));
            assert_eq!(info.start_ns, 5_000_000_123);
            assert_eq!(info.filename, "/usr/bin/vim");
            assert_eq!(info.comm, "vim");
            assert_eq!(info.args, vec!["-n", "a.txt"]);
            assert_eq!(command_line(&info.filename, &info.args), "/usr/bin/vim -n a.txt");
        }
        other => panic!("unexpected {other:?}"),
    }
}

#[test]
fn failed_programs_are_read_with_their_error() {
    let item = exec_item(EVENT_EXEC_FAILED, b"", 0, -2);
    match decode_event(&item) {
        Decoded::Event(EbpfEvent::Failed(info)) => {
            assert_eq!(info.errno, -2);
            assert!(info.args.is_empty());
        }
        other => panic!("unexpected {other:?}"),
    }
}

#[test]
fn ended_processes_are_read() {
    let mut item = Vec::new();
    item.extend(EVENT_PROCESS_EXIT.to_ne_bytes());
    item.extend(7u32.to_ne_bytes());
    item.extend(8u32.to_ne_bytes());
    item.extend(0u32.to_ne_bytes());
    item.extend(9_000_000_000u64.to_ne_bytes());
    item.extend(3u32.to_ne_bytes());
    item.extend(0u32.to_ne_bytes());
    match decode_event(&item) {
        Decoded::Event(EbpfEvent::Exit(data)) => {
            assert_eq!((data.pid, data.tgid, data.exit_code), (7, 8, 3));
            assert_eq!(data.exit_ns, 9_000_000_000);
        }
        other => panic!("unexpected {other:?}"),
    }
    assert!(matches!(decode_event(&item[..31]), Decoded::Short));
}

#[test]
fn short_and_unknown_items_are_told_apart() {
    assert!(matches!(decode_event(&[1, 0, 0]), Decoded::Short));
    assert!(matches!(decode_event(&9u32.to_ne_bytes()), Decoded::Unknown(9)));
    let item = exec_item(EVENT_EXEC_SUCCESS, b"abc", 1, 0);
    assert!(matches!(decode_event(&item[..183]), Decoded::Short));
    assert!(matches!(decode_event(&item[..185]), Decoded::Short));
}

#[test]
fn long_arguments_are_cut() {
    let item = exec_item(EVENT_EXEC_SUCCESS, &[b'x'; 80], 1, 0);
    match decode_event(&item) {
        Decoded::Event(EbpfEvent::Success(info)) => assert_eq!(info.args, vec!["x".repeat(64)]),
        other => panic!("unexpected {other:?}"),
    }
}

#[test]
fn the_filter_knows_users_and_patterns() {
    let open = Filter::new(vec![], None).unwrap();
    assert!(open.allow(0, "anything"));
    let empty = Filter::new(vec![], Some(String::new())).unwrap();
    assert!(empty.allow(0, "anything"));
    let strict = Filter::new(vec![1000, 1001], Some("^kworker.*".to_string())).unwrap();
    assert!(strict.allow(1001, "/usr/bin/vim"));
    assert!(!strict.allow(0, "/usr/bin/vim"));
    assert!(!strict.allow(1000, "kworker/0:1"));
    let message = Filter::new(vec![], Some("(".to_string())).unwrap_err();
    assert!(message.contains("unclosed group"));
}

#[test]
fn the_tracker_finds_what_was_entered() {
    let mut tracker = Tracker::new();
    tracker.insert(7, 70, 1, "vim".to_string(), 100);
    tracker.insert(8, 80, 2, "ls".to_string(), 100);
    assert_eq!(tracker.len(), 2);
    assert_eq!(tracker.get(7).unwrap().session_id, 70);
    assert_eq!(tracker.get(8).unwrap().client_id, "ls");
    tracker.insert(7, 71, 3, "vi".to_string(), 101);
    let meta = tracker.remove(7).unwrap();
    assert_eq!((meta.session_id, meta.start_time, meta.inserted_at), (71, 3, 101));
    assert!(tracker.remove(7).is_none());
    assert!(tracker.get(7).is_none());
    let rest = tracker.drain();
    assert_eq!(rest.len(), 1);
    assert_eq!((rest[0].0, rest[0].1.session_id), (8, 80));
    assert_eq!(tracker.len(), 0);
}

#[test]
fn old_entries_are_dropped() {
    let mut tracker = Tracker::new();
    tracker.insert(1, 10, 0, String::new(), 0);
    tracker.insert(2, 20, 0, String::new(), 1);
    let last = (TRACKER_STALE_SECS + 1) * SECOND;
    tracker.insert(3, 30, 0, String::new(), last - 1);
    assert_eq!(tracker.len(), 3);
    tracker.insert(4, 40, 0, String::new(), last);
    assert!(tracker.get(1).is_none());
    assert_eq!(tracker.len(), 3);
}

fn success(pid: u32, uid: u32) -> EbpfEvent {
    EbpfEvent::Success(ExecSuccessInfo {
        pid,
        tgid: pid,
        uid,
        start_ns: 12_999_999_999,
        comm: "vim".to_string(),
        filename: "vim".to_string(),
        args: vec!["a.txt".to_string(), String::new()],
    })
}

fn exit(pid: u32) -> EbpfEvent {
    EbpfEvent::Exit(ProcessExitData {
        pid,
        tgid: pid,
        exit_ns: 0,
        exit_code: 0,
    })
}

#[test]
fn a_started_session_is_ended_when_its_process_ends() {
    let filter = Filter::new(vec![], None).unwrap();
    let mut tracker = Tracker::new();
    let item = handle_event(&success(5, 0), &filter, &mut tracker).unwrap();
    match &item {
        RetryItem::StartSession { command, process_id, timestamp } => {
            assert_eq!(command, "vim a.txt");
            assert_eq!((*process_id, *timestamp), (5, 12));
        }
        other => panic!("unexpected {other:?}"),
    }
    assert!(settle(item, Answer::Started(99), &mut tracker, 1).is_none());
    assert_eq!(tracker.get(5).unwrap().client_id, "vim a.txt");
    assert!(handle_event(&exit(6), &filter, &mut tracker).is_none());
    match handle_event(&exit(5), &filter, &mut tracker) {
        Some(RetryItem::EndSession { session_id }) => assert_eq!(session_id, 99),
        other => panic!("unexpected {other:?}"),
    }
    assert!(handle_event(&exit(5), &filter, &mut tracker).is_none());
}

#[test]
fn reports_that_fail_are_given_back() {
    let filter = Filter::new(vec![], None).unwrap();
    let mut tracker = Tracker::new();
    let item = handle_event(&success(5, 0), &filter, &mut tracker).unwrap();
    assert!(matches!(
        settle(item, Answer::Refused, &mut tracker, 1),
        Some(RetryItem::StartSession { .. })
    ));
    assert_eq!(tracker.len(), 0);
    let failed = EbpfEvent::Failed(ExecFailedInfo {
        pid: 3,
        tgid: 3,
        uid: 0,
        start_ns: 1_000_000_000,
        comm: "x".to_string(),
        filename: "nope".to_string(),
        args: vec![],
        errno: -2,
    });
    let item = handle_event(&failed, &filter, &mut tracker).unwrap();
    match &item {
        RetryItem::LogFailed { command, errno, timestamp, .. } => {
            assert_eq!((command.as_str(), *errno, *timestamp), ("nope", -2, 1));
        }
        other => panic!("unexpected {other:?}"),
    }
    assert!(settle(item, Answer::Taken, &mut tracker, 1).is_none());
    let denied = Filter::new(vec![7], None).unwrap();
    assert!(handle_event(&success(5, 0), &denied, &mut tracker).is_none());
    assert!(handle_event(&failed, &denied, &mut tracker).is_none());
}

#[test]
fn reports_become_requests() {
    let exporter = Exporter::new("http://h:1".into(), "tok".into(), "host".into());
    let start = exporter.start_session("vim", 5, 12);
    assert_eq!(start.url, "http://h:1/api/sessions/start");
    assert_eq!(start.authorization, "Bearer tok");
    match start.body {
        RequestBody::StartSession { client_id, command, process_id } => {
            assert_eq!((client_id.as_str(), command.as_str(), process_id), ("host", "vim", 5));
        }
        other => panic!("unexpected {other:?}"),
    }
    let end = exporter.report(&RetryItem::EndSession { session_id: -3 });
    assert_eq!(end.url, "http://h:1/api/sessions/-3/end");
    assert!(matches!(end.body, RequestBody::Empty));
    let failed = exporter.log_failed("x", 1, 2, -13);
    assert_eq!(failed.url, "http://h:1/api/exec-events");
    assert!(matches!(
        failed.body,
        RequestBody::ExecEvent { timestamp: 2, errno: -13, process_id: 1, .. }
    ));
}

#[test]
fn kept_reports_come_back_and_none_is_lost() {
    let buffer = RetryBuffer::new("/tmp/retry.jsonl");
    assert_eq!(buffer.path, "/tmp/retry.jsonl");
    let mut file = String::new();
    for line in ["{\"a\":1}", "{\"b\":2}", "{\"c\":3}"] {
        file.push_str(&buffer.append(line));
    }
    let mut pass = buffer.replay(Some(&file)).unwrap();
    let mut lines = Vec::new();
    while let Some(line) = pass.line() {
        let made = line != "{\"b\":2}";
        lines.push(line.to_string());
        pass.settle(made);
    }
    pass.settle(true);
    assert_eq!(lines, vec!["{\"a\":1}", "{\"b\":2}", "{\"c\":3}"]);
    let (replayed, left) = pass.finish();
    assert_eq!(replayed, 2);
    match left {
        Leftover::Rewrite(text) => assert_eq!(text, "{\"b\":2}\n"),
        other => panic!("unexpected {other:?}"),
    }
}

#[test]
fn blank_files_are_left_alone() {
    let buffer = RetryBuffer::new("x");
    assert!(buffer.replay(None).is_none());
    assert!(Replay::new(" \n\t\n").is_none());
    let mut pass = Replay::new("\r\n one\r\n\n  \ntwo").unwrap();
    assert_eq!(pass.line(), Some(" one"));
    pass.settle(true);
    assert_eq!(pass.line(), Some("two"));
    pass.settle(true);
    assert_eq!(pass.line(), None);
    let (replayed, left) = pass.finish();
    assert_eq!(replayed, 2);
    assert!(matches!(left, Leftover::Remove));
}

#[test]
fn the_host_has_a_name() {
    assert_eq!(get_hostname(Some(b"laptop\0\0")), "laptop");
    assert_eq!(get_hostname(None), "unknown");
}

#[test]
fn numbers_are_read_in_either_byte_order() {
    assert!(matches!(decode_event_in(&[9, 1, 0, 0], true), Decoded::Unknown(265)));
    assert!(matches!(decode_event_in(&[0, 0, 1, 9], false), Decoded::Unknown(265)));
    let mut item = Vec::new();
    item.extend(EVENT_PROCESS_EXIT.to_be_bytes());
    item.extend(7u32.to_be_bytes());
    item.extend(8u32.to_be_bytes());
    item.extend(0u32.to_be_bytes());
    item.extend(9_000_000_000u64.to_be_bytes());
    item.extend(3u32.to_be_bytes());
    item.extend(0u32.to_be_bytes());
    match decode_event_in(&item, false) {
        Decoded::Event(EbpfEvent::Exit(data)) => {
            assert_eq!((data.pid, data.tgid, data.exit_code), (7, 8, 3));
            assert_eq!(data.exit_ns, 9_000_000_000);
        }
        other => panic!("unexpected {other:?}"),
    }
}

#[test]
fn the_probe_tells_the_byte_order() {
    assert!(matches!(decode_event_by(&[9, 1, 0, 0], 1), Decoded::Unknown(265)));
    assert!(matches!(decode_event_by(&[0, 0, 1, 9], 0x0100_0000), Decoded::Unknown(265)));
    let word = u32::from_ne_bytes([1, 0, 0, 0]);
    assert!(matches!(decode_event_by(&265u32.to_ne_bytes(), word), Decoded::Unknown(265)));
}

#[test]
fn buffers_hold_the_text_before_the_zero() {
    assert_eq!(bytes_to_string("grün\0rest".as_bytes()), "grün");
    assert_eq!(bytes_to_string("grün\0other".as_bytes()), "grün");
    assert_eq!(bytes_to_string(b"ab"), "ab");
    assert_eq!(bytes_to_string(b"a\xffb\0"), "a\u{fffd}b");
    assert_eq!(bytes_to_string(b"\0a"), "");
}
