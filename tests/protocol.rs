use freight::protocol::{
    format_worker_message, parse_worker_message, MessageType, ProtocolErrorKind, WorkerMessage,
};

fn s(x: &str) -> String {
    x.to_string()
}

#[test]
fn parses_hello_with_host_and_pid() {
    let m = parse_worker_message("HELLO freight/0.1.0 host=node1 pid=1234").unwrap();
    match m {
        WorkerMessage::Hello { host, pid } => {
            assert_eq!(host, Some(s("node1")));
            assert_eq!(pid, Some(1234));
        }
        other => panic!("unexpected {:?}", other),
    }
}

#[test]
fn parses_start() {
    let m = parse_worker_message("START tool=scan dir=user/").unwrap();
    assert_eq!(m.message_type(), MessageType::Start);
    match m {
        WorkerMessage::Start { tool, directory } => {
            assert_eq!(tool, "scan");
            assert_eq!(directory, Some(s("user/")));
        }
        other => panic!("unexpected {:?}", other),
    }
}

#[test]
fn parses_progress_in_any_order() {
    let m = parse_worker_message("PROGRESS bytes=42 msg=scanning... dir=d tool=scan").unwrap();
    match m {
        WorkerMessage::Progress { tool, directory, message, bytes } => {
            assert_eq!(tool, "scan");
            assert_eq!(directory, Some(s("d")));
            assert_eq!(message, Some(s("scanning...")));
            assert_eq!(bytes, Some(42));
        }
        other => panic!("unexpected {:?}", other),
    }
}

#[test]
fn parses_stop_with_all_fields() {
    let m = parse_worker_message("STOP tool=scan dir=user/ status=ok bytes=1234 msg=completed")
        .unwrap();
    match m {
        WorkerMessage::Stop { tool, directory, status, bytes, message } => {
            assert_eq!(tool, "scan");
            assert_eq!(directory, Some(s("user/")));
            assert_eq!(status, Some(s("ok")));
            assert_eq!(bytes, Some(1234));
            assert_eq!(message, Some(s("completed")));
        }
        other => panic!("unexpected {:?}", other),
    }
}

#[test]
fn missing_tool_defaults_to_unknown() {
    match parse_worker_message("STOP dir=a").unwrap() {
        WorkerMessage::Stop { tool, directory, status, bytes, message } => {
            assert_eq!(tool, "unknown");
            assert_eq!(directory, Some(s("a")));
            assert_eq!(status, None);
            assert_eq!(bytes, None);
            assert_eq!(message, None);
        }
        other => panic!("unexpected {:?}", other),
    }
}

#[test]
fn unparsable_numbers_are_absent() {
    match parse_worker_message("PROGRESS tool=scan bytes=12x").unwrap() {
        WorkerMessage::Progress { bytes, .. } => assert_eq!(bytes, None),
        other => panic!("unexpected {:?}", other),
    }
    match parse_worker_message("HELLO v pid=-1 host=h").unwrap() {
        WorkerMessage::Hello { host, pid } => {
            assert_eq!(pid, None);
            assert_eq!(host, Some(s("h")));
        }
        other => panic!("unexpected {:?}", other),
    }
    match parse_worker_message("HELLO v pid=4294967296").unwrap() {
        WorkerMessage::Hello { pid, .. } => assert_eq!(pid, None),
        other => panic!("unexpected {:?}", other),
    }
}

#[test]
fn plus_sign_and_largest_numbers_parse() {
    match parse_worker_message("HELLO pid=+7").unwrap() {
        WorkerMessage::Hello { pid, .. } => assert_eq!(pid, Some(7)),
        other => panic!("unexpected {:?}", other),
    }
    match parse_worker_message("STOP tool=t bytes=18446744073709551615").unwrap() {
        WorkerMessage::Stop { bytes, .. } => assert_eq!(bytes, Some(u64::MAX)),
        other => panic!("unexpected {:?}", other),
    }
}

#[test]
fn last_repeated_key_wins() {
    match parse_worker_message("START tool=a tool=b dir=x dir=y").unwrap() {
        WorkerMessage::Start { tool, directory } => {
            assert_eq!(tool, "b");
            assert_eq!(directory, Some(s("y")));
        }
        other => panic!("unexpected {:?}", other),
    }
}

#[test]
fn unknown_keys_are_ignored() {
    match parse_worker_message("START tool=scan colour=blue dir=a").unwrap() {
        WorkerMessage::Start { tool, directory } => {
            assert_eq!(tool, "scan");
            assert_eq!(directory, Some(s("a")));
        }
        other => panic!("unexpected {:?}", other),
    }
}

#[test]
fn empty_line_is_rejected() {
    let e = parse_worker_message("").unwrap_err();
    assert_eq!(e.kind, ProtocolErrorKind::EmptyLine);
    let e = parse_worker_message("  \t \n").unwrap_err();
    assert_eq!(e.kind, ProtocolErrorKind::EmptyLine);
    assert_eq!(e.line, "  \t \n");
}

#[test]
fn unknown_kind_is_rejected() {
    let e = parse_worker_message("BYE tool=scan").unwrap_err();
    assert_eq!(e.kind, ProtocolErrorKind::UnknownKind);
    assert_eq!(e.line, "BYE tool=scan");
    let e = parse_worker_message("stop tool=scan").unwrap_err();
    assert_eq!(e.kind, ProtocolErrorKind::UnknownKind);
    let e = parse_worker_message("tool=scan STOP").unwrap_err();
    assert_eq!(e.kind, ProtocolErrorKind::UnknownKind);
}

#[test]
fn formats_each_kind() {
    let hello = WorkerMessage::Hello { host: Some(s("h")), pid: Some(99) };
    assert_eq!(format_worker_message(&hello), "HELLO host=h pid=99");
    let start = WorkerMessage::Start { tool: s("scan"), directory: Some(s("a")) };
    assert_eq!(format_worker_message(&start), "START tool=scan dir=a");
    let progress = WorkerMessage::Progress {
        tool: s("migrate"),
        directory: None,
        message: Some(s("copying")),
        bytes: Some(0),
    };
    assert_eq!(format_worker_message(&progress), "PROGRESS tool=migrate msg=copying bytes=0");
    let stop = WorkerMessage::Stop {
        tool: s("scan"),
        directory: Some(s("a")),
        status: Some(s("ok")),
        bytes: Some(1000),
        message: None,
    };
    assert_eq!(format_worker_message(&stop), "STOP tool=scan dir=a status=ok bytes=1000");
    let bare = WorkerMessage::Hello { host: None, pid: None };
    assert_eq!(format_worker_message(&bare), "HELLO");
}

fn round_trip(line: &str) {
    let first = parse_worker_message(line).unwrap();
    let written = format_worker_message(&first);
    let second = parse_worker_message(&written).unwrap();
    assert_eq!(format!("{:?}", first), format!("{:?}", second));
}

#[test]
fn decode_encode_decode_round_trips() {
    round_trip("HELLO freight/0.1.0 host=node1 pid=1234");
    round_trip("HELLO");
    round_trip("START tool=scan dir=user/");
    round_trip("START");
    round_trip("PROGRESS tool=scan dir=d msg=half bytes=+0042 extra=1");
    round_trip("STOP tool=scan dir=a status=ok bytes=1000");
    round_trip("   STOP\tmsg=x status=error   bytes=oops host=h ");
}

#[test]
fn message_accessors() {
    let m = parse_worker_message("STOP tool=scan dir=a status=ok").unwrap();
    assert_eq!(m.message_type(), MessageType::Stop);
    let h = parse_worker_message("HELLO host=h").unwrap();
    assert_eq!(h.message_type(), MessageType::Hello);
}

#[test]
fn unicode_whitespace_separates_words() {
    match parse_worker_message("START\u{3000}tool=scan\u{a0}dir=a\u{2003}").unwrap() {
        WorkerMessage::Start { tool, directory } => {
            assert_eq!(tool, "scan");
            assert_eq!(directory, Some(s("a")));
        }
        other => panic!("unexpected {:?}", other),
    }
}

#[test]
fn hello_keys_may_follow_the_kind_directly() {
    match parse_worker_message("HELLO host=h").unwrap() {
        WorkerMessage::Hello { host, pid } => {
            assert_eq!(host, Some(s("h")));
            assert_eq!(pid, None);
        }
        other => panic!("unexpected {:?}", other),
    }
    match parse_worker_message("HELLO").unwrap() {
        WorkerMessage::Hello { host, pid } => {
            assert_eq!(host, None);
            assert_eq!(pid, None);
        }
        other => panic!("unexpected {:?}", other),
    }
}
