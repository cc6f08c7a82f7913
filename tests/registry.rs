use freight::connection::{read_line, Connection, LineOutcome};
use freight::protocol::parse_worker_message;
use freight::registry::{identity_of, WorkerIdentity, WorkerRegistry};

fn id(tool: &str, dir: &str) -> WorkerIdentity {
    WorkerIdentity { tool: tool.to_string(), directory: dir.to_string() }
}

fn apply(reg: &mut WorkerRegistry, line: &str) -> WorkerIdentity {
    let m = parse_worker_message(line).unwrap();
    reg.apply(&m)
}

#[test]
fn first_message_creates_record_then_applies_it() {
    let mut reg = WorkerRegistry::new();
    let k = apply(&mut reg, "PROGRESS tool=scan dir=a msg=half");
    assert_eq!((k.tool.as_str(), k.directory.as_str()), ("scan", "a"));
    assert_eq!(reg.len(), 1);
    let r = reg.get(&id("scan", "a")).unwrap();
    assert_eq!(r.status, "unknown");
    assert_eq!(r.last_message.as_deref(), Some("half"));
    assert_eq!(r.directory.as_deref(), Some("a"));
    assert!(r.connected);
}

#[test]
fn start_sets_running() {
    let mut reg = WorkerRegistry::new();
    apply(&mut reg, "START tool=scan dir=a");
    assert_eq!(reg.get(&id("scan", "a")).unwrap().status, "running");
}

#[test]
fn repeated_messages_update_one_record() {
    let mut reg = WorkerRegistry::new();
    apply(&mut reg, "START tool=scan dir=a");
    apply(&mut reg, "PROGRESS tool=scan dir=a bytes=10");
    apply(&mut reg, "PROGRESS tool=scan dir=a msg=more");
    apply(&mut reg, "START tool=scan dir=b");
    assert_eq!(reg.len(), 2);
    let r = reg.get(&id("scan", "a")).unwrap();
    assert_eq!(r.status, "running");
    assert_eq!(r.bytes_transferred, Some(10));
    assert_eq!(r.last_message.as_deref(), Some("more"));
}

#[test]
fn stop_sets_status_and_bytes() {
    let mut reg = WorkerRegistry::new();
    apply(&mut reg, "PROGRESS tool=scan dir=a bytes=5");
    apply(&mut reg, "STOP tool=scan dir=a status=error");
    let r = reg.get(&id("scan", "a")).unwrap();
    assert_eq!(r.status, "error");
    assert_eq!(r.bytes_transferred, Some(5));
    apply(&mut reg, "STOP tool=scan dir=a bytes=9");
    let r = reg.get(&id("scan", "a")).unwrap();
    assert_eq!(r.status, "completed");
    assert_eq!(r.bytes_transferred, Some(9));
}

#[test]
fn hello_records_origin_under_unknown_identity() {
    let mut reg = WorkerRegistry::new();
    let k = apply(&mut reg, "HELLO freight/0.1.0 host=node1 pid=77");
    assert_eq!((k.tool.as_str(), k.directory.as_str()), ("unknown", "unknown"));
    let r = reg.get(&id("unknown", "unknown")).unwrap();
    assert_eq!(r.status, "connected");
    assert_eq!(r.host.as_deref(), Some("node1"));
    assert_eq!(r.pid, Some(77));
    assert!(r.connected);
}

#[test]
fn missing_directory_uses_unknown_identity() {
    let mut reg = WorkerRegistry::new();
    apply(&mut reg, "START tool=scan");
    apply(&mut reg, "STOP tool=scan status=ok");
    assert_eq!(reg.len(), 1);
    let r = reg.get(&id("scan", "unknown")).unwrap();
    assert_eq!(r.status, "ok");
    assert_eq!(r.directory, None);
}

#[test]
fn identity_of_message() {
    let m = parse_worker_message("STOP tool=migrate dir=x").unwrap();
    let k = identity_of(&m);
    assert_eq!(k.tool, "migrate");
    assert_eq!(k.directory, "x");
}

#[test]
fn snapshot_copies_all_records() {
    let mut reg = WorkerRegistry::new();
    apply(&mut reg, "START tool=scan dir=a");
    apply(&mut reg, "START tool=migrate dir=a");
    let snap = reg.snapshot();
    assert_eq!(snap.len(), 2);
    assert_eq!(snap[0].tool, "scan");
    assert_eq!(snap[1].tool, "migrate");
    apply(&mut reg, "STOP tool=scan dir=a status=ok");
    assert_eq!(snap[0].status, "running");
}

#[test]
fn read_line_outcomes() {
    assert!(matches!(read_line("\n"), LineOutcome::Blank));
    match read_line("NOPE x=1\n") {
        LineOutcome::Rejected(e) => assert_eq!(e.line, "NOPE x=1\n"),
        other => panic!("unexpected {:?}", other),
    }
    assert!(matches!(read_line("START tool=scan dir=a\n"), LineOutcome::Message(_)));
}

#[test]
fn bad_line_does_not_end_connection() {
    let mut reg = WorkerRegistry::new();
    let mut conn = Connection::new();
    for line in ["START tool=scan dir=a\n", "GARBAGE\n", "\n", "PROGRESS tool=scan dir=a bytes=3\n"] {
        if let LineOutcome::Message(m) = read_line(line) {
            conn.record(&mut reg, &m);
        }
    }
    let r = reg.get(&id("scan", "a")).unwrap();
    assert_eq!(r.status, "running");
    assert_eq!(r.bytes_transferred, Some(3));
}

#[test]
fn connection_drop_keeps_last_status() {
    let mut reg = WorkerRegistry::new();
    let mut conn = Connection::new();
    for line in ["START tool=migrate dir=a", "PROGRESS tool=migrate dir=a bytes=100"] {
        let m = parse_worker_message(line).unwrap();
        conn.record(&mut reg, &m);
    }
    let mut other = Connection::new();
    let m = parse_worker_message("START tool=scan dir=b").unwrap();
    other.record(&mut reg, &m);
    conn.close(&mut reg);
    let r = reg.get(&id("migrate", "a")).unwrap();
    assert!(!r.connected);
    assert_eq!(r.status, "running");
    assert_eq!(r.bytes_transferred, Some(100));
    assert!(reg.get(&id("scan", "b")).unwrap().connected);
}

#[test]
fn closing_a_silent_connection_changes_nothing() {
    let mut reg = WorkerRegistry::new();
    apply(&mut reg, "START tool=scan dir=a");
    let conn = Connection::new();
    conn.close(&mut reg);
    assert!(reg.get(&id("scan", "a")).unwrap().connected);
    assert_eq!(reg.len(), 1);
}
