use freight::connection::{read_line, Connection, LineOutcome};
use freight::registry::{WorkerIdentity, WorkerRegistry};
use freight::worker::{
    select_directories, DirEntry, JobPhase, LaunchOutcome, WorkerManager, WorkerStatus,
};

fn dir(name: &str) -> DirEntry {
    DirEntry { name: name.to_string(), path: name.to_string(), is_dir: true }
}

/// Feeds a worker's lines through its connection, the registry and the
/// orchestrator, and returns the migrate launches asked for.
fn feed(
    lines: &[&str],
    reg: &mut WorkerRegistry,
    manager: &mut WorkerManager,
) -> Vec<String> {
    let mut conn = Connection::new();
    let mut launches = Vec::new();
    for line in lines {
        if let LineOutcome::Message(m) = read_line(line) {
            conn.record(reg, &m);
            if let Some(d) = manager.handle_worker_message(&m) {
                manager.record_launch("migrate", &d, LaunchOutcome::Started(None));
                launches.push(d);
            }
        }
    }
    conn.close(reg);
    launches
}

#[test]
fn end_to_end_two_directories() {
    let found = select_directories(&vec![dir("a"), dir("b"), dir(".cache")]);
    assert_eq!(found, vec!["a".to_string(), "b".to_string()]);
    let mut reg = WorkerRegistry::new();
    let mut manager = WorkerManager::new();
    for d in &found {
        manager.record_launch("scan", d, LaunchOutcome::Started(None));
    }
    let a = feed(
        &["START tool=scan dir=a\n", "STOP tool=scan dir=a status=ok bytes=1000\n"],
        &mut reg,
        &mut manager,
    );
    assert_eq!(a, vec!["a".to_string()]);
    let b = feed(&["STOP tool=scan dir=b status=error\n"], &mut reg, &mut manager);
    assert!(b.is_empty());
    assert_eq!(manager.status_of("migrate", "a"), Some(WorkerStatus::Running));
    assert_eq!(manager.status_of("migrate", "b"), None);
    assert_eq!(manager.job_phase("a"), JobPhase::Migrating);
    assert_eq!(manager.job_phase("b"), JobPhase::ScanFailed);
    let id_b = WorkerIdentity { tool: "scan".to_string(), directory: "b".to_string() };
    assert_eq!(reg.get(&id_b).unwrap().status, "error");
    let id_a = WorkerIdentity { tool: "scan".to_string(), directory: "a".to_string() };
    let rec_a = reg.get(&id_a).unwrap();
    assert_eq!(rec_a.status, "ok");
    assert_eq!(rec_a.bytes_transferred, Some(1000));
}

#[test]
fn dropped_connection_leaves_job_unchanged() {
    let mut reg = WorkerRegistry::new();
    let mut manager = WorkerManager::new();
    manager.record_launch("scan", "a", LaunchOutcome::Started(Some(5)));
    let launches = feed(
        &["START tool=scan dir=a\n", "PROGRESS tool=scan dir=a msg=working\n"],
        &mut reg,
        &mut manager,
    );
    assert!(launches.is_empty());
    let id_a = WorkerIdentity { tool: "scan".to_string(), directory: "a".to_string() };
    let rec = reg.get(&id_a).unwrap();
    assert!(!rec.connected);
    assert_eq!(rec.status, "running");
    assert_eq!(manager.status_of("scan", "a"), Some(WorkerStatus::Running));
    assert_eq!(manager.job_phase("a"), JobPhase::Scanning);
}
