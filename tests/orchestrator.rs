use freight::protocol::parse_worker_message;
use freight::worker::{
    migrate_destination, select_directories, DirEntry, JobPhase, LaunchOutcome, WorkerManager,
    WorkerStatus,
};

fn entry(name: &str, is_dir: bool) -> DirEntry {
    DirEntry { name: name.to_string(), path: format!("/src/{}", name), is_dir }
}

fn step(m: &mut WorkerManager, line: &str) -> Option<String> {
    let msg = parse_worker_message(line).unwrap();
    m.handle_worker_message(&msg)
}

#[test]
fn discovery_skips_hidden_and_files() {
    let entries = vec![
        entry("a", true),
        entry(".cache", true),
        entry("notes.txt", false),
        entry("b", true),
    ];
    assert_eq!(select_directories(&entries), vec!["/src/a".to_string(), "/src/b".to_string()]);
    assert!(select_directories(&Vec::new()).is_empty());
}

#[test]
fn launch_outcomes_are_recorded() {
    let mut m = WorkerManager::new();
    assert_eq!(m.status_of("scan", "a"), None);
    m.record_launch("scan", "a", LaunchOutcome::Started(Some(10)));
    m.record_launch("scan", "b", LaunchOutcome::Failed);
    assert_eq!(m.status_of("scan", "a"), Some(WorkerStatus::Running));
    assert_eq!(m.status_of("scan", "b"), Some(WorkerStatus::Failed));
}

#[test]
fn scan_ok_launches_migrate_once() {
    let mut m = WorkerManager::new();
    m.record_launch("scan", "a", LaunchOutcome::Started(Some(1)));
    assert_eq!(step(&mut m, "STOP tool=scan dir=a status=ok"), Some("a".to_string()));
    assert_eq!(m.status_of("scan", "a"), Some(WorkerStatus::Completed));
    assert_eq!(step(&mut m, "STOP tool=scan dir=a status=ok"), None);
}

#[test]
fn scan_failure_launches_nothing() {
    let mut m = WorkerManager::new();
    m.record_launch("scan", "a", LaunchOutcome::Started(None));
    m.record_launch("scan", "b", LaunchOutcome::Started(None));
    assert_eq!(step(&mut m, "STOP tool=scan dir=a status=error"), None);
    assert_eq!(step(&mut m, "STOP tool=scan dir=b"), None);
    assert_eq!(m.status_of("scan", "a"), Some(WorkerStatus::Failed));
    assert_eq!(m.status_of("scan", "b"), Some(WorkerStatus::Failed));
}

#[test]
fn other_messages_change_nothing() {
    let mut m = WorkerManager::new();
    m.record_launch("scan", "a", LaunchOutcome::Started(None));
    assert_eq!(step(&mut m, "START tool=scan dir=a"), None);
    assert_eq!(step(&mut m, "PROGRESS tool=scan dir=a bytes=5"), None);
    assert_eq!(step(&mut m, "HELLO host=h pid=1"), None);
    assert_eq!(step(&mut m, "STOP tool=scan dir=zzz status=ok"), None);
    assert_eq!(m.status_of("scan", "a"), Some(WorkerStatus::Running));
}

#[test]
fn migrate_stop_ends_the_job() {
    let mut m = WorkerManager::new();
    m.record_launch("scan", "a", LaunchOutcome::Started(None));
    assert_eq!(step(&mut m, "STOP tool=scan dir=a status=ok"), Some("a".to_string()));
    m.record_launch("migrate", "a", LaunchOutcome::Started(Some(2)));
    assert_eq!(step(&mut m, "STOP tool=migrate dir=a status=ok"), None);
    assert_eq!(m.status_of("migrate", "a"), Some(WorkerStatus::Completed));
}

#[test]
fn different_directories_in_either_order() {
    for order in [["a", "b"], ["b", "a"]] {
        let mut m = WorkerManager::new();
        m.record_launch("scan", "a", LaunchOutcome::Started(None));
        m.record_launch("scan", "b", LaunchOutcome::Started(None));
        for d in order {
            let line = format!("STOP tool=scan dir={} status=ok", d);
            assert_eq!(step(&mut m, &line), Some(d.to_string()));
        }
        assert_eq!(m.status_of("scan", "a"), Some(WorkerStatus::Completed));
        assert_eq!(m.status_of("scan", "b"), Some(WorkerStatus::Completed));
    }
}

#[test]
fn destination_is_final_component_under_root() {
    assert_eq!(migrate_destination("/dst", "/src/a"), Some("/dst/a".to_string()));
    assert_eq!(migrate_destination("/dst/", "/src/b/"), Some("/dst/b".to_string()));
    assert_eq!(migrate_destination("/dst", "/src/.."), None);
}

#[test]
fn configuration_is_kept() {
    let mut m = WorkerManager::new();
    assert!(m.config().is_none());
    m.set_config(freight::config::Config::default_with_paths("/s", "/d"));
    assert_eq!(m.config().unwrap().dest_path, "/d");
}

#[test]
fn job_phases_follow_the_workers() {
    let mut m = WorkerManager::new();
    assert_eq!(m.job_phase("a"), JobPhase::Pending);
    m.record_launch("scan", "a", LaunchOutcome::Started(None));
    m.record_launch("scan", "b", LaunchOutcome::Started(None));
    m.record_launch("scan", "c", LaunchOutcome::Failed);
    assert_eq!(m.job_phase("a"), JobPhase::Scanning);
    assert_eq!(m.job_phase("c"), JobPhase::ScanFailed);
    assert_eq!(step(&mut m, "STOP tool=scan dir=a status=ok"), Some("a".to_string()));
    assert_eq!(m.job_phase("a"), JobPhase::ScanOk);
    m.record_launch("migrate", "a", LaunchOutcome::Started(Some(3)));
    assert_eq!(m.job_phase("a"), JobPhase::Migrating);
    assert_eq!(step(&mut m, "STOP tool=migrate dir=a status=ok"), None);
    assert_eq!(m.job_phase("a"), JobPhase::MigrateOk);
    assert_eq!(step(&mut m, "STOP tool=scan dir=b status=ok"), Some("b".to_string()));
    m.record_launch("migrate", "b", LaunchOutcome::Failed);
    assert_eq!(m.job_phase("b"), JobPhase::MigrateFailed);
}
