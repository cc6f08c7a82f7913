//! The migration orchestrator: which directories migrate, which tool runs
//! next for each, and what a worker's `STOP` message changes.
//!
//! Launching processes and waiting for bus messages happen outside; this
//! module takes their results and says what to launch next.
use vstd::prelude::*;
use vstd::string::*;
use crate::config::{joined, join_path, Config};
use crate::protocol::{opt_view, or_unknown, strip_key, MessageView, WorkerMessage};

verus! {

/// Where a launched worker stands, as the orchestrator sees it.
#[derive(Clone, Copy, Debug, PartialEq, Eq, Structural)]
pub enum WorkerStatus {
    Pending,
    Running,
    Completed,
    Failed,
}

/// A worker process this orchestrator launched.
#[derive(Debug)]
pub struct WorkerInfo {
    pub tool: String,
    pub directory: String,
    pub status: WorkerStatus,
    pub pid: Option<u32>,
}

pub struct WorkerInfoView {
    pub tool: Seq<char>,
    pub directory: Seq<char>,
    pub status: WorkerStatus,
    pub pid: Option<u32>,
}

impl View for WorkerInfo {
    type V = WorkerInfoView;

    open spec fn view(&self) -> WorkerInfoView {
        WorkerInfoView {
            tool: self.tool@,
            directory: self.directory@,
            status: self.status,
            pid: self.pid,
        }
    }
}

/// How an attempt to launch a tool process ended.
#[derive(Clone, Copy, Debug, PartialEq, Eq, Structural)]
pub enum LaunchOutcome {
    /// The process runs, with its process id where the system gave one.
    Started(Option<u32>),
    /// The process could not be launched.
    Failed,
}

/// One entry of the source root, as the directory listing gave it.
#[derive(Debug)]
pub struct DirEntry {
    pub name: String,
    pub path: String,
    pub is_dir: bool,
}

pub open spec fn tool_scan() -> Seq<char> {
    seq!['s', 'c', 'a', 'n']
}

pub open spec fn tool_migrate() -> Seq<char> {
    seq!['m', 'i', 'g', 'r', 'a', 't', 'e']
}

pub open spec fn status_ok() -> Seq<char> {
    seq!['o', 'k']
}

/// A name that starts with the hidden-file marker `.`.
pub open spec fn is_hidden(name: Seq<char>) -> bool {
    name.len() > 0 && name[0] == '.'
}

/// The paths of the entries that migrate: directories whose name is not hidden,
/// in listing order.
pub open spec fn migratable(entries: Seq<DirEntry>) -> Seq<Seq<char>>
    decreases entries.len(),
{
    if entries.len() == 0 {
        seq![]
    } else {
        let e = entries.last();
        let before = migratable(entries.drop_last());
        if e.is_dir && !is_hidden(e.name@) {
            before.push(e.path@)
        } else {
            before
        }
    }
}

pub open spec fn worker_key(w: WorkerInfoView) -> (Seq<char>, Seq<char>) {
    (w.tool, w.directory)
}

pub open spec fn has_worker(ws: Seq<WorkerInfoView>, k: (Seq<char>, Seq<char>)) -> bool {
    exists|i: int| 0 <= i < ws.len() && worker_key(#[trigger] ws[i]) == k
}

pub open spec fn unique_workers(ws: Seq<WorkerInfoView>) -> bool {
    forall|i: int, j: int|
        0 <= i < ws.len() && 0 <= j < ws.len() && i != j ==> worker_key(#[trigger] ws[i])
            != worker_key(#[trigger] ws[j])
}

/// The record of a launch attempt.
pub open spec fn launched_worker(
    tool: Seq<char>,
    directory: Seq<char>,
    outcome: LaunchOutcome,
) -> WorkerInfoView {
    match outcome {
        LaunchOutcome::Started(pid) => WorkerInfoView {
            tool,
            directory,
            status: WorkerStatus::Running,
            pid,
        },
        LaunchOutcome::Failed => WorkerInfoView {
            tool,
            directory,
            status: WorkerStatus::Failed,
            pid: None,
        },
    }
}

/// The workers after a launch attempt: the attempt's record replaces any
/// earlier one of the same tool and directory.
pub open spec fn manager_launch(
    ws: Seq<WorkerInfoView>,
    tool: Seq<char>,
    directory: Seq<char>,
    outcome: LaunchOutcome,
) -> Seq<WorkerInfoView> {
    let w = launched_worker(tool, directory, outcome);
    if has_worker(ws, (tool, directory)) {
        let i = choose|i: int| 0 <= i < ws.len() && worker_key(#[trigger] ws[i]) == (tool, directory);
        ws.update(i, w)
    } else {
        ws.push(w)
    }
}

/// Whether a worker of key `k` is running.
pub open spec fn is_running(ws: Seq<WorkerInfoView>, k: (Seq<char>, Seq<char>)) -> bool {
    exists|i: int|
        0 <= i < ws.len() && worker_key(#[trigger] ws[i]) == k && ws[i].status
            == WorkerStatus::Running
}

pub open spec fn succeeded(status: Option<Seq<char>>) -> bool {
    status == Some(status_ok())
}

/// One bus message seen by the orchestrator: the workers afterwards, and the
/// directory whose migrate worker is to be launched, if any.
///
/// Only a `STOP` for a running worker changes anything: the worker completes
/// when the status is `ok` and fails otherwise, and a completed scan of a
/// named directory asks for that directory's migrate worker.
pub open spec fn manager_step(ws: Seq<WorkerInfoView>, m: MessageView) -> (
    Seq<WorkerInfoView>,
    Option<Seq<char>>,
) {
    match m {
        MessageView::Stop { tool, directory, status, .. } => {
            let k = (tool, or_unknown(directory));
            if is_running(ws, k) {
                let i = choose|i: int|
                    0 <= i < ws.len() && worker_key(#[trigger] ws[i]) == k && ws[i].status
                        == WorkerStatus::Running;
                let next = if succeeded(status) {
                    WorkerStatus::Completed
                } else {
                    WorkerStatus::Failed
                };
                let ws2 = ws.update(i, WorkerInfoView { status: next, ..ws[i] });
                let launch = if tool == tool_scan() && succeeded(status) {
                    directory
                } else {
                    None
                };
                (ws2, launch)
            } else {
                (ws, None)
            }
        },
        _ => (ws, None),
    }
}

/// Where a directory's migration stands.
#[derive(Clone, Copy, Debug, PartialEq, Eq, Structural)]
pub enum JobPhase {
    Pending,
    Scanning,
    ScanFailed,
    ScanOk,
    Migrating,
    MigrateFailed,
    MigrateOk,
}

/// The status of the worker of key `k`, if there is one.
pub open spec fn worker_status(ws: Seq<WorkerInfoView>, k: (Seq<char>, Seq<char>)) -> Option<
    WorkerStatus,
> {
    if has_worker(ws, k) {
        let i = choose|i: int| 0 <= i < ws.len() && worker_key(#[trigger] ws[i]) == k;
        Some(ws[i].status)
    } else {
        None
    }
}

/// The phase of a directory from the statuses of its scan and migrate workers.
pub open spec fn phase_of(scan: Option<WorkerStatus>, migrate: Option<WorkerStatus>) -> JobPhase {
    match scan {
        None => JobPhase::Pending,
        Some(WorkerStatus::Pending) => JobPhase::Pending,
        Some(WorkerStatus::Running) => JobPhase::Scanning,
        Some(WorkerStatus::Failed) => JobPhase::ScanFailed,
        Some(WorkerStatus::Completed) => match migrate {
            None => JobPhase::ScanOk,
            Some(WorkerStatus::Pending) => JobPhase::ScanOk,
            Some(WorkerStatus::Running) => JobPhase::Migrating,
            Some(WorkerStatus::Failed) => JobPhase::MigrateFailed,
            Some(WorkerStatus::Completed) => JobPhase::MigrateOk,
        },
    }
}

/// The phase of `directory` among the workers `ws`.
pub open spec fn job_phase(ws: Seq<WorkerInfoView>, directory: Seq<char>) -> JobPhase {
    phase_of(
        worker_status(ws, (tool_scan(), directory)),
        worker_status(ws, (tool_migrate(), directory)),
    )
}

/// Relies on `Path::file_name`: the final component of a path, or none where
/// the path ends in `..` or has no component. A component is never empty and
/// holds no `/`.
pub uninterp spec fn file_name_of(path: Seq<char>) -> Option<Seq<char>>;

/// Relies on `Path::file_name` for the final component of `path`, and on
/// `OsStr::to_string_lossy`, exact on a component of a `str`.
#[verifier::external_body]
fn path_file_name(path: &str) -> (r: Option<String>)
    ensures
        opt_view(r) == file_name_of(path@),
        r matches Some(n) ==> n@.len() > 0 && n@[0] != '/',
{
    std::path::Path::new(path).file_name().map(|n| n.to_string_lossy().into_owned())
}

/// Where the migrate worker of `directory` writes: the directory's final
/// component under the destination root. None where the directory has no
/// final component.
pub fn migrate_destination(dest_root: &str, directory: &str) -> (r: Option<String>)
    ensures
        match file_name_of(directory@) {
            Some(n) => r matches Some(p) && p@ == joined(dest_root@, n),
            None => r is None,
        },
{
    match path_file_name(directory) {
        Some(n) => Some(join_path(dest_root, n.as_str())),
        None => None,
    }
}

/// The entries of a source root that migrate: directories whose name does not
/// start with `.`, in listing order.
pub fn select_directories(entries: &Vec<DirEntry>) -> (r: Vec<String>)
    ensures
        r@.map_values(|s: String| s@) == migratable(entries@),
{
    let mut out: Vec<String> = Vec::new();
    let mut i: usize = 0;
    proof {
        reveal_strlit(".");
        assert("."@ =~= seq!['.']);
    }
    assert(entries@.subrange(0, 0) =~= Seq::<DirEntry>::empty());
    while i < entries.len()
        invariant
            i <= entries@.len(),
            out@.map_values(|s: String| s@) == migratable(entries@.subrange(0, i as int)),
            "."@ == seq!['.'],
        decreases entries.len() - i,
    {
        let e = &entries[i];
        let ghost before = entries@.subrange(0, i as int);
        assert(entries@.subrange(0, i + 1).drop_last() =~= before);
        assert(entries@.subrange(0, i + 1).last() == *e);
        let hidden = strip_key(e.name.as_str(), ".").is_some();
        assert(hidden == is_hidden(e.name@)) by {
            if e.name@.len() > 0 && e.name@[0] == '.' {
                assert(seq!['.'].is_prefix_of(e.name@)) by {
                    assert(e.name@.subrange(0, 1) =~= seq!['.']);
                }
            }
            if seq!['.'].is_prefix_of(e.name@) {
                assert(e.name@.subrange(0, 1)[0] == '.');
            }
        }
        if e.is_dir && !hidden {
            let ghost prev = out@;
            out.push(e.path.clone());
            assert(out@.map_values(|s: String| s@) =~= prev.map_values(|s: String| s@).push(
                e.path@,
            ));
        }
        i = i + 1;
    }
    assert(entries@.subrange(0, i as int) =~= entries@);
    out
}

/// The orchestrator: the configuration of the run and the workers it launched.
pub struct WorkerManager {
    config: Option<Config>,
    workers: Vec<WorkerInfo>,
}

fn same_text(a: &String, lit: &str) -> (r: bool)
    ensures
        r == (a@ == lit@),
{
    *a == String::from_str(lit)
}

fn text_or_unknown(o: &Option<String>) -> (r: String)
    ensures
        r@ == or_unknown(opt_view(*o)),
{
    proof {
        reveal_strlit("unknown");
        assert("unknown"@ =~= crate::protocol::unknown_text());
    }
    match o {
        Some(s) => s.clone(),
        None => String::from_str("unknown"),
    }
}

impl WorkerManager {
    pub closed spec fn workers_view(&self) -> Seq<WorkerInfoView> {
        self.workers@.map_values(|w: WorkerInfo| w@)
    }

    pub closed spec fn config_view(&self) -> Option<Config> {
        self.config
    }

    /// At most one worker per tool and directory.
    pub open spec fn wf(&self) -> bool {
        unique_workers(self.workers_view())
    }

    /// An orchestrator with no configuration and no workers.
    pub fn new() -> (r: WorkerManager)
        ensures
            r.wf(),
            r.workers_view() == Seq::<WorkerInfoView>::empty(),
            r.config_view() is None,
    {
        let r = WorkerManager { config: None, workers: Vec::new() };
        assert(r.workers_view() =~= Seq::<WorkerInfoView>::empty());
        r
    }

    /// Sets the configuration of the run.
    pub fn set_config(&mut self, config: Config)
        ensures
            final(self).config_view() == Some(config),
            final(self).workers_view() == old(self).workers_view(),
    {
        self.config = Some(config);
    }

    /// The configuration of the run, if one was set.
    pub fn config(&self) -> (r: Option<&Config>)
        ensures
            match self.config_view() {
                Some(c) => r == Some(&c),
                None => r is None,
            },
    {
        match &self.config {
            Some(c) => Some(c),
            None => None,
        }
    }

    fn position(&self, tool: &String, directory: &String) -> (r: Option<usize>)
        ensures
            match r {
                Some(i) => i < self.workers_view().len() && worker_key(
                    self.workers_view()[i as int],
                ) == (tool@, directory@),
                None => !has_worker(self.workers_view(), (tool@, directory@)),
            },
    {
        let mut i: usize = 0;
        while i < self.workers.len()
            invariant
                i <= self.workers@.len(),
                forall|j: int|
                    0 <= j < i ==> worker_key(#[trigger] self.workers_view()[j]) != (
                        tool@,
                        directory@,
                    ),
            decreases self.workers.len() - i,
        {
            let w = &self.workers[i];
            if w.tool == *tool && w.directory == *directory {
                return Some(i);
            }
            i = i + 1;
        }
        None
    }

    /// The status of the worker of `tool` for `directory`, if one was launched.
    pub fn status_of(&self, tool: &str, directory: &str) -> (r: Option<WorkerStatus>)
        ensures
            self.wf() ==> r == worker_status(self.workers_view(), (tool@, directory@)),
            match r {
                Some(s) => exists|i: int|
                    0 <= i < self.workers_view().len() && worker_key(
                        #[trigger] self.workers_view()[i],
                    ) == (tool@, directory@) && self.workers_view()[i].status == s,
                None => !has_worker(self.workers_view(), (tool@, directory@)),
            },
    {
        let t = String::from_str(tool);
        let d = String::from_str(directory);
        match self.position(&t, &d) {
            Some(i) => {
                proof {
                    if self.wf() {
                        let ws = self.workers_view();
                        let j = choose|j: int|
                            0 <= j < ws.len() && worker_key(#[trigger] ws[j]) == (tool@, directory@);
                        assert(i == j);
                    }
                }
                Some(self.workers[i].status)
            },
            None => None,
        }
    }

    /// Where the migration of `directory` stands.
    pub fn job_phase(&self, directory: &str) -> (r: JobPhase)
        requires
            self.wf(),
        ensures
            r == job_phase(self.workers_view(), directory@),
    {
        proof {
            reveal_strlit("scan");
            reveal_strlit("migrate");
            assert("scan"@ =~= tool_scan());
            assert("migrate"@ =~= tool_migrate());
        }
        let scan = self.status_of("scan", directory);
        let migrate = self.status_of("migrate", directory);
        match scan {
            None => JobPhase::Pending,
            Some(WorkerStatus::Pending) => JobPhase::Pending,
            Some(WorkerStatus::Running) => JobPhase::Scanning,
            Some(WorkerStatus::Failed) => JobPhase::ScanFailed,
            Some(WorkerStatus::Completed) => match migrate {
                None => JobPhase::ScanOk,
                Some(WorkerStatus::Pending) => JobPhase::ScanOk,
                Some(WorkerStatus::Running) => JobPhase::Migrating,
                Some(WorkerStatus::Failed) => JobPhase::MigrateFailed,
                Some(WorkerStatus::Completed) => JobPhase::MigrateOk,
            },
        }
    }

    /// Records the outcome of launching `tool` for `directory`: a started
    /// process runs, one that could not be launched has failed, for good.
    pub fn record_launch(&mut self, tool: &str, directory: &str, outcome: LaunchOutcome)
        requires
            old(self).wf(),
        ensures
            final(self).wf(),
            final(self).config_view() == old(self).config_view(),
            final(self).workers_view() == manager_launch(
                old(self).workers_view(),
                tool@,
                directory@,
                outcome,
            ),
    {
        let t = String::from_str(tool);
        let d = String::from_str(directory);
        let (status, pid) = match outcome {
            LaunchOutcome::Started(pid) => (WorkerStatus::Running, pid),
            LaunchOutcome::Failed => (WorkerStatus::Failed, None),
        };
        let ghost before = self.workers_view();
        let ghost w = launched_worker(tool@, directory@, outcome);
        match self.position(&t, &d) {
            Some(i) => {
                let ghost j = choose|j: int|
                    0 <= j < before.len() && worker_key(#[trigger] before[j]) == (tool@, directory@);
                assert(j == i);
                self.workers.set(i, WorkerInfo { tool: t, directory: d, status, pid });
                assert(self.workers_view() =~= before.update(i as int, w));
                assert forall|a: int, b: int|
                    0 <= a < before.len() && 0 <= b < before.len() && a != b implies worker_key(
                    #[trigger] self.workers_view()[a],
                ) != worker_key(#[trigger] self.workers_view()[b]) by {
                    assert(worker_key(self.workers_view()[a]) == worker_key(before[a]));
                    assert(worker_key(self.workers_view()[b]) == worker_key(before[b]));
                }
            },
            None => {
                self.workers.push(WorkerInfo { tool: t, directory: d, status, pid });
                assert(self.workers_view() =~= before.push(w));
                assert forall|a: int, b: int|
                    0 <= a < self.workers_view().len() && 0 <= b < self.workers_view().len() && a
                        != b implies worker_key(#[trigger] self.workers_view()[a]) != worker_key(
                    #[trigger] self.workers_view()[b],
                ) by {
                    if a < before.len() {
                        assert(self.workers_view()[a] == before[a]);
                    }
                    if b < before.len() {
                        assert(self.workers_view()[b] == before[b]);
                    }
                }
            },
        }
    }

    /// Takes one bus message into account. Returns the directory whose
    /// migrate worker is to be launched now, if any.
    pub fn handle_worker_message(&mut self, m: &WorkerMessage) -> (r: Option<String>)
        requires
            old(self).wf(),
        ensures
            final(self).wf(),
            final(self).config_view() == old(self).config_view(),
            (final(self).workers_view(), opt_view(r)) == manager_step(old(self).workers_view(), m@),
    {
        match m {
            WorkerMessage::Stop { tool, directory, status, .. } => {
                let d = text_or_unknown(directory);
                let ghost before = self.workers_view();
                let ghost k = (tool@, d@);
                match self.position(tool, &d) {
                    Some(i) => {
                        if self.workers[i].status != WorkerStatus::Running {
                            assert(!is_running(before, k)) by {
                                if is_running(before, k) {
                                    let j = choose|j: int|
                                        0 <= j < before.len() && worker_key(#[trigger] before[j])
                                            == k && before[j].status == WorkerStatus::Running;
                                    assert(i == j);
                                }
                            }
                            return None;
                        }
                        let ghost j = choose|j: int|
                            0 <= j < before.len() && worker_key(#[trigger] before[j]) == k
                                && before[j].status == WorkerStatus::Running;
                        assert(j == i);
                        proof {
                            reveal_strlit("ok");
                            reveal_strlit("scan");
                            assert("ok"@ =~= status_ok());
                            assert("scan"@ =~= tool_scan());
                        }
                        let ok = match status {
                            Some(s) => same_text(s, "ok"),
                            None => false,
                        };
                        let next = if ok {
                            WorkerStatus::Completed
                        } else {
                            WorkerStatus::Failed
                        };
                        let old_w = &self.workers[i];
                        let w = WorkerInfo {
                            tool: old_w.tool.clone(),
                            directory: old_w.directory.clone(),
                            status: next,
                            pid: old_w.pid,
                        };
                        self.workers.set(i, w);
                        assert(self.workers_view() =~= before.update(
                            i as int,
                            WorkerInfoView { status: next, ..before[i as int] },
                        ));
                        assert forall|a: int, b: int|
                            0 <= a < before.len() && 0 <= b < before.len() && a != b implies worker_key(
                            #[trigger] self.workers_view()[a],
                        ) != worker_key(#[trigger] self.workers_view()[b]) by {
                            assert(worker_key(self.workers_view()[a]) == worker_key(before[a]));
                            assert(worker_key(self.workers_view()[b]) == worker_key(before[b]));
                        }
                        if ok && same_text(tool, "scan") {
                            match directory {
                                Some(dir) => Some(dir.clone()),
                                None => None,
                            }
                        } else {
                            None
                        }
                    },
                    None => None,
                }
            },
            _ => None,
        }
    }
}

// ---- laws ----

/// A `STOP` from the scan of `d` with status `ok`.
pub open spec fn scan_ok_stop(m: MessageView, d: Seq<char>) -> bool {
    m matches MessageView::Stop { tool, directory, status, .. } && tool == tool_scan() && directory
        == Some(d) && status == Some(status_ok())
}

/// The step on a `STOP` of the running worker at position `i`.
proof fn lemma_step_running(ws: Seq<WorkerInfoView>, m: MessageView, i: int)
    requires
        unique_workers(ws),
        0 <= i < ws.len(),
        ws[i].status == WorkerStatus::Running,
        m matches MessageView::Stop { tool, directory, .. } && worker_key(ws[i]) == (
            tool,
            or_unknown(directory),
        ),
    ensures
        ({
            let (tool, directory, status) = match m {
                MessageView::Stop { tool, directory, status, .. } => (tool, directory, status),
                _ => arbitrary(),
            };
            let next = if succeeded(status) {
                WorkerStatus::Completed
            } else {
                WorkerStatus::Failed
            };
            &&& manager_step(ws, m).0 == ws.update(i, WorkerInfoView { status: next, ..ws[i] })
            &&& manager_step(ws, m).1 == if tool == tool_scan() && succeeded(status) {
                directory
            } else {
                None
            }
            &&& unique_workers(manager_step(ws, m).0)
        }),
{
    let k = worker_key(ws[i]);
    assert(is_running(ws, k));
    let j = choose|j: int|
        0 <= j < ws.len() && worker_key(#[trigger] ws[j]) == k && ws[j].status
            == WorkerStatus::Running;
    assert(i == j);
    let after = manager_step(ws, m).0;
    assert forall|a: int, b: int|
        0 <= a < after.len() && 0 <= b < after.len() && a != b implies worker_key(
        #[trigger] after[a],
    ) != worker_key(#[trigger] after[b]) by {
        assert(worker_key(after[a]) == worker_key(ws[a]));
        assert(worker_key(after[b]) == worker_key(ws[b]));
    }
}

/// A successful `STOP` of the running scan of `d` asks for the migrate worker
/// of `d`, exactly once: the same message seen again asks for nothing.
pub proof fn lemma_scan_ok_launches_migrate_once(ws: Seq<WorkerInfoView>, m: MessageView, d: Seq<char>)
    requires
        unique_workers(ws),
        is_running(ws, (tool_scan(), d)),
        scan_ok_stop(m, d),
    ensures
        manager_step(ws, m).1 == Some(d),
        manager_step(manager_step(ws, m).0, m).1 is None,
{
    let k = (tool_scan(), d);
    let i = choose|i: int|
        0 <= i < ws.len() && worker_key(#[trigger] ws[i]) == k && ws[i].status
            == WorkerStatus::Running;
    lemma_step_running(ws, m, i);
    let ws1 = manager_step(ws, m).0;
    assert(!is_running(ws1, k)) by {
        if is_running(ws1, k) {
            let j = choose|j: int|
                0 <= j < ws1.len() && worker_key(#[trigger] ws1[j]) == k && ws1[j].status
                    == WorkerStatus::Running;
            assert(worker_key(ws1[i]) == k);
            assert(i == j);
        }
    }
}

/// A scan `STOP` whose status is absent or not `ok` asks for no launch.
pub proof fn lemma_failed_scan_launches_nothing(ws: Seq<WorkerInfoView>, m: MessageView)
    requires
        m matches MessageView::Stop { status, .. } && !succeeded(status),
    ensures
        manager_step(ws, m).1 is None,
{
}

/// Messages other than `STOP` change nothing and ask for nothing: no
/// directory changes phase.
pub proof fn lemma_only_stop_moves(ws: Seq<WorkerInfoView>, m: MessageView)
    requires
        !(m is Stop),
    ensures
        manager_step(ws, m) == (ws, None::<Seq<char>>),
        forall|d: Seq<char>| job_phase(manager_step(ws, m).0, d) == job_phase(ws, d),
{
}

/// A migrate launch is asked for only by a successful `STOP` of the running
/// scan of that same directory, and that scan is then completed.
pub proof fn lemma_migrate_only_after_scan_ok(ws: Seq<WorkerInfoView>, m: MessageView)
    requires
        unique_workers(ws),
        manager_step(ws, m).1 is Some,
    ensures
        ({
            let d = manager_step(ws, m).1->0;
            &&& scan_ok_stop(m, d)
            &&& is_running(ws, (tool_scan(), d))
            &&& worker_status(manager_step(ws, m).0, (tool_scan(), d)) == Some(
                WorkerStatus::Completed,
            )
        }),
{
    let d = manager_step(ws, m).1->0;
    let k = (tool_scan(), d);
    let i = choose|i: int|
        0 <= i < ws.len() && worker_key(#[trigger] ws[i]) == k && ws[i].status
            == WorkerStatus::Running;
    lemma_step_running(ws, m, i);
    let ws2 = manager_step(ws, m).0;
    assert(worker_key(ws2[i]) == k);
    let j = choose|j: int| 0 <= j < ws2.len() && worker_key(#[trigger] ws2[j]) == k;
    assert(i == j);
}

/// The scans of two different directories complete independently: in either
/// order each asks for the migrate worker of its own directory, and the
/// workers end in the same state.
pub proof fn lemma_independent_directories(
    ws: Seq<WorkerInfoView>,
    ma: MessageView,
    a: Seq<char>,
    mb: MessageView,
    b: Seq<char>,
)
    requires
        unique_workers(ws),
        a != b,
        is_running(ws, (tool_scan(), a)),
        is_running(ws, (tool_scan(), b)),
        scan_ok_stop(ma, a),
        scan_ok_stop(mb, b),
    ensures
        manager_step(ws, ma).1 == Some(a),
        manager_step(manager_step(ws, ma).0, mb).1 == Some(b),
        manager_step(ws, mb).1 == Some(b),
        manager_step(manager_step(ws, mb).0, ma).1 == Some(a),
        manager_step(manager_step(ws, ma).0, mb).0 == manager_step(manager_step(ws, mb).0, ma).0,
{
    let ka = (tool_scan(), a);
    let kb = (tool_scan(), b);
    let i = choose|i: int|
        0 <= i < ws.len() && worker_key(#[trigger] ws[i]) == ka && ws[i].status
            == WorkerStatus::Running;
    let j = choose|j: int|
        0 <= j < ws.len() && worker_key(#[trigger] ws[j]) == kb && ws[j].status
            == WorkerStatus::Running;
    assert(i != j);
    lemma_step_running(ws, ma, i);
    lemma_step_running(ws, mb, j);
    let wa = manager_step(ws, ma).0;
    let wb = manager_step(ws, mb).0;
    assert(wa[j] == ws[j]);
    assert(wb[i] == ws[i]);
    lemma_step_running(wa, mb, j);
    lemma_step_running(wb, ma, i);
    assert(manager_step(wa, mb).0 =~= manager_step(wb, ma).0);
}

} // verus!
