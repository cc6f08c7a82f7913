//! The worker registry: the last known status of every worker that has
//! reported in, one record per `(tool, directory)` identity.
use vstd::prelude::*;
use vstd::string::*;
use crate::protocol::{opt_view, or_unknown, unknown_text, MessageView, WorkerMessage};

verus! {

/// The identity of a worker: its tool and its directory (`unknown` where the
/// messages name none).
#[derive(Debug)]
pub struct WorkerIdentity {
    pub tool: String,
    pub directory: String,
}

impl View for WorkerIdentity {
    type V = (Seq<char>, Seq<char>);

    open spec fn view(&self) -> (Seq<char>, Seq<char>) {
        (self.tool@, self.directory@)
    }
}

/// The last known status of one worker.
#[derive(Debug)]
pub struct WorkerState {
    pub tool: String,
    pub directory: Option<String>,
    pub status: String,
    pub last_message: Option<String>,
    pub bytes_transferred: Option<u64>,
    pub host: Option<String>,
    pub pid: Option<u32>,
    pub connected: bool,
}

pub struct WorkerStateView {
    pub tool: Seq<char>,
    pub directory: Option<Seq<char>>,
    pub status: Seq<char>,
    pub last_message: Option<Seq<char>>,
    pub bytes_transferred: Option<u64>,
    pub host: Option<Seq<char>>,
    pub pid: Option<u32>,
    pub connected: bool,
}

impl View for WorkerState {
    type V = WorkerStateView;

    open spec fn view(&self) -> WorkerStateView {
        WorkerStateView {
            tool: self.tool@,
            directory: opt_view(self.directory),
            status: self.status@,
            last_message: opt_view(self.last_message),
            bytes_transferred: self.bytes_transferred,
            host: opt_view(self.host),
            pid: self.pid,
            connected: self.connected,
        }
    }
}

pub open spec fn status_unknown() -> Seq<char> {
    unknown_text()
}

pub open spec fn status_connected() -> Seq<char> {
    seq!['c', 'o', 'n', 'n', 'e', 'c', 't', 'e', 'd']
}

pub open spec fn status_running() -> Seq<char> {
    seq!['r', 'u', 'n', 'n', 'i', 'n', 'g']
}

pub open spec fn status_completed() -> Seq<char> {
    seq!['c', 'o', 'm', 'p', 'l', 'e', 't', 'e', 'd']
}

/// The tool a message speaks for; a `HELLO` names none.
pub open spec fn message_tool(m: MessageView) -> Seq<char> {
    match m {
        MessageView::Hello { .. } => unknown_text(),
        MessageView::Start { tool, .. } => tool,
        MessageView::Progress { tool, .. } => tool,
        MessageView::Stop { tool, .. } => tool,
    }
}

/// The directory a message speaks for, where it names one.
pub open spec fn message_directory(m: MessageView) -> Option<Seq<char>> {
    match m {
        MessageView::Hello { .. } => None,
        MessageView::Start { directory, .. } => directory,
        MessageView::Progress { directory, .. } => directory,
        MessageView::Stop { directory, .. } => directory,
    }
}

/// The identity of the worker a message comes from.
pub open spec fn message_identity(m: MessageView) -> (Seq<char>, Seq<char>) {
    (message_tool(m), or_unknown(message_directory(m)))
}

pub open spec fn record_identity(r: WorkerStateView) -> (Seq<char>, Seq<char>) {
    (r.tool, or_unknown(r.directory))
}

/// The record made on the first message of an identity, before that message
/// takes effect.
pub open spec fn fresh_record(m: MessageView) -> WorkerStateView {
    WorkerStateView {
        tool: message_tool(m),
        directory: message_directory(m),
        status: status_unknown(),
        last_message: None,
        bytes_transferred: None,
        host: None,
        pid: None,
        connected: true,
    }
}

pub open spec fn keep_or(old: Option<u64>, new: Option<u64>) -> Option<u64> {
    match new {
        Some(b) => Some(b),
        None => old,
    }
}

/// The effect of one message on its worker's record.
pub open spec fn apply_record(r: WorkerStateView, m: MessageView) -> WorkerStateView {
    match m {
        MessageView::Hello { host, pid } => WorkerStateView {
            host,
            pid,
            connected: true,
            status: status_connected(),
            ..r
        },
        MessageView::Start { .. } => WorkerStateView { status: status_running(), ..r },
        MessageView::Progress { message, bytes, .. } => WorkerStateView {
            last_message: message,
            bytes_transferred: keep_or(r.bytes_transferred, bytes),
            ..r
        },
        MessageView::Stop { status, bytes, .. } => WorkerStateView {
            status: match status {
                Some(s) => s,
                None => status_completed(),
            },
            bytes_transferred: keep_or(r.bytes_transferred, bytes),
            ..r
        },
    }
}

pub open spec fn has_identity(recs: Seq<WorkerStateView>, k: (Seq<char>, Seq<char>)) -> bool {
    exists|i: int| 0 <= i < recs.len() && record_identity(#[trigger] recs[i]) == k
}

/// No two records share an identity.
pub open spec fn unique_identities(recs: Seq<WorkerStateView>) -> bool {
    forall|i: int, j: int|
        0 <= i < recs.len() && 0 <= j < recs.len() && i != j ==> record_identity(
            #[trigger] recs[i],
        ) != record_identity(#[trigger] recs[j])
}

/// The table after one message: the record of its identity, made on first
/// sight, with the message's effect.
pub open spec fn registry_apply(recs: Seq<WorkerStateView>, m: MessageView) -> Seq<
    WorkerStateView,
> {
    let k = message_identity(m);
    if has_identity(recs, k) {
        let i = choose|i: int| 0 <= i < recs.len() && record_identity(#[trigger] recs[i]) == k;
        recs.update(i, apply_record(recs[i], m))
    } else {
        recs.push(apply_record(fresh_record(m), m))
    }
}

/// The table after the connection of identity `k` closed: that record is
/// marked disconnected and keeps everything else.
pub open spec fn registry_disconnect(recs: Seq<WorkerStateView>, k: (Seq<char>, Seq<char>)) -> Seq<
    WorkerStateView,
> {
    Seq::new(
        recs.len(),
        |i: int|
            if record_identity(recs[i]) == k {
                WorkerStateView { connected: false, ..recs[i] }
            } else {
                recs[i]
            },
    )
}

/// The shared table of worker records.
pub struct WorkerRegistry {
    records: Vec<WorkerState>,
}

fn copy_text(o: &Option<String>) -> (r: Option<String>)
    ensures
        opt_view(r) == opt_view(*o),
{
    match o {
        Some(s) => Some(s.clone()),
        None => None,
    }
}

fn directory_or_unknown(o: &Option<String>) -> (r: String)
    ensures
        r@ == or_unknown(opt_view(*o)),
{
    proof {
        reveal_strlit("unknown");
        assert("unknown"@ =~= unknown_text());
    }
    match o {
        Some(s) => s.clone(),
        None => String::from_str("unknown"),
    }
}

impl WorkerState {
    /// A copy of the record.
    pub fn duplicate(&self) -> (r: WorkerState)
        ensures
            r@ == self@,
    {
        WorkerState {
            tool: self.tool.clone(),
            directory: copy_text(&self.directory),
            status: self.status.clone(),
            last_message: copy_text(&self.last_message),
            bytes_transferred: self.bytes_transferred,
            host: copy_text(&self.host),
            pid: self.pid,
            connected: self.connected,
        }
    }

    /// The identity this record is kept under.
    pub fn identity(&self) -> (r: WorkerIdentity)
        ensures
            r@ == record_identity(self@),
    {
        WorkerIdentity { tool: self.tool.clone(), directory: directory_or_unknown(&self.directory) }
    }
}

/// The identity of the worker a message comes from.
pub fn identity_of(m: &WorkerMessage) -> (r: WorkerIdentity)
    ensures
        r@ == message_identity(m@),
{
    proof {
        reveal_strlit("unknown");
        assert("unknown"@ =~= unknown_text());
    }
    match m {
        WorkerMessage::Hello { .. } => WorkerIdentity {
            tool: String::from_str("unknown"),
            directory: String::from_str("unknown"),
        },
        WorkerMessage::Start { tool, directory } => WorkerIdentity {
            tool: tool.clone(),
            directory: directory_or_unknown(directory),
        },
        WorkerMessage::Progress { tool, directory, .. } => WorkerIdentity {
            tool: tool.clone(),
            directory: directory_or_unknown(directory),
        },
        WorkerMessage::Stop { tool, directory, .. } => WorkerIdentity {
            tool: tool.clone(),
            directory: directory_or_unknown(directory),
        },
    }
}

fn fresh_state(m: &WorkerMessage) -> (r: WorkerState)
    ensures
        r@ == fresh_record(m@),
{
    proof {
        reveal_strlit("unknown");
        assert("unknown"@ =~= unknown_text());
    }
    let (tool, directory) = match m {
        WorkerMessage::Hello { .. } => (String::from_str("unknown"), None),
        WorkerMessage::Start { tool, directory } => (tool.clone(), copy_text(directory)),
        WorkerMessage::Progress { tool, directory, .. } => (tool.clone(), copy_text(directory)),
        WorkerMessage::Stop { tool, directory, .. } => (tool.clone(), copy_text(directory)),
    };
    WorkerState {
        tool,
        directory,
        status: String::from_str("unknown"),
        last_message: None,
        bytes_transferred: None,
        host: None,
        pid: None,
        connected: true,
    }
}

fn update_state(r: &mut WorkerState, m: &WorkerMessage)
    ensures
        final(r)@ == apply_record(old(r)@, m@),
{
    proof {
        reveal_strlit("connected");
        reveal_strlit("running");
        reveal_strlit("completed");
        assert("connected"@ =~= status_connected());
        assert("running"@ =~= status_running());
        assert("completed"@ =~= status_completed());
    }
    match m {
        WorkerMessage::Hello { host, pid } => {
            r.host = copy_text(host);
            r.pid = *pid;
            r.connected = true;
            r.status = String::from_str("connected");
        },
        WorkerMessage::Start { .. } => {
            r.status = String::from_str("running");
        },
        WorkerMessage::Progress { message, bytes, .. } => {
            r.last_message = copy_text(message);
            if let Some(b) = bytes {
                r.bytes_transferred = Some(*b);
            }
        },
        WorkerMessage::Stop { status, bytes, .. } => {
            r.status = match status {
                Some(s) => s.clone(),
                None => String::from_str("completed"),
            };
            if let Some(b) = bytes {
                r.bytes_transferred = Some(*b);
            }
        },
    }
}

impl View for WorkerRegistry {
    type V = Seq<WorkerStateView>;

    closed spec fn view(&self) -> Seq<WorkerStateView> {
        self.records@.map_values(|r: WorkerState| r@)
    }
}

impl WorkerRegistry {
    /// Each identity has at most one record.
    pub open spec fn wf(&self) -> bool {
        unique_identities(self@)
    }

    /// An empty table.
    pub fn new() -> (r: WorkerRegistry)
        ensures
            r.wf(),
            r@ == Seq::<WorkerStateView>::empty(),
    {
        let r = WorkerRegistry { records: Vec::new() };
        assert(r@ =~= Seq::<WorkerStateView>::empty());
        r
    }

    /// The number of records.
    pub fn len(&self) -> (r: usize)
        ensures
            r == self@.len(),
    {
        self.records.len()
    }

    /// The position of the record of identity `id`, if there is one.
    pub fn position(&self, id: &WorkerIdentity) -> (r: Option<usize>)
        ensures
            match r {
                Some(i) => i < self@.len() && record_identity(self@[i as int]) == id@,
                None => !has_identity(self@, id@),
            },
    {
        let mut i: usize = 0;
        while i < self.records.len()
            invariant
                i <= self.records@.len(),
                forall|j: int| 0 <= j < i ==> record_identity(#[trigger] self@[j]) != id@,
            decreases self.records.len() - i,
        {
            let r = &self.records[i];
            let tool_match = r.tool == id.tool;
            let dir = directory_or_unknown(&r.directory);
            if tool_match && dir == id.directory {
                return Some(i);
            }
            i = i + 1;
        }
        None
    }

    /// A copy of the record of identity `id`, if there is one.
    pub fn get(&self, id: &WorkerIdentity) -> (r: Option<WorkerState>)
        ensures
            match r {
                Some(s) => exists|i: int|
                    0 <= i < self@.len() && record_identity(#[trigger] self@[i]) == id@ && s@
                        == self@[i],
                None => !has_identity(self@, id@),
            },
    {
        match self.position(id) {
            Some(i) => Some(self.records[i].duplicate()),
            None => None,
        }
    }

    /// Records one message: makes the record of its identity on first sight,
    /// then applies the message to it. Returns that identity.
    pub fn apply(&mut self, m: &WorkerMessage) -> (id: WorkerIdentity)
        requires
            old(self).wf(),
        ensures
            final(self).wf(),
            id@ == message_identity(m@),
            final(self)@ == registry_apply(old(self)@, m@),
    {
        let id = identity_of(m);
        match self.position(&id) {
            Some(i) => {
                let ghost k = message_identity(m@);
                let ghost j = choose|j: int|
                    0 <= j < self@.len() && record_identity(#[trigger] self@[j]) == k;
                assert(j == i);
                let mut r = self.records[i].duplicate();
                update_state(&mut r, m);
                let ghost before = self@;
                self.records.set(i, r);
                assert(self@ =~= before.update(i as int, apply_record(before[i as int], m@)));
                assert forall|a: int, b: int|
                    0 <= a < self@.len() && 0 <= b < self@.len() && a != b implies record_identity(
                    #[trigger] self@[a],
                ) != record_identity(#[trigger] self@[b]) by {
                    assert(record_identity(self@[a]) == record_identity(before[a]));
                    assert(record_identity(self@[b]) == record_identity(before[b]));
                }
            },
            None => {
                let mut r = fresh_state(m);
                update_state(&mut r, m);
                let ghost before = self@;
                self.records.push(r);
                assert(self@ =~= before.push(apply_record(fresh_record(m@), m@)));
                assert forall|a: int, b: int|
                    0 <= a < self@.len() && 0 <= b < self@.len() && a != b implies record_identity(
                    #[trigger] self@[a],
                ) != record_identity(#[trigger] self@[b]) by {
                    if a < before.len() && b < before.len() {
                        assert(self@[a] == before[a]);
                        assert(self@[b] == before[b]);
                    } else if a < before.len() {
                        assert(self@[a] == before[a]);
                    } else {
                        assert(self@[b] == before[b]);
                    }
                }
            },
        }
        id
    }

    /// Marks the record of identity `id` as disconnected; its status and
    /// everything else are kept.
    pub fn mark_disconnected(&mut self, id: &WorkerIdentity)
        requires
            old(self).wf(),
        ensures
            final(self).wf(),
            final(self)@ == registry_disconnect(old(self)@, id@),
    {
        match self.position(id) {
            Some(i) => {
                let ghost before = self@;
                let mut r = self.records[i].duplicate();
                r.connected = false;
                self.records.set(i, r);
                assert(self@ =~= registry_disconnect(before, id@)) by {
                    assert forall|j: int| 0 <= j < before.len() && j != i implies record_identity(
                        #[trigger] before[j],
                    ) != id@ by {}
                }
            },
            None => {
                assert(self@ =~= registry_disconnect(self@, id@));
            },
        }
    }

    /// A point-in-time copy of every record.
    pub fn snapshot(&self) -> (r: Vec<WorkerState>)
        ensures
            r@.map_values(|s: WorkerState| s@) == self@,
    {
        let mut out: Vec<WorkerState> = Vec::new();
        let mut i: usize = 0;
        while i < self.records.len()
            invariant
                i <= self.records@.len(),
                out@.len() == i,
                forall|j: int| 0 <= j < i ==> (#[trigger] out@[j])@ == self@[j],
            decreases self.records.len() - i,
        {
            out.push(self.records[i].duplicate());
            i = i + 1;
        }
        assert(out@.map_values(|s: WorkerState| s@) =~= self@);
        out
    }
}

// ---- laws ----

/// One message keeps identities unique, leaves its identity with a record,
/// and changes no record of another identity.
pub proof fn lemma_apply_record_of_identity(recs: Seq<WorkerStateView>, m: MessageView)
    requires
        unique_identities(recs),
    ensures
        ({
            let k = message_identity(m);
            let after = registry_apply(recs, m);
            &&& unique_identities(after)
            &&& has_identity(after, k)
            &&& forall|i: int|
                0 <= i < recs.len() && record_identity(#[trigger] recs[i]) != k ==> after[i]
                    == recs[i]
            &&& forall|i: int|
                0 <= i < recs.len() && record_identity(#[trigger] recs[i]) == k ==> after[i]
                    == apply_record(recs[i], m)
            &&& after.len() == if has_identity(recs, k) {
                recs.len()
            } else {
                recs.len() + 1
            }
        }),
{
    let k = message_identity(m);
    let after = registry_apply(recs, m);
    if has_identity(recs, k) {
        let i = choose|i: int| 0 <= i < recs.len() && record_identity(#[trigger] recs[i]) == k;
        assert(record_identity(after[i]) == k);
        assert forall|a: int, b: int|
            0 <= a < after.len() && 0 <= b < after.len() && a != b implies record_identity(
            #[trigger] after[a],
        ) != record_identity(#[trigger] after[b]) by {
            assert(record_identity(after[a]) == record_identity(recs[a]));
            assert(record_identity(after[b]) == record_identity(recs[b]));
        }
    } else {
        let n = recs.len() as int;
        assert(record_identity(after[n]) == k);
        assert forall|a: int, b: int|
            0 <= a < after.len() && 0 <= b < after.len() && a != b implies record_identity(
            #[trigger] after[a],
        ) != record_identity(#[trigger] after[b]) by {
            if a < n {
                assert(after[a] == recs[a]);
            }
            if b < n {
                assert(after[b] == recs[b]);
            }
        }
    }
}

/// The first message of an identity adds exactly one record, made with
/// status `unknown` and then given that message's effect.
pub proof fn lemma_first_message_creates_record(recs: Seq<WorkerStateView>, m: MessageView)
    requires
        unique_identities(recs),
        !has_identity(recs, message_identity(m)),
    ensures
        fresh_record(m).status == status_unknown(),
        registry_apply(recs, m) == recs.push(apply_record(fresh_record(m), m)),
        unique_identities(registry_apply(recs, m)),
{
    lemma_apply_record_of_identity(recs, m);
}

/// Two messages of one identity land on one and the same record: the second
/// adds no record and updates the record the first one left.
pub proof fn lemma_same_identity_same_record(
    recs: Seq<WorkerStateView>,
    m1: MessageView,
    m2: MessageView,
)
    requires
        unique_identities(recs),
        message_identity(m1) == message_identity(m2),
    ensures
        ({
            let k = message_identity(m1);
            let r1 = registry_apply(recs, m1);
            let r2 = registry_apply(r1, m2);
            &&& unique_identities(r2)
            &&& r2.len() == r1.len()
            &&& forall|i: int|
                0 <= i < r1.len() && record_identity(#[trigger] r1[i]) == k ==> r2[i]
                    == apply_record(r1[i], m2)
            &&& forall|i: int|
                0 <= i < r1.len() && record_identity(#[trigger] r1[i]) != k ==> r2[i] == r1[i]
            &&& forall|i: int, j: int|
                0 <= i < r2.len() && 0 <= j < r2.len() && record_identity(#[trigger] r2[i]) == k
                    && record_identity(#[trigger] r2[j]) == k ==> i == j
        }),
{
    lemma_apply_record_of_identity(recs, m1);
    lemma_apply_record_of_identity(registry_apply(recs, m1), m2);
}

/// Closing a connection clears the connectivity flag of its record and keeps
/// every status and every other field as it was.
pub proof fn lemma_disconnect_keeps_status(recs: Seq<WorkerStateView>, k: (Seq<char>, Seq<char>))
    ensures
        ({
            let after = registry_disconnect(recs, k);
            &&& after.len() == recs.len()
            &&& forall|i: int|
                0 <= i < recs.len() ==> (#[trigger] after[i]).status == recs[i].status
                    && after[i].last_message == recs[i].last_message
                    && after[i].bytes_transferred == recs[i].bytes_transferred
                    && record_identity(after[i]) == record_identity(recs[i])
            &&& forall|i: int|
                0 <= i < recs.len() && record_identity(recs[i]) == k ==> !(#[trigger] after[i]).connected
            &&& forall|i: int|
                0 <= i < recs.len() && record_identity(recs[i]) != k ==> #[trigger] after[i]
                    == recs[i]
        }),
{
}

} // verus!
