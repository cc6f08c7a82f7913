//! The per-connection side of the control plane: decoding the lines one
//! worker sends and recording them in the registry.
use vstd::prelude::*;
use crate::protocol::{
    decode, parse_worker_message, ProtocolError, ProtocolErrorKind, WorkerMessage,
};
use crate::registry::{
    message_identity, registry_apply, registry_disconnect, WorkerIdentity, WorkerRegistry,
};
use crate::text::words;

verus! {

/// What one received line amounts to.
#[derive(Debug)]
pub enum LineOutcome {
    /// A message, to be recorded and published.
    Message(WorkerMessage),
    /// A line without words, passed over.
    Blank,
    /// A line that is not a message; the connection goes on.
    Rejected(ProtocolError),
}

/// Decodes one received line. A blank line is passed over, a malformed one
/// is reported; neither ends the connection.
pub fn read_line(line: &str) -> (r: LineOutcome)
    ensures
        match r {
            LineOutcome::Message(m) => decode(line@) == Some(m@),
            LineOutcome::Blank => words(line@).len() == 0,
            LineOutcome::Rejected(e) => {
                &&& words(line@).len() > 0
                &&& decode(line@) is None
                &&& e.line@ == line@
            },
        },
{
    match parse_worker_message(line) {
        Ok(m) => LineOutcome::Message(m),
        Err(e) => match e.kind {
            ProtocolErrorKind::EmptyLine => LineOutcome::Blank,
            ProtocolErrorKind::UnknownKind => LineOutcome::Rejected(e),
        },
    }
}

/// The state of one worker connection: the identity its messages last spoke for.
pub struct Connection {
    worker: Option<WorkerIdentity>,
}

impl Connection {
    pub closed spec fn identity(&self) -> Option<(Seq<char>, Seq<char>)> {
        match self.worker {
            Some(id) => Some(id@),
            None => None,
        }
    }

    /// A connection that has sent nothing yet.
    pub fn new() -> (r: Connection)
        ensures
            r.identity() is None,
    {
        Connection { worker: None }
    }

    /// Records a decoded message in the registry and ties the connection to
    /// its identity.
    pub fn record(&mut self, registry: &mut WorkerRegistry, m: &WorkerMessage)
        requires
            old(registry).wf(),
        ensures
            final(registry).wf(),
            final(registry)@ == registry_apply(old(registry)@, m@),
            final(self).identity() == Some(message_identity(m@)),
    {
        let id = registry.apply(m);
        self.worker = Some(id);
    }

    /// The connection has ended: its worker's record, if any, is marked
    /// disconnected and keeps its last status.
    pub fn close(&self, registry: &mut WorkerRegistry)
        requires
            old(registry).wf(),
        ensures
            final(registry).wf(),
            match self.identity() {
                Some(k) => final(registry)@ == registry_disconnect(old(registry)@, k),
                None => final(registry)@ == old(registry)@,
            },
    {
        match &self.worker {
            Some(id) => registry.mark_disconnected(id),
            None => {},
        }
    }
}

} // verus!
