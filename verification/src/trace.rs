//! The events that a task's trace records.

use vstd::prelude::*;

use crate::ids::{utc_now, CheckpointId, TaskId, Timestamp};
use crate::manifest::{AccessType, Manifest, ManifestModel};
use crate::task::TaskStatus;
use crate::text::{cat3, chars_of, text_between};

verus! {

/// One line of a trace.
#[derive(Clone, Debug, PartialEq, Eq)]
pub enum TaskEvent {
    TaskStarted { timestamp: Timestamp, manifest: Manifest },
    CheckpointCreated { id: CheckpointId },
    RollbackPerformed { id: CheckpointId },
    CommandExecuted { command: String, exit_code: i32 },
    FileAccess { path: String, access: AccessType, allowed: bool },
    ViolationOccurred { reason: String },
    TaskFinished { status: TaskStatus },
    TaskHandoverReceived { timestamp: Timestamp, source_task_id: TaskId },
}

/// The contents of an event.
pub enum EventModel {
    TaskStarted { timestamp: Timestamp, manifest: ManifestModel },
    CheckpointCreated { id: CheckpointId },
    RollbackPerformed { id: CheckpointId },
    CommandExecuted { command: Seq<char>, exit_code: i32 },
    FileAccess { path: Seq<char>, access: AccessType, allowed: bool },
    ViolationOccurred { reason: Seq<char> },
    TaskFinished { status: TaskStatus },
    TaskHandoverReceived { timestamp: Timestamp, source_task_id: TaskId },
}

impl View for TaskEvent {
    type V = EventModel;

    open spec fn view(&self) -> EventModel {
        match self {
            TaskEvent::TaskStarted { timestamp, manifest } => EventModel::TaskStarted {
                timestamp: *timestamp,
                manifest: manifest@,
            },
            TaskEvent::CheckpointCreated { id } => EventModel::CheckpointCreated { id: *id },
            TaskEvent::RollbackPerformed { id } => EventModel::RollbackPerformed { id: *id },
            TaskEvent::CommandExecuted { command, exit_code } => EventModel::CommandExecuted {
                command: command@,
                exit_code: *exit_code,
            },
            TaskEvent::FileAccess { path, access, allowed } => EventModel::FileAccess {
                path: path@,
                access: *access,
                allowed: *allowed,
            },
            TaskEvent::ViolationOccurred { reason } => EventModel::ViolationOccurred {
                reason: reason@,
            },
            TaskEvent::TaskFinished { status } => EventModel::TaskFinished { status: *status },
            TaskEvent::TaskHandoverReceived { timestamp, source_task_id } =>
                EventModel::TaskHandoverReceived {
                timestamp: *timestamp,
                source_task_id: *source_task_id,
            },
        }
    }
}

impl TaskEvent {
    /// The event that opens a trace, stamped with the current time.
    pub fn task_started(manifest: Manifest) -> (r: TaskEvent)
        ensures
            r@ matches EventModel::TaskStarted { timestamp, manifest: m } && m == manifest@
                && timestamp.secs >= 0 && timestamp.nanos < 1_000_000_000,
    {
        TaskEvent::TaskStarted { timestamp: utc_now(), manifest }
    }

    /// The event that marks a trace as taken over, stamped with the current
    /// time.
    pub fn task_handover_received(source_task_id: TaskId) -> (r: TaskEvent)
        ensures
            r@ matches EventModel::TaskHandoverReceived { timestamp, source_task_id: id } && id
                == source_task_id && timestamp.secs >= 0 && timestamp.nanos < 1_000_000_000,
    {
        TaskEvent::TaskHandoverReceived { timestamp: utc_now(), source_task_id }
    }
}

/// Why a trace could not be written or read.
#[derive(Clone, Debug, PartialEq, Eq)]
pub enum TraceError {
    Io { path: String, source: String },
    Serialize(String),
}

impl TraceError {
    /// The message shown for this error.
    pub open spec fn text(&self) -> Seq<char> {
        match self {
            TraceError::Io { path, source } => "trace io at "@ + path@ + ": "@ + source@,
            TraceError::Serialize(m) => "trace serialization: "@ + m@,
        }
    }

    /// The message shown for this error.
    pub fn message(&self) -> (r: String)
        ensures
            r@ == self.text(),
    {
        match self {
            TraceError::Io { path, source } => {
                let mut r = cat3("trace io at ", path.as_str(), ": ");
                r.append(source.as_str());
                r
            },
            TraceError::Serialize(m) => crate::text::cat("trace serialization: ", m.as_str()),
        }
    }
}

/// A line without the carriage return before its line feed.
pub open spec fn without_return(line: Seq<char>) -> Seq<char> {
    if line.len() > 0 && line.last() == '\r' {
        line.drop_last()
    } else {
        line
    }
}

/// The lines of a text. A line feed, with or without a carriage return before
/// it, ends a line; text behind the last one is a line of its own.
pub open spec fn lines(s: Seq<char>) -> Seq<Seq<char>> {
    let pieces = crate::text::split_on(s, '\n');
    let ended = Seq::new((pieces.len() - 1) as nat, |i: int| without_return(pieces[i]));
    if pieces.last().len() == 0 {
        ended
    } else {
        ended.push(pieces.last())
    }
}

/// The lines of a text.
pub fn text_lines(s: &str) -> (r: Vec<String>)
    ensures
        crate::text::texts(r@) == lines(s@),
{
    let pieces = crate::text::split_text(s, '\n');
    let ghost all = crate::text::split_on(s@, '\n');
    let mut r: Vec<String> = Vec::new();
    proof {
        crate::text::lemma_split_on(s@, '\n');
    }
    let n: usize = pieces.len();
    let mut i: usize = 0;
    while i + 1 < n
        invariant
            n == pieces@.len(),
            1 <= n,
            i < n,
            all == crate::text::texts(pieces@),
            r@.len() == i,
            forall|j: int| 0 <= j < i ==> r@[j]@ == without_return(all[j]),
        decreases n - i,
    {
        let cs = chars_of(pieces[i].as_str());
        proof {
            assert(all[i as int] == cs@);
        }
        if cs.len() > 0 && cs[cs.len() - 1] == '\r' {
            let line = text_between(cs.as_slice(), 0, cs.len() - 1);
            proof {
                assert(line@ =~= cs@.drop_last());
            }
            r.push(line);
        } else {
            r.push(crate::text::owned(pieces[i].as_str()));
        }
        i = i + 1;
    }
    let last = pieces[n - 1].as_str();
    proof {
        assert(all.last() == last@);
    }
    if !crate::text::is_empty_text(last) {
        r.push(crate::text::owned(last));
    }
    proof {
        assert(crate::text::texts(r@) =~= lines(s@));
    }
    r
}

/// The last `limit` elements of `s`, or all of it where it has fewer.
pub open spec fn last_of<A>(s: Seq<A>, limit: int) -> Seq<A> {
    if s.len() <= limit {
        s
    } else {
        s.skip(s.len() - limit)
    }
}

/// The last `limit` lines of a trace, oldest first.
pub fn recent_events(trace: &str, limit: usize) -> (r: Vec<String>)
    ensures
        crate::text::texts(r@) == last_of(lines(trace@), limit as int),
{
    let all = text_lines(trace);
    let ghost whole = lines(trace@);
    if limit >= all.len() {
        proof {
            assert(whole.len() == all@.len());
        }
        return all;
    }
    let first: usize = all.len() - limit;
    let mut r: Vec<String> = Vec::new();
    let mut i: usize = first;
    while i < all.len()
        invariant
            first <= i <= all@.len(),
            whole == crate::text::texts(all@),
            r@.len() == i - first,
            forall|j: int| 0 <= j < i - first ==> r@[j]@ == whole[first + j],
        decreases all.len() - i,
    {
        r.push(crate::text::owned(all[i].as_str()));
        i = i + 1;
    }
    proof {
        assert(crate::text::texts(r@) =~= whole.skip(first as int));
    }
    r
}

/// A trace line: the encoded event with a line feed behind it.
pub fn trace_line(encoded: Vec<u8>) -> (r: Vec<u8>)
    ensures
        r@ == encoded@.push(10u8),
{
    let mut line = encoded;
    line.push(10u8);
    line
}

} // verus!
