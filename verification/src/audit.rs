//! The audit trail: events and the sinks that number and keep them.

use vstd::prelude::*;
use crate::engine::copy_opt;
use crate::ordered::Duplicate;
use crate::sorted_map::Metadata;

verus! {

/// What was done.
#[derive(Debug, Clone, Copy, PartialEq, Eq, Structural)]
pub enum AuditOperation {
    Ingest,
    Query,
}

/// How it ended.
#[derive(Debug, Clone, Copy, PartialEq, Eq, Structural)]
pub enum AuditOutcome {
    Succeeded,
    Denied,
    Failed,
}

/// One entry of the audit trail.
#[derive(Debug, PartialEq, Eq)]
pub struct AuditEvent {
    pub sequence: u64,
    pub operation: AuditOperation,
    pub outcome: AuditOutcome,
    pub actor: Option<String>,
    pub tenant: Option<String>,
    pub model_id: Option<String>,
    pub snapshot_id: Option<String>,
    pub metadata: Metadata,
}

impl AuditEvent {
    /// An event that is not numbered yet and names nothing.
    pub fn new(operation: AuditOperation, outcome: AuditOutcome) -> (e: Self)
        ensures
            e.sequence == 0,
            e.operation == operation,
            e.outcome == outcome,
            e.actor is None,
            e.tenant is None,
            e.model_id is None,
            e.snapshot_id is None,
            e.metadata@ == Map::<Seq<char>, Seq<char>>::empty(),
    {
        AuditEvent {
            sequence: 0,
            operation,
            outcome,
            actor: None,
            tenant: None,
            model_id: None,
            snapshot_id: None,
            metadata: Metadata::new(),
        }
    }
}

impl Clone for AuditEvent {
    fn clone(&self) -> (e: Self)
        ensures
            e.sequence == self.sequence,
            e.operation == self.operation,
            e.outcome == self.outcome,
            e.actor == self.actor,
            e.tenant == self.tenant,
            e.model_id == self.model_id,
            e.snapshot_id == self.snapshot_id,
            e.metadata@ == self.metadata@,
    {
        AuditEvent {
            sequence: self.sequence,
            operation: self.operation,
            outcome: self.outcome,
            actor: copy_opt(&self.actor),
            tenant: copy_opt(&self.tenant),
            model_id: copy_opt(&self.model_id),
            snapshot_id: copy_opt(&self.snapshot_id),
            metadata: self.metadata.duplicate(),
        }
    }
}

/// Why an event was not recorded.
#[derive(Debug, PartialEq, Eq)]
pub enum AuditError {
    LockPoisoned,
    Io(String),
    Serialization(String),
}

impl AuditError {
    /// The message of the error, as characters.
    pub open spec fn message_text(&self) -> Seq<char> {
        match self {
            AuditError::LockPoisoned => "audit sink lock poisoned"@,
            AuditError::Io(m) => "audit io error: "@ + m@,
            AuditError::Serialization(m) => "audit serialization error: "@ + m@,
        }
    }

    /// The message of the error.
    pub fn message(&self) -> (s: String)
        ensures
            s@ == self.message_text(),
    {
        match self {
            AuditError::LockPoisoned => "audit sink lock poisoned".to_owned(),
            AuditError::Io(m) => {
                let mut s = "audit io error: ".to_owned();
                s.append(m.as_str());
                s
            },
            AuditError::Serialization(m) => {
                let mut s = "audit serialization error: ".to_owned();
                s.append(m.as_str());
                s
            },
        }
    }
}

/// Where audit events go. A sink numbers the events that it records.
pub trait AuditSink {
    /// The number of the event that was recorded last, 0 before the first.
    spec fn last_sequence(&self) -> u64;

    fn record(&mut self, event: AuditEvent) -> (r: Result<(), AuditError>)
        ensures
            r is Ok ==> final(self).last_sequence() == old(self).last_sequence() + 1,
            r is Err ==> final(self).last_sequence() == old(self).last_sequence(),
    ;
}

/// The number that a sink gives to its next event, where it has one left.
pub fn next_sequence(last: u64) -> (r: Option<u64>)
    ensures
        r == (if last < u64::MAX {
            Some((last + 1) as u64)
        } else {
            None
        }),
{
    if last == u64::MAX {
        None
    } else {
        Some(last + 1)
    }
}

/// A sink that keeps its events in memory.
#[derive(Debug, PartialEq, Eq)]
pub struct InMemoryAuditSink {
    events: Vec<AuditEvent>,
    sequence: u64,
}

impl Default for InMemoryAuditSink {
    fn default() -> (s: Self)
        ensures
            s.recorded().len() == 0,
            s.last_sequence() == 0,
    {
        InMemoryAuditSink { events: Vec::new(), sequence: 0 }
    }
}

impl InMemoryAuditSink {
    #[verifier::type_invariant]
    spec fn inv(&self) -> bool {
        &&& self.sequence == self.events@.len()
        &&& forall|i: int| 0 <= i < self.events@.len() ==> (#[trigger] self.events@[i]).sequence == i + 1
    }

    /// The events that were recorded, in order.
    pub closed spec fn recorded(&self) -> Seq<AuditEvent> {
        self.events@
    }

    /// The events that were recorded, in order. Their numbers count up from 1
    /// without a gap, so they strictly increase.
    pub fn events(&self) -> (r: Result<Vec<AuditEvent>, AuditError>)
        ensures
            r matches Ok(out) && out@.len() == self.recorded().len() && self.last_sequence()
                == out@.len() && (forall|i: int|
                0 <= i < out@.len() ==> (#[trigger] out@[i]).sequence == i + 1 && out@[i].operation
                    == self.recorded()[i].operation && out@[i].outcome
                    == self.recorded()[i].outcome && out@[i].actor == self.recorded()[i].actor
                    && out@[i].tenant == self.recorded()[i].tenant && out@[i].model_id
                    == self.recorded()[i].model_id && out@[i].snapshot_id
                    == self.recorded()[i].snapshot_id && out@[i].metadata@
                    == self.recorded()[i].metadata@) && (forall|i: int, j: int|
                0 <= i < j < out@.len() ==> (#[trigger] out@[i]).sequence < (
                #[trigger] out@[j]).sequence),
    {
        proof {
            use_type_invariant(self);
        }
        let mut out: Vec<AuditEvent> = Vec::new();
        let mut i: usize = 0;
        while i < self.events.len()
            invariant
                i <= self.events.len(),
                out@.len() == i,
                forall|k: int|
                    0 <= k < self.events@.len() ==> (#[trigger] self.events@[k]).sequence == k + 1,
                forall|k: int|
                    0 <= k < i ==> (#[trigger] out@[k]).sequence == k + 1 && out@[k].operation
                        == self.events@[k].operation && out@[k].outcome == self.events@[k].outcome
                        && out@[k].actor == self.events@[k].actor && out@[k].tenant
                        == self.events@[k].tenant && out@[k].model_id == self.events@[k].model_id
                        && out@[k].snapshot_id == self.events@[k].snapshot_id && out@[k].metadata@
                        == self.events@[k].metadata@,
            decreases self.events.len() - i,
        {
            out.push(self.events[i].clone());
            i += 1;
        }
        Ok(out)
    }
}

impl AuditSink for InMemoryAuditSink {
    closed spec fn last_sequence(&self) -> u64 {
        self.sequence
    }

    /// Records the event under the next number, which replaces the number
    /// that the event carries. Fails, and records nothing, only where the
    /// numbers are used up.
    fn record(&mut self, event: AuditEvent) -> (r: Result<(), AuditError>)
        ensures
            match r {
                Ok(()) => old(self).last_sequence() < u64::MAX && final(self).recorded() == old(self).recorded().push(
                    AuditEvent { sequence: (old(self).last_sequence() + 1) as u64, ..event },
                ),
                Err(e) => old(self).last_sequence() == u64::MAX && final(self).recorded() == old(self).recorded() && e matches AuditError::Io(_),
            },
    {
        proof {
            use_type_invariant(&*self);
        }
        match next_sequence(self.sequence) {
            None => Err(AuditError::Io("audit sequence exhausted".to_owned())),
            Some(next) => {
                let mut event = event;
                event.sequence = next;
                let mut taken = InMemoryAuditSink { events: Vec::new(), sequence: 0 };
                core::mem::swap(self, &mut taken);
                let mut events = taken.events;
                events.push(event);
                *self = InMemoryAuditSink { events, sequence: next };
                Ok(())
            },
        }
    }
}

} // verus!
