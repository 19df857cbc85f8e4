//! The ordered action log that a pass of processing accumulates.
//!
//! Entries are appended, never reordered or dropped; merging two logs
//! concatenates them in order.  Building turns the log into the operations of
//! a snapshot, failing exactly when an outgoing event failed to encode.

use vstd::prelude::*;

use crate::protocol::{Operation, OperationModel};

verus! {

/// One log entry: an outgoing event payload (or its encoding failure), or an
/// informational message.
pub enum ActionLog {
    Event(Result<Vec<u8>, Vec<u8>>),
    Info(Vec<u8>),
}

/// Model of an [`ActionLog`] entry.
pub enum ActionModel {
    Event(Result<Seq<u8>, Seq<u8>>),
    Info(Seq<u8>),
}

impl View for ActionLog {
    type V = ActionModel;

    open spec fn view(&self) -> ActionModel {
        match self {
            ActionLog::Event(Ok(p)) => ActionModel::Event(Ok(p@)),
            ActionLog::Event(Err(m)) => ActionModel::Event(Err(m@)),
            ActionLog::Info(p) => ActionModel::Info(p@),
        }
    }
}

/// A unit's outgoing event: anything that can say its raw payload bytes.
pub trait OutgoingEvent {
    /// The serialized payload of this event, or an encoding error message.
    fn get_raw(&self) -> Result<Vec<u8>, Vec<u8>>;
}

/// An append-only ordered log of emitted side-effect records.
pub struct Actions {
    logs: Vec<ActionLog>,
}

impl View for Actions {
    type V = Seq<ActionModel>;

    closed spec fn view(&self) -> Seq<ActionModel> {
        Seq::new(self.logs@.len(), |i: int| self.logs@[i]@)
    }
}

/// The operations that a log builds: its entries in order, stopping with the
/// first event that failed to encode.
pub open spec fn build_spec(logs: Seq<ActionModel>) -> Result<Seq<OperationModel>, Seq<u8>>
    decreases logs,
{
    if logs.len() == 0 {
        Ok(Seq::empty())
    } else {
        match logs[0] {
            ActionModel::Event(Ok(p)) => match build_spec(logs.drop_first()) {
                Ok(ops) => Ok(seq![OperationModel::Event(p)] + ops),
                Err(m) => Err(m),
            },
            ActionModel::Event(Err(m)) => Err(m),
            ActionModel::Info(p) => match build_spec(logs.drop_first()) {
                Ok(ops) => Ok(seq![OperationModel::Info(p)] + ops),
                Err(m) => Err(m),
            },
        }
    }
}

impl Actions {
    /// An empty log.
    pub fn new() -> (r: Actions)
        ensures
            r@ == Seq::<ActionModel>::empty(),
    {
        let r = Actions { logs: Vec::new() };
        proof {
            assert(r@ =~= Seq::<ActionModel>::empty());
        }
        r
    }

    /// Append an informational message.
    pub fn info(self, message: Vec<u8>) -> (r: Actions)
        ensures
            r@ == self@.push(ActionModel::Info(message@)),
    {
        let ghost pre = self@;
        let mut logs = self.logs;
        logs.push(ActionLog::Info(message));
        let r = Actions { logs };
        proof {
            assert(r@ =~= pre.push(r@.last()));
        }
        r
    }

    /// Append an outgoing event entry from its already-encoded payload, or
    /// from its encoding failure, which a later build surfaces.
    pub fn event_raw(self, raw: Result<Vec<u8>, Vec<u8>>) -> (r: Actions)
        ensures
            r@ == self@.push(
                match raw {
                    Ok(p) => ActionModel::Event(Ok(p@)),
                    Err(m) => ActionModel::Event(Err(m@)),
                },
            ),
    {
        let ghost pre = self@;
        let mut logs = self.logs;
        logs.push(ActionLog::Event(raw));
        let r = Actions { logs };
        proof {
            assert(r@ =~= pre.push(r@.last()));
        }
        r
    }

    /// Append an outgoing event: exactly [`Self::event_raw`] applied to
    /// whatever the event's own encoding says.  The payload is the event's
    /// to choose, so only the shape of the appended entry is stated here;
    /// callers that need the payload pinned use `event_raw` directly.
    pub fn event<T: OutgoingEvent>(self, event: T) -> (r: Actions)
        ensures
            r@.len() == self@.len() + 1,
            r@.take(self@.len() as int) == self@,
            r@.last() is Event,
    {
        let ghost pre = self@;
        let raw = event.get_raw();
        let r = self.event_raw(raw);
        proof {
            assert(r@.take(pre.len() as int) =~= pre);
        }
        r
    }

    /// Concatenate two logs, keeping both orders.
    pub fn merge(self, other: Actions) -> (r: Actions)
        ensures
            r@ == self@ + other@,
    {
        let ghost pre = self@;
        let ghost oth = other@;
        let mut logs = self.logs;
        let mut other_logs = other.logs;
        logs.append(&mut other_logs);
        let r = Actions { logs };
        proof {
            assert(r@ =~= pre + oth);
        }
        r
    }

    /// Turn the log into snapshot operations, in order; fail with the first
    /// event encoding error.
    pub fn build(self) -> (r: Result<Vec<Operation>, Vec<u8>>)
        ensures
            match r {
                Ok(ops) => build_spec(self@) == Ok::<Seq<OperationModel>, Seq<u8>>(
                    Seq::new(ops@.len(), |i: int| ops@[i]@),
                ),
                Err(m) => build_spec(self@) == Err::<Seq<OperationModel>, Seq<u8>>(m@),
            },
    {
        proof {
            assert(self@ =~= Seq::new(self.logs@.len(), |i: int| self.logs@[i]@).skip(0));
        }
        build_from(&self.logs, 0)
    }
}

/// Build the operations of `logs[start..]`.
fn build_from(logs: &Vec<ActionLog>, start: usize) -> (r: Result<Vec<Operation>, Vec<u8>>)
    requires
        start <= logs.len(),
    ensures
        ({
            let model = Seq::new(logs@.len(), |i: int| logs@[i]@).skip(start as int);
            match r {
                Ok(ops) => build_spec(model) == Ok::<Seq<OperationModel>, Seq<u8>>(Seq::new(ops@.len(), |i: int| ops@[i]@)),
                Err(m) => build_spec(model) == Err::<Seq<OperationModel>, Seq<u8>>(m@),
            }
        }),
    decreases logs.len() - start,
{
    let ghost whole = Seq::new(logs@.len(), |i: int| logs@[i]@);
    let ghost model = whole.skip(start as int);
    if start == logs.len() {
        let ops: Vec<Operation> = Vec::new();
        proof {
            assert(model.len() == 0);
            assert(Seq::new(ops@.len(), |i: int| ops@[i]@) =~= Seq::<OperationModel>::empty());
        }
        return Ok(ops);
    }
    proof {
        assert(model[0] == whole[start as int]);
        assert(model.drop_first() =~= whole.skip(start + 1));
    }
    let op: Operation = match &logs[start] {
        ActionLog::Event(Ok(p)) => Operation::Event(crate::protocol::clone_bytes(p)),
        ActionLog::Event(Err(m)) => {
            return Err(crate::protocol::clone_bytes(m));
        },
        ActionLog::Info(p) => Operation::Info(crate::protocol::clone_bytes(p)),
    };
    let ghost op_model = op@;
    match build_from(logs, start + 1) {
        Ok(mut ops) => {
            let ghost rest = Seq::new(ops@.len(), |i: int| ops@[i]@);
            ops.insert(0, op);
            proof {
                assert(Seq::new(ops@.len(), |i: int| ops@[i]@) =~= seq![op_model] + rest);
            }
            Ok(ops)
        },
        Err(m) => Err(m),
    }
}

} // verus!
