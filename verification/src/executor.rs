//! The request executor: initialization, event delivery, and the
//! update-to-fixpoint loop under an iteration ceiling.
//!
//! Delivering an event first applies the external stimulus through
//! [`crate::store`] processing, then lets the tree settle by repeated update
//! passes.  The loop stops as soon as a pass reports no change; exhausting
//! the ceiling is a hard failure that discards the attempt.

use vstd::prelude::*;

use crate::actions::{build_spec, ActionModel, Actions};
use crate::keys::{
    field_initial, msg_parameter_decode_error, msg_request_decode_error, msg_state_decode_error,
    msg_update_limit_exceeded,
};
use crate::persist::{dec_state, enc_state};
use crate::protocol::{
    dec_request, enc_response, Request, RequestModel, Response, ResponseModel, Snapshot,
    SnapshotModel,
};
use crate::store::{spec_process, spec_update, BaseStore, EventStatus, State, StateModel,
    StateStatus, Store};
use crate::value::{dec_value, Value, ValueModel};

verus! {

/// The default iteration ceiling of the update loop.
pub const UPDATE_LIMIT: u64 = 50;

// ---------------------------------------------------------------------------
// Initialization parameters
// ---------------------------------------------------------------------------

/// Read an initialization parameter out of a payload value: `{initial: n}`
/// yields a counter unit starting at `n`.
pub open spec fn param_of_value(v: ValueModel) -> Option<StateModel> {
    match v {
        ValueModel::Obj(es) => if es.len() == 1 && es[0].0 == field_initial() && es[0].1 is Int
            && i64::MIN <= es[0].1->Int_0 <= i64::MAX {
            Some(StateModel::Counter { accumulator: es[0].1->Int_0 as i64 })
        } else {
            None
        },
        _ => None,
    }
}

/// Decode an initialization parameter from bytes.
pub open spec fn dec_parameter(s: Seq<u8>) -> Option<StateModel> {
    match dec_value(s) {
        Some(v) => param_of_value(v),
        None => None,
    }
}

/// Decode an initialization parameter, executable.
pub fn decode_parameter(s: &Vec<u8>) -> (r: Option<State>)
    ensures
        match r {
            Some(st) => dec_parameter(s@) == Some(st@),
            None => dec_parameter(s@) is None,
        },
{
    match crate::value::decode_value(s) {
        Some(v) => match &v {
            Value::Obj(entries) => {
                proof {
                    crate::value::lemma_entries_model(entries@);
                }
                if entries.len() != 1 {
                    return None;
                }
                let f_initial = crate::keys::field_initial_vec();
                if crate::protocol::bytes_eq(&entries[0].0, &f_initial) {
                    match &entries[0].1 {
                        Value::Int(n) => {
                            let st = State::Counter { accumulator: *n };
                            proof {
                                crate::store::lemma_state_view(st);
                            }
                            Some(st)
                        },
                        _ => None,
                    }
                } else {
                    None
                }
            },
            _ => None,
        },
        None => None,
    }
}

// ---------------------------------------------------------------------------
// The fixpoint loop
// ---------------------------------------------------------------------------

/// Run update passes until one reports no change, with at most `fuel`
/// passes; `None` means the ceiling was exhausted without converging.
/// Actions merge in call order, the final pass included.
pub open spec fn run_updates(s: StateModel, fuel: nat) -> Option<(StateModel, Seq<ActionModel>)>
    decreases fuel,
{
    if fuel == 0 {
        None
    } else {
        let (s1, changed, a1) = spec_update(s);
        if !changed {
            Some((s1, a1))
        } else {
            match run_updates(s1, (fuel - 1) as nat) {
                Some((s2, a2)) => Some((s2, a1 + a2)),
                None => None,
            }
        }
    }
}

/// Prepend already-collected actions to a fixpoint-loop outcome.
pub open spec fn prepend_actions(p: Seq<ActionModel>, o: Option<(StateModel, Seq<ActionModel>)>)
    -> Option<(StateModel, Seq<ActionModel>)> {
    match o {
        Some((s, a)) => Some((s, p + a)),
        None => None,
    }
}

// ---------------------------------------------------------------------------
// Executor specification
// ---------------------------------------------------------------------------

/// Build a snapshot from a settled state and the collected log.
pub open spec fn build_snapshot(st: StateModel, logs: Seq<ActionModel>) -> Result<
    SnapshotModel,
    Seq<u8>,
> {
    match build_spec(logs) {
        Ok(ops) => Ok(SnapshotModel { operations: ops, state: enc_state(st) }),
        Err(m) => Err(m),
    }
}

/// Initialization: decode the parameter, run the unit's entry, and snapshot
/// the fresh store.
pub open spec fn spec_execute_initialization(parameter: Seq<u8>) -> Result<SnapshotModel, Seq<u8>> {
    match dec_parameter(parameter) {
        Some(st) => Ok(SnapshotModel { operations: Seq::empty(), state: enc_state(st) }),
        None => Err(msg_parameter_decode_error()),
    }
}

/// Event delivery: rebuild the store, process the event, and if it was
/// consumed settle to a fixpoint under the ceiling.
pub open spec fn spec_execute_event(state: Seq<u8>, event: Seq<u8>, limit: nat) -> Result<
    SnapshotModel,
    Seq<u8>,
> {
    match dec_state(state) {
        None => Err(msg_state_decode_error()),
        Some(st) => {
            let (st1, status, a1) = spec_process(st, event);
            if status == EventStatus::Dropped {
                build_snapshot(st1, a1)
            } else {
                match run_updates(st1, limit) {
                    Some((st2, a2)) => build_snapshot(st2, a1 + a2),
                    None => Err(msg_update_limit_exceeded()),
                }
            }
        },
    }
}

/// One whole request.
pub open spec fn spec_serialized_execute(req: RequestModel, limit: nat) -> Result<
    SnapshotModel,
    Seq<u8>,
> {
    match req {
        RequestModel::Initialization { parameter } => spec_execute_initialization(parameter),
        RequestModel::Event { state, event } => spec_execute_event(state, event, limit),
    }
}

/// Raw bytes in, raw bytes out: every outcome is an encoded response, an
/// undecodable request envelope included — that failure is surfaced as an
/// encoded error response, never as bare text.
pub open spec fn spec_execute(input: Seq<u8>, limit: nat) -> Seq<u8> {
    match dec_request(input) {
        None => enc_response(ResponseModel::Error(msg_request_decode_error())),
        Some(req) => match spec_serialized_execute(req, limit) {
            Ok(snap) => enc_response(ResponseModel::Snapshot(snap)),
            Err(m) => enc_response(ResponseModel::Error(m)),
        },
    }
}

// ---------------------------------------------------------------------------
// Executable executor
// ---------------------------------------------------------------------------

/// Build a snapshot from a settled store and the collected log, executable.
pub fn snapshot(store: Store, actions: Actions) -> (r: Result<Snapshot, Vec<u8>>)
    ensures
        match r {
            Ok(snap) => build_snapshot(store@, actions@) == Ok::<SnapshotModel, Seq<u8>>(snap@),
            Err(m) => build_snapshot(store@, actions@) == Err::<SnapshotModel, Seq<u8>>(m@),
        },
{
    let state = store.serialize();
    match actions.build() {
        Ok(ops) => Ok(Snapshot { operations: ops, state }),
        Err(m) => Err(m),
    }
}

/// Initialization, executable.
pub fn execute_initialization(parameter: Vec<u8>) -> (r: Result<Snapshot, Vec<u8>>)
    ensures
        match r {
            Ok(snap) => spec_execute_initialization(parameter@) == Ok::<SnapshotModel, Seq<u8>>(
                snap@,
            ),
            Err(m) => spec_execute_initialization(parameter@) == Err::<SnapshotModel, Seq<u8>>(m@),
        },
{
    match decode_parameter(&parameter) {
        Some(st) => {
            let store = Store::new(st);
            match snapshot(store, Actions::new()) {
                Ok(snap) => {
                    proof {
                        assert(Seq::new(snap.operations@.len(), |i: int| snap.operations@[i]@)
                            =~= Seq::<crate::protocol::OperationModel>::empty());
                    }
                    Ok(snap)
                },
                Err(m) => Err(m),
            }
        },
        None => Err(crate::keys::msg_parameter_decode_error_vec()),
    }
}

/// Event delivery with an explicit iteration ceiling, executable.
pub fn execute_event_with_limit(state: Vec<u8>, event: Vec<u8>, limit: u64) -> (r: Result<
    Snapshot,
    Vec<u8>,
>)
    ensures
        match r {
            Ok(snap) => spec_execute_event(state@, event@, limit as nat) == Ok::<
                SnapshotModel,
                Seq<u8>,
            >(snap@),
            Err(m) => spec_execute_event(state@, event@, limit as nat) == Err::<
                SnapshotModel,
                Seq<u8>,
            >(m@),
        },
{
    let mut store = match Store::deserialize(&state) {
        Some(st) => st,
        None => {
            return Err(crate::keys::msg_state_decode_error_vec());
        },
    };
    let ghost st0 = store@;
    proof {
        assert(dec_state(state@) == Some(st0));
    }
    let (status, actions) = store.process(&event);
    proof {
        assert(store@ == spec_process(st0, event@).0);
        assert(status == spec_process(st0, event@).1);
        assert(actions@ == spec_process(st0, event@).2);
    }
    if status == EventStatus::Dropped {
        return snapshot(store, actions);
    }
    let ghost st1 = store@;
    let mut upd_actions = Actions::new();
    let mut it: u64 = 0;
    proof {
        assert(prepend_actions(upd_actions@, run_updates(st1, limit as nat)) == run_updates(
            st1,
            limit as nat,
        )) by {
            match run_updates(st1, limit as nat) {
                Some(p) => {
                    assert(upd_actions@ + p.1 =~= p.1);
                },
                None => {},
            }
        }
    }
    while it < limit
        invariant
            it <= limit,
            dec_state(state@) == Some(st0),
            st1 == spec_process(st0, event@).0,
            spec_process(st0, event@).1 != EventStatus::Dropped,
            actions@ == spec_process(st0, event@).2,
            run_updates(st1, limit as nat) == prepend_actions(
                upd_actions@,
                run_updates(store@, (limit - it) as nat),
            ),
        decreases limit - it,
    {
        let ghost pre_model = store@;
        let ghost pre_acts = upd_actions@;
        let (st, a) = store.update();
        let ghost a_model = a@;
        upd_actions = upd_actions.merge(a);
        it = it + 1;
        if st == StateStatus::Same {
            proof {
                assert(run_updates(pre_model, (limit - (it - 1)) as nat) == Some(
                    (store@, a_model),
                ));
                assert(pre_acts + a_model =~= upd_actions@);
                assert(run_updates(st1, limit as nat) == prepend_actions(
                    pre_acts,
                    Some((store@, a_model)),
                ));
                assert(run_updates(st1, limit as nat) == Some((store@, upd_actions@)));
                assert(st1 == spec_process(st0, event@).0);
                assert(spec_process(st0, event@).1 != EventStatus::Dropped);
            }
            let merged = actions.merge(upd_actions);
            proof {
                assert(merged@ == spec_process(st0, event@).2 + upd_actions@);
            }
            return snapshot(store, merged);
        }
        proof {
            assert(run_updates(pre_model, (limit - (it - 1)) as nat) == prepend_actions(
                a_model,
                run_updates(store@, (limit - it) as nat),
            ));
            assert(prepend_actions(
                pre_acts,
                prepend_actions(a_model, run_updates(store@, (limit - it) as nat)),
            ) == prepend_actions(upd_actions@, run_updates(store@, (limit - it) as nat))) by {
                match run_updates(store@, (limit - it) as nat) {
                    Some(p) => {
                        assert(pre_acts + (a_model + p.1) =~= (pre_acts + a_model) + p.1);
                        assert(pre_acts + a_model =~= upd_actions@);
                    },
                    None => {},
                }
            }
        }
    }
    proof {
        assert(run_updates(store@, 0) is None);
    }
    Err(crate::keys::msg_update_limit_exceeded_vec())
}

/// Event delivery under the default ceiling, executable.
pub fn execute_event(state: Vec<u8>, event: Vec<u8>) -> (r: Result<Snapshot, Vec<u8>>)
    ensures
        match r {
            Ok(snap) => spec_execute_event(state@, event@, UPDATE_LIMIT as nat) == Ok::<
                SnapshotModel,
                Seq<u8>,
            >(snap@),
            Err(m) => spec_execute_event(state@, event@, UPDATE_LIMIT as nat) == Err::<
                SnapshotModel,
                Seq<u8>,
            >(m@),
        },
{
    execute_event_with_limit(state, event, UPDATE_LIMIT)
}

/// One whole request, executable.
pub fn serialized_execute(request: Request) -> (r: Result<Snapshot, Vec<u8>>)
    ensures
        match r {
            Ok(snap) => spec_serialized_execute(request@, UPDATE_LIMIT as nat) == Ok::<
                SnapshotModel,
                Seq<u8>,
            >(snap@),
            Err(m) => spec_serialized_execute(request@, UPDATE_LIMIT as nat) == Err::<
                SnapshotModel,
                Seq<u8>,
            >(m@),
        },
{
    match request {
        Request::Initialization { parameter } => execute_initialization(parameter),
        Request::Event { state, event } => execute_event(state, event),
    }
}

/// Raw bytes in, raw bytes out, executable.
pub fn execute(input: &Vec<u8>) -> (r: Vec<u8>)
    ensures
        r@ == spec_execute(input@, UPDATE_LIMIT as nat),
{
    match crate::protocol::decode_request(input) {
        Some(req) => match serialized_execute(req) {
            Ok(snap) => crate::protocol::encode_response(&Response::Snapshot(snap)),
            Err(m) => crate::protocol::encode_response(&Response::Error(m)),
        },
        None => crate::protocol::encode_response(
            &Response::Error(crate::keys::msg_request_decode_error_vec()),
        ),
    }
}

// ---------------------------------------------------------------------------
// Convergence laws
// ---------------------------------------------------------------------------

/// A well-formed request envelope is executed, never rejected: the raw
/// execution of an encoded request is exactly the encoded outcome of the
/// structured execution.
pub proof fn lemma_execute_envelope(req: RequestModel, limit: nat)
    ensures
        spec_execute(crate::protocol::enc_request(req), limit) == (
        match spec_serialized_execute(req, limit) {
            Ok(snap) => enc_response(ResponseModel::Snapshot(snap)),
            Err(m) => enc_response(ResponseModel::Error(m)),
        }),
{
    crate::protocol::lemma_request_rt(req);
}

/// A dropped event is not an error: delivering an event that nothing
/// consumes to a serialized state returns a snapshot with that same
/// serialized state and an empty operation list.
pub proof fn lemma_dropped_event_keeps_state(m: StateModel, ev: Seq<u8>, limit: nat)
    requires
        spec_process(m, ev).1 == EventStatus::Dropped,
    ensures
        spec_execute_event(enc_state(m), ev, limit) == Ok::<SnapshotModel, Seq<u8>>(
            SnapshotModel { operations: Seq::empty(), state: enc_state(m) },
        ),
{
    crate::persist::lemma_state_rt(m);
    crate::store::lemma_dropped_unchanged(m, ev);
    assert(build_spec(Seq::<ActionModel>::empty()) == Ok::<
        Seq<crate::protocol::OperationModel>,
        Seq<u8>,
    >(Seq::empty()));
}

/// The tick log of `n` settling passes.
pub open spec fn tick_log(n: int) -> Seq<ActionModel> {
    Seq::new(n as nat, |i: int| ActionModel::Info(crate::keys::msg_tick()))
}

/// A unit that keeps changing for exactly `n` passes before settling
/// converges with `n + 1` update calls, and any larger ceiling gives the
/// same outcome.
pub proof fn lemma_countdown_converges(n: i64, fuel: nat)
    requires
        0 <= n,
        fuel >= n + 1,
    ensures
        run_updates(StateModel::Ticker { remaining: n, persistent: false }, fuel) == Some(
            (StateModel::Ticker { remaining: 0, persistent: false }, tick_log(n as int)),
        ),
    decreases n,
{
    let s = StateModel::Ticker { remaining: n, persistent: false };
    if n == 0 {
        assert(spec_update(s).1 == false);
        assert(tick_log(0) =~= Seq::<ActionModel>::empty());
    } else {
        let s1 = StateModel::Ticker { remaining: (n - 1) as i64, persistent: false };
        assert(spec_update(s) == (s1, true, seq![ActionModel::Info(crate::keys::msg_tick())]));
        lemma_countdown_converges((n - 1) as i64, (fuel - 1) as nat);
        assert(seq![ActionModel::Info(crate::keys::msg_tick())] + tick_log(n - 1) =~= tick_log(
            n as int,
        ));
    }
}

/// The same unit with a ceiling of `n` or less exhausts the ceiling.
pub proof fn lemma_countdown_exhausts(n: i64, fuel: nat)
    requires
        0 <= fuel <= n,
    ensures
        run_updates(StateModel::Ticker { remaining: n, persistent: false }, fuel) is None,
    decreases fuel,
{
    if fuel > 0 {
        lemma_countdown_exhausts((n - 1) as i64, (fuel - 1) as nat);
    }
}

/// A unit that never stops changing exhausts any ceiling: no snapshot is
/// ever produced.
pub proof fn lemma_persistent_never_converges(r0: i64, fuel: nat)
    ensures
        run_updates(StateModel::Ticker { remaining: r0, persistent: true }, fuel) is None,
    decreases fuel,
{
    if fuel > 0 {
        let s1 = spec_update(StateModel::Ticker { remaining: r0, persistent: true }).0;
        lemma_persistent_never_converges(
            vstd::wrapping::i64_specs::wrapping_add(r0, 1),
            (fuel - 1) as nat,
        );
    }
}

} // verus!