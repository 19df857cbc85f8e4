//! The wire protocol: requests, responses, snapshots, and operations.
//!
//! Each message is a fixed shape of payload values; encoding goes through the
//! canonical [`crate::value`] codec, so decoding provably inverts encoding.

use vstd::prelude::*;

use crate::keys::{
    field_operations, field_parameter, field_state, tag_error, tag_event, tag_info,
    tag_initialization, tag_snapshot,
};
use crate::value::{
    dec_value, enc_value, lemma_dec_enc, wf_entries, wf_items, wf_value, Value, ValueModel,
};

verus! {

/// An externally visible log entry: an outgoing event payload, an
/// informational message, or an error message.
#[derive(Debug, Clone)]
pub enum Operation {
    Event(Vec<u8>),
    Info(Vec<u8>),
    Error(Vec<u8>),
}

/// Model of an [`Operation`].
pub enum OperationModel {
    Event(Seq<u8>),
    Info(Seq<u8>),
    Error(Seq<u8>),
}

impl View for Operation {
    type V = OperationModel;

    open spec fn view(&self) -> OperationModel {
        match self {
            Operation::Event(p) => OperationModel::Event(p@),
            Operation::Info(p) => OperationModel::Info(p@),
            Operation::Error(p) => OperationModel::Error(p@),
        }
    }
}

/// An incoming request: initialize a fresh unit, or deliver an event to a
/// reconstructed one.  Payloads are opaque serialized bytes.
#[derive(Debug, Clone)]
pub enum Request {
    Initialization { parameter: Vec<u8> },
    Event { state: Vec<u8>, event: Vec<u8> },
}

/// Model of a [`Request`].
pub enum RequestModel {
    Initialization { parameter: Seq<u8> },
    Event { state: Seq<u8>, event: Seq<u8> },
}

impl View for Request {
    type V = RequestModel;

    open spec fn view(&self) -> RequestModel {
        match self {
            Request::Initialization { parameter } => RequestModel::Initialization {
                parameter: parameter@,
            },
            Request::Event { state, event } => RequestModel::Event {
                state: state@,
                event: event@,
            },
        }
    }
}

/// The successful outcome of a request: the ordered action log and the new
/// serialized state.
#[derive(Debug, Clone)]
pub struct Snapshot {
    pub operations: Vec<Operation>,
    pub state: Vec<u8>,
}

/// Model of a [`Snapshot`].
pub struct SnapshotModel {
    pub operations: Seq<OperationModel>,
    pub state: Seq<u8>,
}

impl View for Snapshot {
    type V = SnapshotModel;

    open spec fn view(&self) -> SnapshotModel {
        SnapshotModel {
            operations: Seq::new(self.operations@.len(), |i: int| self.operations@[i]@),
            state: self.state@,
        }
    }
}

/// The outcome of a request: a snapshot, or an error message.
#[derive(Debug, Clone)]
pub enum Response {
    Error(Vec<u8>),
    Snapshot(Snapshot),
}

/// Model of a [`Response`].
pub enum ResponseModel {
    Error(Seq<u8>),
    Snapshot(SnapshotModel),
}

impl View for Response {
    type V = ResponseModel;

    open spec fn view(&self) -> ResponseModel {
        match self {
            Response::Error(m) => ResponseModel::Error(m@),
            Response::Snapshot(s) => ResponseModel::Snapshot(s@),
        }
    }
}

// ---------------------------------------------------------------------------
// Value shapes
// ---------------------------------------------------------------------------

/// The payload-value form of an operation: a one-entry object tagged
/// `Event`, `Info` or `Error`.
pub open spec fn op_value(m: OperationModel) -> ValueModel {
    match m {
        OperationModel::Event(p) => ValueModel::Obj(seq![(tag_event(), ValueModel::Str(p))]),
        OperationModel::Info(p) => ValueModel::Obj(seq![(tag_info(), ValueModel::Str(p))]),
        OperationModel::Error(p) => ValueModel::Obj(seq![(tag_error(), ValueModel::Str(p))]),
    }
}

/// Read an operation back out of its payload-value form.
pub open spec fn op_of_value(v: ValueModel) -> Option<OperationModel> {
    match v {
        ValueModel::Obj(es) => if es.len() == 1 && es[0].1 is Str {
            let key = es[0].0;
            let p = es[0].1->Str_0;
            if key == tag_event() {
                Some(OperationModel::Event(p))
            } else if key == tag_info() {
                Some(OperationModel::Info(p))
            } else if key == tag_error() {
                Some(OperationModel::Error(p))
            } else {
                None
            }
        } else {
            None
        },
        _ => None,
    }
}

/// The payload-value forms of a list of operations, in order.
pub open spec fn ops_values(ops: Seq<OperationModel>) -> Seq<ValueModel> {
    Seq::new(ops.len(), |i: int| op_value(ops[i]))
}

/// Read a list of operations back, requiring every element to be readable.
pub open spec fn ops_of_values(vs: Seq<ValueModel>) -> Option<Seq<OperationModel>>
    decreases vs,
{
    if vs.len() == 0 {
        Some(Seq::empty())
    } else {
        match op_of_value(vs[0]) {
            Some(m) => match ops_of_values(vs.drop_first()) {
                Some(ms) => Some(seq![m] + ms),
                None => None,
            },
            None => None,
        }
    }
}

/// The payload-value form of a request.
pub open spec fn req_value(m: RequestModel) -> ValueModel {
    match m {
        RequestModel::Initialization { parameter } => ValueModel::Obj(
            seq![
                (
                    tag_initialization(),
                    ValueModel::Obj(seq![(field_parameter(), ValueModel::Str(parameter))]),
                ),
            ],
        ),
        RequestModel::Event { state, event } => ValueModel::Obj(
            seq![
                (
                    tag_event(),
                    ValueModel::Obj(
                        seq![
                            (field_state(), ValueModel::Str(state)),
                            (crate::keys::field_event(), ValueModel::Str(event)),
                        ],
                    ),
                ),
            ],
        ),
    }
}

/// Read a request back out of its payload-value form.
pub open spec fn req_of_value(v: ValueModel) -> Option<RequestModel> {
    match v {
        ValueModel::Obj(es) => if es.len() == 1 && es[0].1 is Obj {
            let key = es[0].0;
            let inner = es[0].1->Obj_0;
            if key == tag_initialization() {
                if inner.len() == 1 && inner[0].0 == field_parameter() && inner[0].1 is Str {
                    Some(RequestModel::Initialization { parameter: inner[0].1->Str_0 })
                } else {
                    None
                }
            } else if key == tag_event() {
                if inner.len() == 2 && inner[0].0 == field_state() && inner[0].1 is Str
                    && inner[1].0 == crate::keys::field_event() && inner[1].1 is Str {
                    Some(
                        RequestModel::Event {
                            state: inner[0].1->Str_0,
                            event: inner[1].1->Str_0,
                        },
                    )
                } else {
                    None
                }
            } else {
                None
            }
        } else {
            None
        },
        _ => None,
    }
}

/// The payload-value form of a response.
pub open spec fn resp_value(m: ResponseModel) -> ValueModel {
    match m {
        ResponseModel::Error(p) => ValueModel::Obj(seq![(tag_error(), ValueModel::Str(p))]),
        ResponseModel::Snapshot(s) => ValueModel::Obj(
            seq![
                (
                    tag_snapshot(),
                    ValueModel::Obj(
                        seq![
                            (field_operations(), ValueModel::Arr(ops_values(s.operations))),
                            (field_state(), ValueModel::Str(s.state)),
                        ],
                    ),
                ),
            ],
        ),
    }
}

/// Read a response back out of its payload-value form.
pub open spec fn resp_of_value(v: ValueModel) -> Option<ResponseModel> {
    match v {
        ValueModel::Obj(es) => if es.len() == 1 {
            let key = es[0].0;
            if key == tag_error() && es[0].1 is Str {
                Some(ResponseModel::Error(es[0].1->Str_0))
            } else if key == tag_snapshot() && es[0].1 is Obj {
                let inner = es[0].1->Obj_0;
                if inner.len() == 2 && inner[0].0 == field_operations() && inner[0].1 is Arr
                    && inner[1].0 == field_state() && inner[1].1 is Str {
                    match ops_of_values(inner[0].1->Arr_0) {
                        Some(ops) => Some(
                            ResponseModel::Snapshot(
                                SnapshotModel { operations: ops, state: inner[1].1->Str_0 },
                            ),
                        ),
                        None => None,
                    }
                } else {
                    None
                }
            } else {
                None
            }
        } else {
            None
        },
        _ => None,
    }
}

// ---------------------------------------------------------------------------
// Byte encodings
// ---------------------------------------------------------------------------

/// Canonical bytes of a request.
pub open spec fn enc_request(m: RequestModel) -> Seq<u8> {
    enc_value(req_value(m))
}

/// Decode a request from bytes.
pub open spec fn dec_request(s: Seq<u8>) -> Option<RequestModel> {
    match dec_value(s) {
        Some(v) => req_of_value(v),
        None => None,
    }
}

/// Canonical bytes of a response.
pub open spec fn enc_response(m: ResponseModel) -> Seq<u8> {
    enc_value(resp_value(m))
}

/// Decode a response from bytes.
pub open spec fn dec_response(s: Seq<u8>) -> Option<ResponseModel> {
    match dec_value(s) {
        Some(v) => resp_of_value(v),
        None => None,
    }
}

// ---------------------------------------------------------------------------
// Round trips
// ---------------------------------------------------------------------------

/// `Str` values are always well formed.
proof fn lemma_wf_str(p: Seq<u8>)
    ensures
        wf_value(ValueModel::Str(p)),
{
}

/// The payload-value form of a request is well formed and reads back.
pub proof fn lemma_req_value(m: RequestModel)
    ensures
        wf_value(req_value(m)),
        req_of_value(req_value(m)) == Some(m),
{
    let v = req_value(m);
    let es = v->Obj_0;
    assert(wf_entries(es.drop_first())) by {
        assert(es.drop_first().len() == 0);
    }
    match m {
        RequestModel::Initialization { parameter } => {
            let inner = es[0].1->Obj_0;
            lemma_wf_str(parameter);
            assert(wf_entries(inner.drop_first())) by {
                assert(inner.drop_first().len() == 0);
            }
            assert(wf_entries(inner));
            assert(wf_value(es[0].1));
            assert(wf_entries(es));
        },
        RequestModel::Event { state, event } => {
            let inner = es[0].1->Obj_0;
            lemma_wf_str(state);
            lemma_wf_str(event);
            assert(wf_entries(inner.drop_first().drop_first())) by {
                assert(inner.drop_first().drop_first().len() == 0);
            }
            assert(inner.drop_first()[0] == inner[1]);
            assert(wf_entries(inner.drop_first()));
            assert(wf_entries(inner));
            assert(wf_value(es[0].1));
            assert(wf_entries(es));
            assert(tag_event() != tag_initialization());
        },
    }
}

/// Decoding inverts encoding for requests.
pub proof fn lemma_request_rt(m: RequestModel)
    ensures
        dec_request(enc_request(m)) == Some(m),
{
    lemma_req_value(m);
    lemma_dec_enc(req_value(m));
}

/// Every element of [`ops_values`] is well formed, and the list reads back.
pub proof fn lemma_ops_values(ops: Seq<OperationModel>)
    ensures
        wf_items(ops_values(ops)),
        ops_of_values(ops_values(ops)) == Some(ops),
    decreases ops,
{
    let vs = ops_values(ops);
    if ops.len() == 0 {
        assert(ops_of_values(vs) == Some(Seq::<OperationModel>::empty()));
        assert(Seq::<OperationModel>::empty() =~= ops);
    } else {
        let m0 = ops[0];
        let v0 = vs[0];
        assert(v0 == op_value(m0));
        let es = v0->Obj_0;
        match m0 {
            OperationModel::Event(p) => lemma_wf_str(p),
            OperationModel::Info(p) => lemma_wf_str(p),
            OperationModel::Error(p) => lemma_wf_str(p),
        }
        assert(wf_entries(es.drop_first())) by {
            assert(es.drop_first().len() == 0);
        }
        assert(wf_entries(es));
        assert(wf_value(v0));
        assert(tag_event() != tag_info());
        assert(tag_event() != tag_error());
        assert(tag_info() != tag_error());
        assert(op_of_value(v0) == Some(m0));
        lemma_ops_values(ops.drop_first());
        assert(vs.drop_first() =~= ops_values(ops.drop_first()));
        assert(seq![m0] + ops.drop_first() =~= ops);
    }
}

/// The payload-value form of a response is well formed and reads back.
pub proof fn lemma_resp_value(m: ResponseModel)
    ensures
        wf_value(resp_value(m)),
        resp_of_value(resp_value(m)) == Some(m),
{
    let v = resp_value(m);
    let es = v->Obj_0;
    assert(wf_entries(es.drop_first())) by {
        assert(es.drop_first().len() == 0);
    }
    match m {
        ResponseModel::Error(p) => {
            lemma_wf_str(p);
            assert(wf_entries(es));
        },
        ResponseModel::Snapshot(s) => {
            let inner = es[0].1->Obj_0;
            lemma_ops_values(s.operations);
            lemma_wf_str(s.state);
            assert(wf_value(ValueModel::Arr(ops_values(s.operations))));
            assert(wf_entries(inner.drop_first().drop_first())) by {
                assert(inner.drop_first().drop_first().len() == 0);
            }
            assert(inner.drop_first()[0] == inner[1]);
            assert(wf_entries(inner.drop_first()));
            assert(wf_entries(inner));
            assert(wf_value(es[0].1));
            assert(wf_entries(es));
            assert(tag_snapshot() != tag_error());
            assert(ResponseModel::Snapshot(SnapshotModel { operations: s.operations, state: s.state })
                == m);
        },
    }
}

/// Decoding inverts encoding for responses.
pub proof fn lemma_response_rt(m: ResponseModel)
    ensures
        dec_response(enc_response(m)) == Some(m),
{
    lemma_resp_value(m);
    lemma_dec_enc(resp_value(m));
}

// ---------------------------------------------------------------------------
// Executable encoding and decoding
// ---------------------------------------------------------------------------

/// Copy a byte vector.
pub fn clone_bytes(v: &Vec<u8>) -> (r: Vec<u8>)
    ensures
        r@ == v@,
{
    let r = v.clone();
    proof {
        assert(r@ =~= v@);
    }
    r
}

/// Compare two byte vectors for equality of contents.
pub fn bytes_eq(a: &Vec<u8>, b: &Vec<u8>) -> (r: bool)
    ensures
        r <==> a@ == b@,
{
    if a.len() != b.len() {
        proof {
            assert(a@ != b@);
        }
        return false;
    }
    let mut i: usize = 0;
    while i < a.len()
        invariant
            i <= a.len(),
            a@.len() == b@.len(),
            forall|j: int| 0 <= j < i ==> a@[j] == b@[j],
        decreases a.len() - i,
    {
        if a[i] != b[i] {
            proof {
                assert(a@[i as int] != b@[i as int]);
            }
            return false;
        }
        i = i + 1;
    }
    proof {
        assert(a@ =~= b@);
    }
    true
}

/// Build the one-entry object `{key: inner}`.
fn obj1(key: Vec<u8>, inner: Value) -> (r: Value)
    ensures
        r@ == ValueModel::Obj(seq![(key@, inner@)]),
{
    let ghost key_model = key@;
    let ghost inner_model = crate::value::value_model(inner);
    let mut entries: Vec<(Vec<u8>, Value)> = Vec::new();
    entries.push((key, inner));
    proof {
        crate::value::lemma_entries_model(entries@);
        assert(crate::value::entries_model(entries@) =~= seq![(key_model, inner_model)]);
    }
    Value::Obj(entries)
}

/// Build the one-entry object `{key: Str(payload)}`.
fn obj1_str(key: Vec<u8>, payload: Vec<u8>) -> (r: Value)
    ensures
        r@ == ValueModel::Obj(seq![(key@, ValueModel::Str(payload@))]),
{
    let ghost payload_model = payload@;
    let inner = Value::Str(payload);
    proof {
        assert(crate::value::value_model(inner) == ValueModel::Str(payload_model));
    }
    obj1(key, inner)
}

/// The payload-value form of a request, executable.
pub fn request_to_value(r: &Request) -> (v: Value)
    ensures
        v@ == req_value(r@),
{
    match r {
        Request::Initialization { parameter } => {
            let inner = obj1_str(crate::keys::field_parameter_vec(), clone_bytes(parameter));
            obj1(crate::keys::tag_initialization_vec(), inner)
        },
        Request::Event { state, event } => {
            let ghost state_model = state@;
            let ghost event_model = event@;
            let st_val = Value::Str(clone_bytes(state));
            let ev_val = Value::Str(clone_bytes(event));
            proof {
                assert(crate::value::value_model(st_val) == ValueModel::Str(state_model));
                assert(crate::value::value_model(ev_val) == ValueModel::Str(event_model));
            }
            let mut inner_entries: Vec<(Vec<u8>, Value)> = Vec::new();
            inner_entries.push((crate::keys::field_state_vec(), st_val));
            inner_entries.push((crate::keys::field_event_vec(), ev_val));
            proof {
                crate::value::lemma_entries_model(inner_entries@);
                assert(crate::value::entries_model(inner_entries@) =~= seq![
                    (field_state(), ValueModel::Str(state_model)),
                    (crate::keys::field_event(), ValueModel::Str(event_model)),
                ]);
            }
            obj1(crate::keys::tag_event_vec(), Value::Obj(inner_entries))
        },
    }
}

/// Canonical bytes of a request, executable.
pub fn encode_request(r: &Request) -> (out: Vec<u8>)
    ensures
        out@ == enc_request(r@),
{
    let v = request_to_value(r);
    crate::value::encode_value(&v)
}

/// Read a request out of a payload value, executable.
pub fn request_of_value(v: &Value) -> (r: Option<Request>)
    ensures
        match r {
            Some(req) => req_of_value(v@) == Some(req@),
            None => req_of_value(v@) is None,
        },
{
    let ghost vm = crate::value::value_model(*v);
    match v {
        Value::Obj(entries) => {
            proof {
                crate::value::lemma_entries_model(entries@);
            }
            if entries.len() != 1 {
                return None;
            }
            let key = &entries[0].0;
            let inner_value = &entries[0].1;
            proof {
                assert(vm->Obj_0[0] == (key@, crate::value::value_model(*inner_value)));
            }
            match inner_value {
                Value::Obj(inner) => {
                    proof {
                        crate::value::lemma_entries_model(inner@);
                    }
                    let tag_init = crate::keys::tag_initialization_vec();
                    let tag_ev = crate::keys::tag_event_vec();
                    if bytes_eq(key, &tag_init) {
                        if inner.len() == 1 {
                            let f_param = crate::keys::field_parameter_vec();
                            if bytes_eq(&inner[0].0, &f_param) {
                                match &inner[0].1 {
                                    Value::Str(p) => Some(
                                        Request::Initialization { parameter: clone_bytes(p) },
                                    ),
                                    _ => None,
                                }
                            } else {
                                None
                            }
                        } else {
                            None
                        }
                    } else if bytes_eq(key, &tag_ev) {
                        if inner.len() == 2 {
                            let f_state = crate::keys::field_state_vec();
                            let f_event = crate::keys::field_event_vec();
                            if bytes_eq(&inner[0].0, &f_state) && bytes_eq(&inner[1].0, &f_event) {
                                match (&inner[0].1, &inner[1].1) {
                                    (Value::Str(st), Value::Str(ev)) => Some(
                                        Request::Event {
                                            state: clone_bytes(st),
                                            event: clone_bytes(ev),
                                        },
                                    ),
                                    _ => None,
                                }
                            } else {
                                None
                            }
                        } else {
                            None
                        }
                    } else {
                        None
                    }
                },
                _ => None,
            }
        },
        _ => None,
    }
}

/// Decode a request from bytes, executable.
pub fn decode_request(s: &Vec<u8>) -> (r: Option<Request>)
    ensures
        match r {
            Some(req) => dec_request(s@) == Some(req@),
            None => dec_request(s@) is None,
        },
{
    match crate::value::decode_value(s) {
        Some(v) => request_of_value(&v),
        None => None,
    }
}

/// The payload-value form of one operation, executable.
fn op_to_value(op: &Operation) -> (v: Value)
    ensures
        v@ == op_value(op@),
{
    match op {
        Operation::Event(p) => obj1_str(crate::keys::tag_event_vec(), clone_bytes(p)),
        Operation::Info(p) => obj1_str(crate::keys::tag_info_vec(), clone_bytes(p)),
        Operation::Error(p) => obj1_str(crate::keys::tag_error_vec(), clone_bytes(p)),
    }
}

/// The payload-value forms of a list of operations, executable.
fn ops_to_values(ops: &Vec<Operation>) -> (r: Vec<Value>)
    ensures
        crate::value::items_model(r@) == ops_values(Seq::new(ops@.len(), |i: int| ops@[i]@)),
{
    let ghost ops_model = Seq::new(ops@.len(), |i: int| ops@[i]@);
    let mut out: Vec<Value> = Vec::new();
    let mut i: usize = 0;
    proof {
        crate::value::lemma_items_model(out@);
        assert(crate::value::items_model(out@) =~= ops_values(ops_model.take(0)));
    }
    while i < ops.len()
        invariant
            i <= ops.len(),
            ops_model == Seq::new(ops@.len(), |j: int| ops@[j]@),
            crate::value::items_model(out@) == ops_values(ops_model.take(i as int)),
        decreases ops.len() - i,
    {
        let ghost pre = out@;
        let v = op_to_value(&ops[i]);
        proof {
            assert(ops_model[i as int] == ops@[i as int]@);
            assert(v@ == op_value(ops_model[i as int]));
        }
        out.push(v);
        proof {
            crate::value::lemma_items_model(pre);
            crate::value::lemma_items_model(out@);
            assert(out@.drop_last() =~= pre);
            assert(crate::value::items_model(out@) =~= ops_values(ops_model.take(i + 1)));
        }
        i = i + 1;
    }
    proof {
        assert(ops_model.take(ops@.len() as int) =~= ops_model);
    }
    out
}

/// Read one operation out of a payload value, executable.
fn op_of_value_x(v: &Value) -> (r: Option<Operation>)
    ensures
        match r {
            Some(op) => op_of_value(v@) == Some(op@),
            None => op_of_value(v@) is None,
        },
{
    match v {
        Value::Obj(entries) => {
            proof {
                crate::value::lemma_entries_model(entries@);
            }
            if entries.len() != 1 {
                return None;
            }
            let key = &entries[0].0;
            match &entries[0].1 {
                Value::Str(p) => {
                    let t_event = crate::keys::tag_event_vec();
                    let t_info = crate::keys::tag_info_vec();
                    let t_error = crate::keys::tag_error_vec();
                    if bytes_eq(key, &t_event) {
                        Some(Operation::Event(clone_bytes(p)))
                    } else if bytes_eq(key, &t_info) {
                        Some(Operation::Info(clone_bytes(p)))
                    } else if bytes_eq(key, &t_error) {
                        Some(Operation::Error(clone_bytes(p)))
                    } else {
                        None
                    }
                },
                _ => None,
            }
        },
        _ => None,
    }
}

/// Read a list of operations back, from `start` on, executable.
fn ops_of_values_x(vs: &Vec<Value>, start: usize) -> (r: Option<Vec<Operation>>)
    requires
        start <= vs.len(),
    ensures
        match r {
            Some(ops) => ops_of_values(crate::value::items_model(vs@).skip(start as int)) == Some(
                Seq::new(ops@.len(), |i: int| ops@[i]@),
            ),
            None => ops_of_values(crate::value::items_model(vs@).skip(start as int)) is None,
        },
    decreases vs.len() - start,
{
    proof {
        crate::value::lemma_items_model(vs@);
    }
    let ghost whole = crate::value::items_model(vs@);
    if start == vs.len() {
        proof {
            assert(whole.skip(start as int).len() == 0);
        }
        let empty_ops: Vec<Operation> = Vec::new();
        proof {
            assert(Seq::new(empty_ops@.len(), |i: int| empty_ops@[i]@) =~= Seq::<
                OperationModel,
            >::empty());
        }
        return Some(empty_ops);
    }
    proof {
        assert(whole.skip(start as int)[0] == whole[start as int]);
        assert(whole[start as int] == crate::value::value_model(vs@[start as int]));
        assert(whole.skip(start as int).drop_first() =~= whole.skip(start + 1));
    }
    match op_of_value_x(&vs[start]) {
        Some(op) => {
            match ops_of_values_x(vs, start + 1) {
                Some(mut ops) => {
                    let ghost rest = Seq::new(ops@.len(), |i: int| ops@[i]@);
                    let ghost op_model = op@;
                    ops.insert(0, op);
                    proof {
                        assert(Seq::new(ops@.len(), |i: int| ops@[i]@) =~= seq![op_model] + rest);
                    }
                    Some(ops)
                },
                None => None,
            }
        },
        None => None,
    }
}

/// The payload-value form of a response, executable.
pub fn response_to_value(r: &Response) -> (v: Value)
    ensures
        v@ == resp_value(r@),
{
    match r {
        Response::Error(p) => obj1_str(crate::keys::tag_error_vec(), clone_bytes(p)),
        Response::Snapshot(s) => {
            let ghost ops_model = Seq::new(s.operations@.len(), |i: int| s.operations@[i]@);
            let ops_vals = ops_to_values(&s.operations);
            let arr_val = Value::Arr(ops_vals);
            let st_val = Value::Str(clone_bytes(&s.state));
            proof {
                assert(crate::value::value_model(arr_val) == ValueModel::Arr(
                    ops_values(ops_model),
                ));
                assert(crate::value::value_model(st_val) == ValueModel::Str(s.state@));
            }
            let mut inner_entries: Vec<(Vec<u8>, Value)> = Vec::new();
            inner_entries.push((crate::keys::field_operations_vec(), arr_val));
            inner_entries.push((crate::keys::field_state_vec(), st_val));
            proof {
                crate::value::lemma_entries_model(inner_entries@);
                assert(crate::value::entries_model(inner_entries@) =~= seq![
                    (field_operations(), ValueModel::Arr(ops_values(ops_model))),
                    (field_state(), ValueModel::Str(s.state@)),
                ]);
            }
            obj1(crate::keys::tag_snapshot_vec(), Value::Obj(inner_entries))
        },
    }
}

/// Canonical bytes of a response, executable.
pub fn encode_response(r: &Response) -> (out: Vec<u8>)
    ensures
        out@ == enc_response(r@),
{
    let v = response_to_value(r);
    crate::value::encode_value(&v)
}

/// Read a response out of a payload value, executable.
pub fn response_of_value(v: &Value) -> (r: Option<Response>)
    ensures
        match r {
            Some(resp) => resp_of_value(v@) == Some(resp@),
            None => resp_of_value(v@) is None,
        },
{
    match v {
        Value::Obj(entries) => {
            proof {
                crate::value::lemma_entries_model(entries@);
            }
            if entries.len() != 1 {
                return None;
            }
            let key = &entries[0].0;
            let t_error = crate::keys::tag_error_vec();
            let t_snapshot = crate::keys::tag_snapshot_vec();
            if bytes_eq(key, &t_error) {
                match &entries[0].1 {
                    Value::Str(p) => Some(Response::Error(clone_bytes(p))),
                    _ => None,
                }
            } else if bytes_eq(key, &t_snapshot) {
                match &entries[0].1 {
                    Value::Obj(inner) => {
                        proof {
                            crate::value::lemma_entries_model(inner@);
                        }
                        if inner.len() == 2 {
                            let f_ops = crate::keys::field_operations_vec();
                            let f_state = crate::keys::field_state_vec();
                            if bytes_eq(&inner[0].0, &f_ops) && bytes_eq(&inner[1].0, &f_state) {
                                match (&inner[0].1, &inner[1].1) {
                                    (Value::Arr(items), Value::Str(st)) => {
                                        proof {
                                            assert(crate::value::items_model(items@).skip(0) =~=
                                                crate::value::items_model(items@));
                                        }
                                        match ops_of_values_x(items, 0) {
                                            Some(ops) => {
                                                let snap = Snapshot {
                                                    operations: ops,
                                                    state: clone_bytes(st),
                                                };
                                                Some(Response::Snapshot(snap))
                                            },
                                            None => None,
                                        }
                                    },
                                    _ => None,
                                }
                            } else {
                                None
                            }
                        } else {
                            None
                        }
                    },
                    _ => None,
                }
            } else {
                None
            }
        },
        _ => None,
    }
}

/// Decode a response from bytes, executable.
pub fn decode_response(s: &Vec<u8>) -> (r: Option<Response>)
    ensures
        match r {
            Some(resp) => dec_response(s@) == Some(resp@),
            None => dec_response(s@) is None,
        },
{
    match crate::value::decode_value(s) {
        Some(v) => response_of_value(&v),
        None => None,
    }
}

} // verus!
