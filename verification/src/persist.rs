//! Serialization of unit values: a store serializes as exactly the value of
//! the unit it wraps, children included, and the tree is rebuilt from that
//! value on load.  Decoding provably inverts encoding for every unit value.

use vstd::prelude::*;

use crate::keys::{
    field_accumulator, field_children, field_persistent, field_remaining, field_tag, tag_counter,
    tag_group, tag_ticker,
};
use crate::protocol::{bytes_eq, clone_bytes};
use crate::store::{state_height, children_height, State, StateModel, Store};
use crate::value::{dec_value, enc_value, lemma_dec_enc, wf_entries, wf_items, wf_value, Value,
    ValueModel};

verus! {

/// The payload-value form of a unit value.
pub open spec fn state_value(m: StateModel) -> ValueModel
    decreases m, 1int,
{
    match m {
        StateModel::Counter { accumulator } => ValueModel::Obj(
            seq![
                (
                    tag_counter(),
                    ValueModel::Obj(
                        seq![(field_accumulator(), ValueModel::Int(accumulator as int))],
                    ),
                ),
            ],
        ),
        StateModel::Ticker { remaining, persistent } => ValueModel::Obj(
            seq![
                (
                    tag_ticker(),
                    ValueModel::Obj(
                        seq![
                            (field_remaining(), ValueModel::Int(remaining as int)),
                            (field_persistent(), ValueModel::Bool(persistent)),
                        ],
                    ),
                ),
            ],
        ),
        StateModel::Group { tag, children } => ValueModel::Obj(
            seq![
                (
                    tag_group(),
                    ValueModel::Obj(
                        seq![
                            (field_tag(), ValueModel::Str(tag)),
                            (field_children(), ValueModel::Arr(states_values(children, 0))),
                        ],
                    ),
                ),
            ],
        ),
    }
}

/// The payload-value forms of the children from index `k` on.
pub open spec fn states_values(cs: Seq<StateModel>, k: int) -> Seq<ValueModel>
    decreases cs, cs.len() - k, 2int,
{
    if k < 0 || k >= cs.len() {
        Seq::empty()
    } else {
        seq![state_value(cs[k])] + states_values(cs, k + 1)
    }
}

/// Read a unit value back out of its payload-value form.
pub open spec fn state_of_value(v: ValueModel) -> Option<StateModel>
    decreases v, 1int,
{
    match v {
        ValueModel::Obj(es) => if es.len() == 1 && es[0].1 is Obj {
            let key = es[0].0;
            let inner = es[0].1->Obj_0;
            if key == tag_counter() {
                if inner.len() == 1 && inner[0].0 == field_accumulator() && inner[0].1 is Int
                    && i64::MIN <= inner[0].1->Int_0 <= i64::MAX {
                    Some(StateModel::Counter { accumulator: inner[0].1->Int_0 as i64 })
                } else {
                    None
                }
            } else if key == tag_ticker() {
                if inner.len() == 2 && inner[0].0 == field_remaining() && inner[0].1 is Int
                    && i64::MIN <= inner[0].1->Int_0 <= i64::MAX && inner[1].0
                    == field_persistent() && inner[1].1 is Bool {
                    Some(
                        StateModel::Ticker {
                            remaining: inner[0].1->Int_0 as i64,
                            persistent: inner[1].1->Bool_0,
                        },
                    )
                } else {
                    None
                }
            } else if key == tag_group() {
                if inner.len() == 2 && inner[0].0 == field_tag() && inner[0].1 is Str && inner[1].0
                    == field_children() && inner[1].1 is Arr {
                    match states_of_values(inner[1].1->Arr_0, 0) {
                        Some(cs) => Some(
                            StateModel::Group { tag: inner[0].1->Str_0, children: cs },
                        ),
                        None => None,
                    }
                } else {
                    None
                }
            } else {
                None
            }
        } else {
            None
        },
        _ => None,
    }
}

/// Read the children back from index `k` on, requiring every element to be
/// readable.
pub open spec fn states_of_values(vs: Seq<ValueModel>, k: int) -> Option<Seq<StateModel>>
    decreases vs, vs.len() - k, 2int,
{
    if k < 0 || k >= vs.len() {
        Some(Seq::empty())
    } else {
        match state_of_value(vs[k]) {
            Some(m) => match states_of_values(vs, k + 1) {
                Some(ms) => Some(seq![m] + ms),
                None => None,
            },
            None => None,
        }
    }
}

/// Canonical bytes of a unit value.
pub open spec fn enc_state(m: StateModel) -> Seq<u8> {
    enc_value(state_value(m))
}

/// Decode a unit value from bytes.
pub open spec fn dec_state(s: Seq<u8>) -> Option<StateModel> {
    match dec_value(s) {
        Some(v) => state_of_value(v),
        None => None,
    }
}

// ---------------------------------------------------------------------------
// Round trip
// ---------------------------------------------------------------------------

/// The payload-value form of a unit value is well formed and reads back.
pub proof fn lemma_state_value(m: StateModel)
    ensures
        wf_value(state_value(m)),
        state_of_value(state_value(m)) == Some(m),
    decreases m, 1int,
{
    let v = state_value(m);
    let es = v->Obj_0;
    assert(wf_entries(es.drop_first())) by {
        assert(es.drop_first().len() == 0);
    }
    match m {
        StateModel::Counter { accumulator } => {
            let inner = es[0].1->Obj_0;
            assert(wf_value(ValueModel::Int(accumulator as int)));
            assert(wf_entries(inner.drop_first())) by {
                assert(inner.drop_first().len() == 0);
            }
            assert(wf_entries(inner));
            assert(wf_value(es[0].1));
            assert(wf_entries(es));
        },
        StateModel::Ticker { remaining, persistent } => {
            let inner = es[0].1->Obj_0;
            assert(wf_value(ValueModel::Int(remaining as int)));
            assert(wf_value(ValueModel::Bool(persistent)));
            assert(wf_entries(inner.drop_first().drop_first())) by {
                assert(inner.drop_first().drop_first().len() == 0);
            }
            assert(inner.drop_first()[0] == inner[1]);
            assert(wf_entries(inner.drop_first()));
            assert(wf_entries(inner));
            assert(wf_value(es[0].1));
            assert(wf_entries(es));
            assert(tag_ticker() != tag_counter());
        },
        StateModel::Group { tag, children } => {
            let inner = es[0].1->Obj_0;
            assert(wf_value(ValueModel::Str(tag)));
            lemma_states_values(children, 0);
            assert(wf_entries(inner.drop_first().drop_first())) by {
                assert(inner.drop_first().drop_first().len() == 0);
            }
            assert(inner.drop_first()[0] == inner[1]);
            assert(wf_value(ValueModel::Arr(states_values(children, 0))));
            assert(wf_entries(inner.drop_first()));
            assert(wf_entries(inner));
            assert(wf_value(es[0].1));
            assert(wf_entries(es));
            assert(tag_group() != tag_counter());
            assert(tag_group() != tag_ticker());
            assert(children.skip(0) =~= children);
            assert(StateModel::Group { tag, children } == m);
        },
    }
}

/// List form of [`lemma_state_value`]: the encoded children are well formed
/// and read back to the suffix they encode.
pub proof fn lemma_states_values(cs: Seq<StateModel>, k: int)
    requires
        0 <= k <= cs.len(),
    ensures
        wf_items(states_values(cs, k)),
        states_of_values(states_values(cs, k), 0) == Some(cs.skip(k)),
    decreases cs, cs.len() - k, 2int,
{
    if k >= cs.len() {
        assert(cs.skip(k) =~= Seq::<StateModel>::empty());
        assert(states_values(cs, k).len() == 0);
    } else {
        lemma_state_value(cs[k]);
        lemma_states_values(cs, k + 1);
        let vs = states_values(cs, k);
        let tail = states_values(cs, k + 1);
        assert(vs == seq![state_value(cs[k])] + tail);
        assert(vs[0] == state_value(cs[k]));
        assert(vs.drop_first() =~= tail);
        assert(wf_items(vs));
        lemma_states_cons(state_value(cs[k]), tail, 1);
        assert(states_of_values(vs, 1) == states_of_values(tail, 0));
        assert(seq![cs[k]] + cs.skip(k + 1) =~= cs.skip(k));
        assert(states_of_values(vs, 0) == Some(cs.skip(k)));
    }
}

/// Reading past a prepended element is reading the tail one index earlier.
proof fn lemma_states_cons(head: ValueModel, tail: Seq<ValueModel>, k: int)
    requires
        k >= 1,
    ensures
        states_of_values(seq![head] + tail, k) == states_of_values(tail, k - 1),
    decreases tail.len() + 1 - k,
{
    let vs = seq![head] + tail;
    if k >= vs.len() {
        assert(states_of_values(vs, k) == Some(Seq::<StateModel>::empty()));
        assert(states_of_values(tail, k - 1) == Some(Seq::<StateModel>::empty()));
    } else {
        assert(vs[k] == tail[k - 1]);
        lemma_states_cons(head, tail, k + 1);
    }
}

/// Decoding inverts encoding for unit values: every serialized store loads
/// back to the same value, so a second serialization yields identical bytes.
pub proof fn lemma_state_rt(m: StateModel)
    ensures
        dec_state(enc_state(m)) == Some(m),
{
    lemma_state_value(m);
    lemma_dec_enc(state_value(m));
}

// ---------------------------------------------------------------------------
// Executable conversions
// ---------------------------------------------------------------------------

/// Build the one-entry object `{key: inner}`.
fn obj1(key: Vec<u8>, inner: Value) -> (r: Value)
    ensures
        r@ == ValueModel::Obj(seq![(key@, crate::value::value_model(inner))]),
{
    let ghost key_model = key@;
    let ghost inner_model = crate::value::value_model(inner);
    let mut entries: Vec<(Vec<u8>, Value)> = Vec::new();
    entries.push((key, inner));
    proof {
        crate::value::lemma_entries_model(entries@);
        assert(crate::value::entries_model(entries@) =~= seq![(key_model, inner_model)]);
    }
    Value::Obj(entries)
}

/// Build the two-entry object `{k1: v1, k2: v2}`.
fn obj2(k1: Vec<u8>, v1: Value, k2: Vec<u8>, v2: Value) -> (r: Value)
    ensures
        r@ == ValueModel::Obj(
            seq![
                (k1@, crate::value::value_model(v1)),
                (k2@, crate::value::value_model(v2)),
            ],
        ),
{
    let ghost m1 = (k1@, crate::value::value_model(v1));
    let ghost m2 = (k2@, crate::value::value_model(v2));
    let mut entries: Vec<(Vec<u8>, Value)> = Vec::new();
    entries.push((k1, v1));
    entries.push((k2, v2));
    proof {
        crate::value::lemma_entries_model(entries@);
        assert(crate::value::entries_model(entries@) =~= seq![m1, m2]);
    }
    Value::Obj(entries)
}

/// The payload-value form of a unit value, executable.
pub fn state_to_value(s: &State) -> (v: Value)
    ensures
        v@ == state_value(s@),
    decreases state_height(s@),
{
    proof {
        crate::store::lemma_state_view(*s);
    }
    match s {
        State::Counter { accumulator } => {
            let inner = obj1(crate::keys::field_accumulator_vec(), Value::Int(*accumulator));
            obj1(crate::keys::tag_counter_vec(), inner)
        },
        State::Ticker { remaining, persistent } => {
            let inner = obj2(
                crate::keys::field_remaining_vec(),
                Value::Int(*remaining),
                crate::keys::field_persistent_vec(),
                Value::Bool(*persistent),
            );
            obj1(crate::keys::tag_ticker_vec(), inner)
        },
        State::Group { tag, children } => {
            let ghost cm = crate::store::stores_model(children@);
            proof {
                crate::store::lemma_stores_model(children@);
                assert(state_height(s@) == 1 + children_height(cm, 0));
            }
            let mut vals: Vec<Value> = Vec::new();
            let mut i: usize = 0;
            proof {
                crate::value::lemma_items_model(vals@);
                assert(crate::value::items_model(vals@) + states_values(cm, 0) =~= states_values(
                    cm,
                    0,
                ));
            }
            while i < children.len()
                invariant
                    i <= children.len(),
                    cm.len() == children@.len(),
                    cm == crate::store::stores_model(children@),
                    state_height(s@) == 1 + children_height(cm, 0),
                    crate::value::items_model(vals@) + states_values(cm, i as int)
                        == states_values(cm, 0),
                decreases children.len() - i,
            {
                let ghost pre = vals@;
                let child = &children[i];
                let cu = child.unit();
                proof {
                    crate::store::lemma_stores_model(children@);
                    assert(child@ == cm[i as int]);
                    crate::store::lemma_child_height(cm, i as int, 0);
                    assert(state_height(cu@) < state_height(s@));
                }
                let cv = state_to_value(cu);
                vals.push(cv);
                proof {
                    crate::value::lemma_items_model(pre);
                    crate::value::lemma_items_model(vals@);
                    assert(vals@.drop_last() =~= pre);
                    assert(crate::value::items_model(vals@) =~= crate::value::items_model(
                        pre,
                    ).push(state_value(cm[i as int])));
                    assert(crate::value::items_model(vals@) + states_values(cm, i + 1)
                        =~= states_values(cm, 0));
                }
                i = i + 1;
            }
            proof {
                assert(states_values(cm, children@.len() as int).len() == 0);
                assert(crate::value::items_model(vals@) =~= states_values(cm, 0));
            }
            let inner = obj2(
                crate::keys::field_tag_vec(),
                Value::Str(clone_bytes(tag)),
                crate::keys::field_children_vec(),
                Value::Arr(vals),
            );
            obj1(crate::keys::tag_group_vec(), inner)
        },
    }
}

/// Read a unit value out of a payload value, executable.
pub fn value_to_state(v: &Value) -> (r: Option<State>)
    ensures
        match r {
            Some(st) => state_of_value(v@) == Some(st@),
            None => state_of_value(v@) is None,
        },
    decreases v, 1int,
{
    match v {
        Value::Obj(entries) => {
            proof {
                crate::value::lemma_entries_model(entries@);
            }
            if entries.len() != 1 {
                return None;
            }
            let key = &entries[0].0;
            let t_counter = crate::keys::tag_counter_vec();
            let t_ticker = crate::keys::tag_ticker_vec();
            let t_group = crate::keys::tag_group_vec();
            match &entries[0].1 {
                Value::Obj(inner) => {
                    proof {
                        crate::value::lemma_entries_model(inner@);
                    }
                    if bytes_eq(key, &t_counter) {
                        if inner.len() == 1 {
                            let f_acc = crate::keys::field_accumulator_vec();
                            if bytes_eq(&inner[0].0, &f_acc) {
                                match &inner[0].1 {
                                    Value::Int(n) => {
                                        let st = State::Counter { accumulator: *n };
                                        proof {
                                            crate::store::lemma_state_view(st);
                                        }
                                        Some(st)
                                    },
                                    _ => None,
                                }
                            } else {
                                None
                            }
                        } else {
                            None
                        }
                    } else if bytes_eq(key, &t_ticker) {
                        if inner.len() == 2 {
                            let f_rem = crate::keys::field_remaining_vec();
                            let f_per = crate::keys::field_persistent_vec();
                            if bytes_eq(&inner[0].0, &f_rem) && bytes_eq(&inner[1].0, &f_per) {
                                match (&inner[0].1, &inner[1].1) {
                                    (Value::Int(n), Value::Bool(p)) => {
                                        let st = State::Ticker { remaining: *n, persistent: *p };
                                        proof {
                                            crate::store::lemma_state_view(st);
                                        }
                                        Some(st)
                                    },
                                    _ => None,
                                }
                            } else {
                                None
                            }
                        } else {
                            None
                        }
                    } else if bytes_eq(key, &t_group) {
                        if inner.len() == 2 {
                            let f_tag = crate::keys::field_tag_vec();
                            let f_children = crate::keys::field_children_vec();
                            if bytes_eq(&inner[0].0, &f_tag) && bytes_eq(&inner[1].0, &f_children) {
                                match (&inner[0].1, &inner[1].1) {
                                    (Value::Str(tag), Value::Arr(items)) => {
                                        match values_to_states(items, 0) {
                                            Some(children) => {
                                                let st = State::Group {
                                                    tag: clone_bytes(tag),
                                                    children,
                                                };
                                                proof {
                                                    crate::store::lemma_state_view(st);
                                                }
                                                Some(st)
                                            },
                                            None => None,
                                        }
                                    },
                                    _ => None,
                                }
                            } else {
                                None
                            }
                        } else {
                            None
                        }
                    } else {
                        None
                    }
                },
                _ => None,
            }
        },
        _ => None,
    }
}

/// Read child stores back from index `k` on, executable.
fn values_to_states(vs: &Vec<Value>, k: usize) -> (r: Option<Vec<Store>>)
    requires
        k <= vs.len(),
    ensures
        match r {
            Some(ss) => states_of_values(crate::value::items_model(vs@), k as int) == Some(
                crate::store::stores_model(ss@),
            ),
            None => states_of_values(crate::value::items_model(vs@), k as int) is None,
        },
    decreases vs, vs.len() - k, 2int,
{
    proof {
        crate::value::lemma_items_model(vs@);
    }
    let ghost whole = crate::value::items_model(vs@);
    if k == vs.len() {
        let empty_stores: Vec<Store> = Vec::new();
        proof {
            crate::store::lemma_stores_model(empty_stores@);
            assert(crate::store::stores_model(empty_stores@) =~= Seq::<StateModel>::empty());
        }
        return Some(empty_stores);
    }
    proof {
        assert(whole[k as int] == crate::value::value_model(vs@[k as int]));
    }
    match value_to_state(&vs[k]) {
        Some(st) => {
            match values_to_states(vs, k + 1) {
                Some(mut ss) => {
                    let ghost pre_ss = ss@;
                    let ghost rest = crate::store::stores_model(ss@);
                    let store = Store::new(st);
                    let ghost store_model = store@;
                    ss.insert(0, store);
                    proof {
                        crate::store::lemma_stores_model(pre_ss);
                        crate::store::lemma_stores_model(ss@);
                        assert(ss@ =~= seq![store] + pre_ss);
                        assert(crate::store::stores_model(ss@) =~= seq![store_model] + rest);
                    }
                    Some(ss)
                },
                None => None,
            }
        },
        None => None,
    }
}

} // verus!
