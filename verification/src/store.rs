//! The composite state tree: units, stores, event routing, and updates.
//!
//! A [`Store`] exclusively owns one [`State`] unit value; a `Group` unit owns
//! an ordered list of child stores, so stores form a tree.  Processing offers
//! the raw event to the children first, in declared order, and the first
//! child that consumes it wins — with no fallthrough to later children or to
//! the unit itself.  Updating runs every child first, then the unit, and
//! reports a change exactly when some value changed.
//!
//! The unit capability is a closed tagged-variant enumeration: the composite
//! machinery is uniform over the variants, each variant supplies its own
//! entry, event decoding and transitions, and a tree of any shape is built
//! by nesting `Group` units.

use vstd::prelude::*;

use crate::actions::{ActionModel, Actions};
use crate::keys::{msg_tick, tag_add, tag_emit, tag_multiply, tag_subtract, tag_wind};
use crate::protocol::{bytes_eq, clone_bytes};
use crate::value::{dec_value, Value, ValueModel};

verus! {

/// What a unit said about an offered event.
#[derive(PartialEq, Eq, Structural, Clone, Copy, Debug)]
pub enum EventStatus {
    Consumed,
    Dropped,
}

/// Whether an update pass changed any value.
#[derive(PartialEq, Eq, Structural, Clone, Copy, Debug)]
pub enum StateStatus {
    Changed,
    Same,
}

/// A state unit: an accumulator over arithmetic events, a countdown that
/// settles (or never settles) under updates, or a composite that owns an
/// ordered list of child stores.
pub enum State {
    Counter { accumulator: i64 },
    Ticker { remaining: i64, persistent: bool },
    Group { tag: Vec<u8>, children: Vec<Store> },
}

/// A store exclusively owns one unit value.
pub struct Store {
    state: Box<State>,
}

/// Model of a [`State`] unit value, children included.
pub enum StateModel {
    Counter { accumulator: i64 },
    Ticker { remaining: i64, persistent: bool },
    Group { tag: Seq<u8>, children: Seq<StateModel> },
}

/// The model of a unit value.
pub closed spec fn state_model(s: State) -> StateModel
    decreases s,
{
    match s {
        State::Counter { accumulator } => StateModel::Counter { accumulator },
        State::Ticker { remaining, persistent } => StateModel::Ticker { remaining, persistent },
        State::Group { tag, children } => StateModel::Group {
            tag: tag@,
            children: stores_model(children@),
        },
    }
}

/// The models of a list of stores, in order.
pub closed spec fn stores_model(ss: Seq<Store>) -> Seq<StateModel>
    decreases ss,
{
    if ss.len() == 0 {
        Seq::empty()
    } else {
        stores_model(ss.drop_last()).push(state_model(*ss.last().state))
    }
}

impl View for State {
    type V = StateModel;

    closed spec fn view(&self) -> StateModel {
        state_model(*self)
    }
}

impl View for Store {
    type V = StateModel;

    closed spec fn view(&self) -> StateModel {
        state_model(*self.state)
    }
}

/// How the model of a unit value is built from its parts.
pub proof fn lemma_state_view(s: State)
    ensures
        (s matches State::Counter { accumulator } ==> s@ == StateModel::Counter { accumulator }),
        (s matches State::Ticker { remaining, persistent } ==> s@ == StateModel::Ticker {
            remaining,
            persistent,
        }),
        (s matches State::Group { tag, children } ==> s@ == StateModel::Group {
            tag: tag@,
            children: stores_model(children@),
        }),
{
}

/// Index facts about [`stores_model`].
pub proof fn lemma_stores_model(ss: Seq<Store>)
    ensures
        stores_model(ss).len() == ss.len(),
        forall|i: int| 0 <= i < ss.len() ==> stores_model(ss)[i] == ss[i]@,
    decreases ss,
{
    if ss.len() > 0 {
        lemma_stores_model(ss.drop_last());
        assert(ss.last()@ == state_model(*ss.last().state));
    }
}

// ---------------------------------------------------------------------------
// Unit events
// ---------------------------------------------------------------------------

/// An event a counter unit consumes.
pub enum CounterEvent {
    Add(i64),
    Subtract(i64),
    Multiply(i64),
}

/// Read a counter event out of a payload value: a one-entry object tagged
/// `Add`, `Subtract` or `Multiply` holding an integer.
pub open spec fn counter_event_of_value(v: ValueModel) -> Option<CounterEvent> {
    match v {
        ValueModel::Obj(es) => if es.len() == 1 && es[0].1 is Int {
            let n = es[0].1->Int_0;
            if i64::MIN <= n <= i64::MAX {
                if es[0].0 == tag_add() {
                    Some(CounterEvent::Add(n as i64))
                } else if es[0].0 == tag_subtract() {
                    Some(CounterEvent::Subtract(n as i64))
                } else if es[0].0 == tag_multiply() {
                    Some(CounterEvent::Multiply(n as i64))
                } else {
                    None
                }
            } else {
                None
            }
        } else {
            None
        },
        _ => None,
    }
}

/// Decode a counter event from payload bytes.
pub open spec fn dec_counter_event(s: Seq<u8>) -> Option<CounterEvent> {
    match dec_value(s) {
        Some(v) => counter_event_of_value(v),
        None => None,
    }
}

/// Read a ticker event out of a payload value: `{Wind: n}` sets the
/// remaining count.
pub open spec fn ticker_event_of_value(v: ValueModel) -> Option<i64> {
    match v {
        ValueModel::Obj(es) => if es.len() == 1 && es[0].1 is Int && es[0].0 == tag_wind() {
            let n = es[0].1->Int_0;
            if i64::MIN <= n <= i64::MAX {
                Some(n as i64)
            } else {
                None
            }
        } else {
            None
        },
        _ => None,
    }
}

/// Decode a ticker event from payload bytes.
pub open spec fn dec_ticker_event(s: Seq<u8>) -> Option<i64> {
    match dec_value(s) {
        Some(v) => ticker_event_of_value(v),
        None => None,
    }
}

/// Read a group event out of a payload value: `{Emit: message}` emits an
/// informational marker.
pub open spec fn group_event_of_value(v: ValueModel) -> Option<Seq<u8>> {
    match v {
        ValueModel::Obj(es) => if es.len() == 1 && es[0].1 is Str && es[0].0 == tag_emit() {
            Some(es[0].1->Str_0)
        } else {
            None
        },
        _ => None,
    }
}

/// Decode a group event from payload bytes.
pub open spec fn dec_group_event(s: Seq<u8>) -> Option<Seq<u8>> {
    match dec_value(s) {
        Some(v) => group_event_of_value(v),
        None => None,
    }
}

/// Decode a counter event, executable.
pub fn decode_counter_event(s: &Vec<u8>) -> (r: Option<CounterEvent>)
    ensures
        match r {
            Some(e) => dec_counter_event(s@) == Some(e),
            None => dec_counter_event(s@) is None,
        },
{
    match crate::value::decode_value(s) {
        Some(v) => match &v {
            Value::Obj(entries) => {
                proof {
                    crate::value::lemma_entries_model(entries@);
                }
                if entries.len() != 1 {
                    return None;
                }
                let key = &entries[0].0;
                match &entries[0].1 {
                    Value::Int(n) => {
                        let t_add = crate::keys::tag_add_vec();
                        let t_sub = crate::keys::tag_subtract_vec();
                        let t_mul = crate::keys::tag_multiply_vec();
                        if bytes_eq(key, &t_add) {
                            Some(CounterEvent::Add(*n))
                        } else if bytes_eq(key, &t_sub) {
                            Some(CounterEvent::Subtract(*n))
                        } else if bytes_eq(key, &t_mul) {
                            Some(CounterEvent::Multiply(*n))
                        } else {
                            None
                        }
                    },
                    _ => None,
                }
            },
            _ => None,
        },
        None => None,
    }
}

/// Decode a ticker event, executable.
pub fn decode_ticker_event(s: &Vec<u8>) -> (r: Option<i64>)
    ensures
        match r {
            Some(n) => dec_ticker_event(s@) == Some(n),
            None => dec_ticker_event(s@) is None,
        },
{
    match crate::value::decode_value(s) {
        Some(v) => match &v {
            Value::Obj(entries) => {
                proof {
                    crate::value::lemma_entries_model(entries@);
                }
                if entries.len() != 1 {
                    return None;
                }
                let key = &entries[0].0;
                match &entries[0].1 {
                    Value::Int(n) => {
                        let t_wind = crate::keys::tag_wind_vec();
                        if bytes_eq(key, &t_wind) {
                            Some(*n)
                        } else {
                            None
                        }
                    },
                    _ => None,
                }
            },
            _ => None,
        },
        None => None,
    }
}

/// Decode a group event, executable.
pub fn decode_group_event(s: &Vec<u8>) -> (r: Option<Vec<u8>>)
    ensures
        match r {
            Some(m) => dec_group_event(s@) == Some(m@),
            None => dec_group_event(s@) is None,
        },
{
    match crate::value::decode_value(s) {
        Some(v) => match &v {
            Value::Obj(entries) => {
                proof {
                    crate::value::lemma_entries_model(entries@);
                }
                if entries.len() != 1 {
                    return None;
                }
                let key = &entries[0].0;
                match &entries[0].1 {
                    Value::Str(m) => {
                        let t_emit = crate::keys::tag_emit_vec();
                        if bytes_eq(key, &t_emit) {
                            Some(clone_bytes(m))
                        } else {
                            None
                        }
                    },
                    _ => None,
                }
            },
            _ => None,
        },
        None => None,
    }
}

// ---------------------------------------------------------------------------
// Transition specifications
// ---------------------------------------------------------------------------

/// What a counter event does to the accumulator (wrapping arithmetic).
pub open spec fn spec_counter_apply(acc: i64, e: CounterEvent) -> i64 {
    match e {
        CounterEvent::Add(n) => vstd::wrapping::i64_specs::wrapping_add(acc, n),
        CounterEvent::Subtract(n) => vstd::wrapping::i64_specs::wrapping_sub(acc, n),
        CounterEvent::Multiply(n) => vstd::wrapping::i64_specs::wrapping_mul(acc, n),
    }
}

/// The marker a group emits for a consumed `Emit` event: its tag, a colon,
/// and the message.
pub open spec fn spec_emit_marker(tag: Seq<u8>, msg: Seq<u8>) -> Seq<u8> {
    tag + seq![58u8] + msg
}

/// One processing pass of a store holding unit value `s`: children first, in
/// order, first consumer wins; otherwise the unit's own event; otherwise the
/// event is dropped with nothing changed and nothing logged.
pub open spec fn spec_process(s: StateModel, ev: Seq<u8>) -> (StateModel, EventStatus, Seq<
    ActionModel,
>)
    decreases s, 0int,
{
    match s {
        StateModel::Counter { accumulator } => match dec_counter_event(ev) {
            Some(e) => (
                StateModel::Counter { accumulator: spec_counter_apply(accumulator, e) },
                EventStatus::Consumed,
                Seq::empty(),
            ),
            None => (s, EventStatus::Dropped, Seq::empty()),
        },
        StateModel::Ticker { remaining, persistent } => match dec_ticker_event(ev) {
            Some(n) => (
                StateModel::Ticker { remaining: n, persistent },
                EventStatus::Consumed,
                Seq::empty(),
            ),
            None => (s, EventStatus::Dropped, Seq::empty()),
        },
        StateModel::Group { tag, children } => match scan_from(children, ev, 0) {
            Some((i, c, a)) => (
                StateModel::Group { tag, children: children.update(i, c) },
                EventStatus::Consumed,
                a,
            ),
            None => match dec_group_event(ev) {
                Some(msg) => (
                    s,
                    EventStatus::Consumed,
                    seq![ActionModel::Info(spec_emit_marker(tag, msg))],
                ),
                None => (s, EventStatus::Dropped, Seq::empty()),
            },
        },
    }
}

/// Scan the children from index `k` for the first one that consumes the
/// event; returns its index, its new value, and its actions.
pub open spec fn scan_from(children: Seq<StateModel>, ev: Seq<u8>, k: int) -> Option<
    (int, StateModel, Seq<ActionModel>),
>
    decreases children, children.len() - k,
{
    if k < 0 || k >= children.len() {
        None
    } else {
        let (c, st, a) = spec_process(children[k], ev);
        if st == EventStatus::Consumed {
            Some((k, c, a))
        } else {
            scan_from(children, ev, k + 1)
        }
    }
}

/// One update pass of a store holding unit value `s`: every child first, in
/// order, then the unit itself; the flag says whether any value changed, and
/// the actions merge in visiting order.
pub open spec fn spec_update(s: StateModel) -> (StateModel, bool, Seq<ActionModel>)
    decreases s, 0int,
{
    match s {
        StateModel::Counter { accumulator } => (s, false, Seq::empty()),
        StateModel::Ticker { remaining, persistent } => if persistent {
            (
                StateModel::Ticker {
                    remaining: vstd::wrapping::i64_specs::wrapping_add(remaining, 1),
                    persistent,
                },
                true,
                seq![ActionModel::Info(msg_tick())],
            )
        } else if remaining > 0 {
            (
                StateModel::Ticker { remaining: (remaining - 1) as i64, persistent },
                true,
                seq![ActionModel::Info(msg_tick())],
            )
        } else {
            (s, false, Seq::empty())
        },
        StateModel::Group { tag, children } => {
            let (cs, ch, a) = upd_from(children, 0);
            (StateModel::Group { tag, children: cs }, ch, a)
        },
    }
}

/// Update every child from index `k` on, merging flags and actions in order.
pub open spec fn upd_from(children: Seq<StateModel>, k: int) -> (Seq<StateModel>, bool, Seq<
    ActionModel,
>)
    decreases children, children.len() - k,
{
    if k < 0 || k >= children.len() {
        (Seq::empty(), false, Seq::empty())
    } else {
        let (c, ch, a) = spec_update(children[k]);
        let (rest, chr, ar) = upd_from(children, k + 1);
        (seq![c] + rest, ch || chr, a + ar)
    }
}

// ---------------------------------------------------------------------------
// Routing and convergence laws
// ---------------------------------------------------------------------------

/// A dropped event leaves the unit value untouched and logs nothing, at
/// every level of the tree.
pub proof fn lemma_dropped_unchanged(s: StateModel, ev: Seq<u8>)
    ensures
        spec_process(s, ev).1 == EventStatus::Dropped ==> spec_process(s, ev) == (
            s,
            EventStatus::Dropped,
            Seq::<ActionModel>::empty(),
        ),
{
}

/// Scanning finds exactly the first consuming child.
pub proof fn lemma_scan_finds_first(children: Seq<StateModel>, ev: Seq<u8>, i: int, k: int)
    requires
        0 <= k <= i < children.len(),
        spec_process(children[i], ev).1 == EventStatus::Consumed,
        forall|j: int| k <= j < i ==> #[trigger] spec_process(children[j], ev).1
            == EventStatus::Dropped,
    ensures
        scan_from(children, ev, k) == Some(
            (i, spec_process(children[i], ev).0, spec_process(children[i], ev).2),
        ),
    decreases i - k,
{
    if k < i {
        assert(spec_process(children[k], ev).1 == EventStatus::Dropped);
        lemma_scan_finds_first(children, ev, i, k + 1);
    }
}

/// If no child consumes the event, scanning finds nothing.
pub proof fn lemma_scan_none(children: Seq<StateModel>, ev: Seq<u8>, k: int)
    requires
        forall|j: int| 0 <= j < children.len() ==> #[trigger] spec_process(children[j], ev).1
            == EventStatus::Dropped,
        k >= 0,
    ensures
        scan_from(children, ev, k) is None,
    decreases children.len() - k,
{
    if k < children.len() {
        assert(spec_process(children[k], ev).1 == EventStatus::Dropped);
        lemma_scan_none(children, ev, k + 1);
    }
}

/// An event consumed by a child never mutates the composite's own value and
/// returns exactly that child's status and actions: siblings before the
/// consumer stay untouched, siblings after it are never offered the event,
/// and the unit itself never sees it.
pub proof fn lemma_child_consumes(tag: Seq<u8>, children: Seq<StateModel>, ev: Seq<u8>, i: int)
    requires
        0 <= i < children.len(),
        spec_process(children[i], ev).1 == EventStatus::Consumed,
        forall|j: int| 0 <= j < i ==> #[trigger] spec_process(children[j], ev).1
            == EventStatus::Dropped,
    ensures
        spec_process(StateModel::Group { tag, children }, ev) == (
            StateModel::Group { tag, children: children.update(i, spec_process(children[i], ev).0) },
            EventStatus::Consumed,
            spec_process(children[i], ev).2,
        ),
{
    lemma_scan_finds_first(children, ev, i, 0);
}

/// An event consumed by no child and undecodable as the unit's own event is
/// dropped: unchanged value, empty log.
pub proof fn lemma_unconsumed_event(tag: Seq<u8>, children: Seq<StateModel>, ev: Seq<u8>)
    requires
        forall|j: int| 0 <= j < children.len() ==> #[trigger] spec_process(children[j], ev).1
            == EventStatus::Dropped,
        dec_group_event(ev) is None,
    ensures
        spec_process(StateModel::Group { tag, children }, ev) == (
            StateModel::Group { tag, children },
            EventStatus::Dropped,
            Seq::<ActionModel>::empty(),
        ),
{
    lemma_scan_none(children, ev, 0);
}

/// Updating an already-converged value reports no change and an empty log:
/// idempotence at the fixpoint.
pub proof fn lemma_update_at_fixpoint(s: StateModel)
    requires
        spec_update(s).0 == s,
    ensures
        spec_update(s) == (s, false, Seq::<ActionModel>::empty()),
    decreases s, 0int,
{
    match s {
        StateModel::Counter { accumulator } => {
            assert(spec_update(s).2 =~= Seq::<ActionModel>::empty());
        },
        StateModel::Ticker { remaining, persistent } => {
            if persistent {
                assert(vstd::wrapping::i64_specs::wrapping_add(remaining, 1) != remaining);
            } else if remaining > 0 {
                assert((remaining - 1) as i64 != remaining);
            } else {
                assert(spec_update(s).2 =~= Seq::<ActionModel>::empty());
            }
        },
        StateModel::Group { tag, children } => {
            assert(upd_from(children, 0).0 == children);
            assert(children.skip(0) =~= children);
            lemma_upd_from_fixpoint(children, 0);
            assert(spec_update(s).2 =~= Seq::<ActionModel>::empty());
        },
    }
}

/// Suffix form of [`lemma_update_at_fixpoint`].
proof fn lemma_upd_from_fixpoint(children: Seq<StateModel>, k: int)
    requires
        0 <= k,
        upd_from(children, k).0 == children.skip(k),
    ensures
        upd_from(children, k).1 == false,
        upd_from(children, k).2 == Seq::<ActionModel>::empty(),
    decreases children, children.len() - k,
{
    if k >= children.len() {
    } else {
        let (c, ch, a) = spec_update(children[k]);
        let (rest, chr, ar) = upd_from(children, k + 1);
        assert(upd_from(children, k).0 == seq![c] + rest);
        assert((seq![c] + rest)[0] == c);
        assert(children.skip(k)[0] == children[k]);
        assert(c == children[k]);
        lemma_update_at_fixpoint(children[k]);
        assert(rest =~= (seq![c] + rest).drop_first());
        assert(children.skip(k).drop_first() =~= children.skip(k + 1));
        assert(rest == children.skip(k + 1));
        lemma_upd_from_fixpoint(children, k + 1);
        assert(a + ar =~= Seq::<ActionModel>::empty());
    }
}

// ---------------------------------------------------------------------------
// Executable processing and updating
// ---------------------------------------------------------------------------

/// Height of a unit-value model: leaves are 1, a composite is one more than
/// its tallest child.
pub open spec fn state_height(m: StateModel) -> nat
    decreases m, 0int,
{
    match m {
        StateModel::Group { tag, children } => 1 + children_height(children, 0),
        _ => 1,
    }
}

/// Height of the tallest child from index `k` on.
pub open spec fn children_height(cs: Seq<StateModel>, k: int) -> nat
    decreases cs, cs.len() - k,
{
    if k < 0 || k >= cs.len() {
        0
    } else {
        let a = state_height(cs[k]);
        let b = children_height(cs, k + 1);
        if a >= b {
            a
        } else {
            b
        }
    }
}

/// Every child is lower than the composite that holds it.
pub proof fn lemma_child_height(cs: Seq<StateModel>, i: int, k: int)
    requires
        0 <= k <= i < cs.len(),
    ensures
        state_height(cs[i]) <= children_height(cs, k),
    decreases i - k,
{
    if k < i {
        lemma_child_height(cs, i, k + 1);
    }
}

/// One processing pass over a unit value, per [`spec_process`].
fn process_state(s: State, event: &Vec<u8>) -> (r: (State, EventStatus, Actions))
    ensures
        r.0@ == spec_process(s@, event@).0,
        r.1 == spec_process(s@, event@).1,
        r.2@ == spec_process(s@, event@).2,
    decreases state_height(s@),
{
    let ghost sm = s@;
    match s {
        State::Counter { accumulator } => match decode_counter_event(event) {
            Some(e) => {
                let acc2 = match e {
                    CounterEvent::Add(n) => accumulator.wrapping_add(n),
                    CounterEvent::Subtract(n) => accumulator.wrapping_sub(n),
                    CounterEvent::Multiply(n) => accumulator.wrapping_mul(n),
                };
                (State::Counter { accumulator: acc2 }, EventStatus::Consumed, Actions::new())
            },
            None => (State::Counter { accumulator }, EventStatus::Dropped, Actions::new()),
        },
        State::Ticker { remaining, persistent } => match decode_ticker_event(event) {
            Some(n) => (
                State::Ticker { remaining: n, persistent },
                EventStatus::Consumed,
                Actions::new(),
            ),
            None => (State::Ticker { remaining, persistent }, EventStatus::Dropped, Actions::new()),
        },
        State::Group { tag, children } => {
            let mut children = children;
            let ghost orig = stores_model(children@);
            proof {
                lemma_stores_model(children@);
                assert(sm == StateModel::Group { tag: tag@, children: orig });
            }
            let mut i: usize = 0;
            while i < children.len()
                invariant
                    i <= children.len(),
                    orig.len() == children@.len(),
                    stores_model(children@) == orig,
                    sm == (StateModel::Group { tag: tag@, children: orig }),
                    sm == s@,
                    state_height(sm) == 1 + children_height(orig, 0),
                    forall|j: int| 0 <= j < i ==> #[trigger] spec_process(orig[j], event@).1
                        == EventStatus::Dropped,
                decreases children.len() - i,
            {
                let ghost pre_children = children@;
                let child = children.remove(i);
                let child_state = child.state;
                let ghost child_model = orig[i as int];
                proof {
                    lemma_stores_model(pre_children);
                    assert(pre_children[i as int]@ == child_model);
                    assert((*child_state)@ == child_model);
                    lemma_child_height(orig, i as int, 0);
                    assert(state_height((*child_state)@) < state_height(s@));
                }
                let (new_state, status, actions) = process_state(*child_state, event);
                children.insert(i, Store { state: Box::new(new_state) });
                proof {
                    lemma_stores_model(children@);
                    assert(children@ =~= pre_children.update(
                        i as int,
                        children@[i as int],
                    ));
                    assert(stores_model(children@) =~= orig.update(
                        i as int,
                        spec_process(child_model, event@).0,
                    ));
                }
                if status == EventStatus::Consumed {
                    proof {
                        lemma_scan_finds_first(orig, event@, i as int, 0);
                    }
                    return (State::Group { tag, children }, EventStatus::Consumed, actions);
                }
                proof {
                    lemma_dropped_unchanged(child_model, event@);
                    assert(spec_process(child_model, event@).0 == child_model);
                    assert(stores_model(children@) =~= orig);
                }
                i = i + 1;
            }
            proof {
                lemma_scan_none(orig, event@, 0);
            }
            match decode_group_event(event) {
                Some(msg) => {
                    let ghost msg_model = msg@;
                    let mut marker = clone_bytes(&tag);
                    marker.push(58);
                    let mut msg_tail = msg;
                    marker.append(&mut msg_tail);
                    proof {
                        assert(marker@ =~= spec_emit_marker(tag@, msg_model));
                    }
                    let actions = Actions::new().info(marker);
                    proof {
                        assert(actions@ =~= seq![
                            ActionModel::Info(spec_emit_marker(tag@, msg_model)),
                        ]);
                    }
                    (State::Group { tag, children }, EventStatus::Consumed, actions)
                },
                None => (State::Group { tag, children }, EventStatus::Dropped, Actions::new()),
            }
        },
    }
}

/// One update pass over a unit value, per [`spec_update`].
fn update_state(s: State) -> (r: (State, bool, Actions))
    ensures
        r.0@ == spec_update(s@).0,
        r.1 == spec_update(s@).1,
        r.2@ == spec_update(s@).2,
    decreases state_height(s@),
{
    let ghost sm = s@;
    match s {
        State::Counter { accumulator } => (
            State::Counter { accumulator },
            false,
            Actions::new(),
        ),
        State::Ticker { remaining, persistent } => {
            if persistent {
                let actions = Actions::new().info(crate::keys::msg_tick_vec());
                proof {
                    assert(actions@ =~= seq![ActionModel::Info(msg_tick())]);
                }
                (
                    State::Ticker { remaining: remaining.wrapping_add(1), persistent },
                    true,
                    actions,
                )
            } else if remaining > 0 {
                let actions = Actions::new().info(crate::keys::msg_tick_vec());
                proof {
                    assert(actions@ =~= seq![ActionModel::Info(msg_tick())]);
                }
                (State::Ticker { remaining: remaining - 1, persistent }, true, actions)
            } else {
                (State::Ticker { remaining, persistent }, false, Actions::new())
            }
        },
        State::Group { tag, children } => {
            let mut children = children;
            let ghost orig = stores_model(children@);
            proof {
                lemma_stores_model(children@);
                assert(sm == StateModel::Group { tag: tag@, children: orig });
                assert(stores_model(children@).skip(0) =~= orig.skip(0));
                assert(stores_model(children@).take(0) + upd_from(orig, 0).0 =~= upd_from(
                    orig,
                    0,
                ).0);
            }
            let mut changed = false;
            let mut actions = Actions::new();
            let mut i: usize = 0;
            proof {
                assert(actions@ + upd_from(orig, 0).2 =~= upd_from(orig, 0).2);
            }
            while i < children.len()
                invariant
                    i <= children.len(),
                    orig.len() == children@.len(),
                    sm == (StateModel::Group { tag: tag@, children: orig }),
                    sm == s@,
                    state_height(sm) == 1 + children_height(orig, 0),
                    stores_model(children@).skip(i as int) == orig.skip(i as int),
                    upd_from(orig, 0).0 =~= stores_model(children@).take(i as int) + upd_from(
                        orig,
                        i as int,
                    ).0,
                    upd_from(orig, 0).1 == (changed || upd_from(orig, i as int).1),
                    upd_from(orig, 0).2 == actions@ + upd_from(orig, i as int).2,
                decreases children.len() - i,
            {
                let ghost pre_children = children@;
                let child = children.remove(i);
                let child_state = child.state;
                let ghost child_model = orig[i as int];
                proof {
                    lemma_stores_model(pre_children);
                    assert(stores_model(pre_children).skip(i as int)[0] == stores_model(
                        pre_children,
                    )[i as int]);
                    assert(pre_children[i as int]@ == child_model);
                    assert((*child_state)@ == child_model);
                    lemma_child_height(orig, i as int, 0);
                    assert(state_height((*child_state)@) < state_height(s@));
                }
                let (new_state, ch, a) = update_state(*child_state, );
                children.insert(i, Store { state: Box::new(new_state) });
                changed = changed || ch;
                let ghost a_model = a@;
                actions = actions.merge(a);
                proof {
                    lemma_stores_model(children@);
                    assert(children@ =~= pre_children.update(i as int, children@[i as int]));
                    assert(stores_model(children@) =~= stores_model(pre_children).update(
                        i as int,
                        spec_update(child_model).0,
                    ));
                    assert(stores_model(pre_children).skip(i as int).drop_first() =~= stores_model(
                        pre_children,
                    ).skip(i + 1));
                    assert(orig.skip(i as int).drop_first() =~= orig.skip(i + 1));
                    assert(stores_model(pre_children).skip(i + 1) =~= orig.skip(i + 1));
                    assert(stores_model(children@).skip(i + 1) =~= orig.skip(i + 1));
                    assert(stores_model(children@).take(i + 1) =~= stores_model(
                        children@,
                    ).take(i as int).push(spec_update(child_model).0));
                    assert(stores_model(children@).take(i as int) =~= stores_model(
                        pre_children,
                    ).take(i as int));
                    assert(upd_from(orig, 0).0 =~= stores_model(children@).take(i + 1) + upd_from(
                        orig,
                        i + 1,
                    ).0);
                    assert(upd_from(orig, 0).2 =~= actions@ + upd_from(orig, i + 1).2);
                }
                i = i + 1;
            }
            proof {
                lemma_stores_model(children@);
                assert(stores_model(children@).take(children@.len() as int) =~= stores_model(
                    children@,
                ));
                assert(upd_from(orig, children@.len() as int).0.len() == 0);
                assert(upd_from(orig, 0).0 =~= stores_model(children@));
                assert(actions@ + upd_from(orig, children@.len() as int).2 =~= actions@);
            }
            (State::Group { tag, children }, changed, actions)
        },
    }
}

/// The uniform recursive interface of a store: offer an event, or run one
/// update pass.
pub trait BaseStore {
    /// The model of the held unit value.
    spec fn model(&self) -> StateModel;

    /// Offer a raw event, children first; per [`spec_process`].
    fn process(&mut self, event: &Vec<u8>) -> (r: (EventStatus, Actions))
        ensures
            final(self).model() == spec_process(old(self).model(), event@).0,
            r.0 == spec_process(old(self).model(), event@).1,
            r.1@ == spec_process(old(self).model(), event@).2,
    ;

    /// Run one update pass, children first; per [`spec_update`].
    fn update(&mut self) -> (r: (StateStatus, Actions))
        ensures
            final(self).model() == spec_update(old(self).model()).0,
            r.0 == StateStatus::Changed <==> spec_update(old(self).model()).1,
            r.1@ == spec_update(old(self).model()).2,
    ;
}

impl Store {
    /// Wrap a unit value in a fresh store.
    pub fn new(state: State) -> (r: Store)
        ensures
            r@ == state@,
    {
        Store { state: Box::new(state) }
    }

    /// Borrow the held unit value.
    pub fn unit(&self) -> (r: &State)
        ensures
            r@ == self@,
    {
        &self.state
    }

    /// Serialize this store: exactly the canonical bytes of the unit value
    /// it wraps, children included.
    pub fn serialize(&self) -> (r: Vec<u8>)
        ensures
            r@ == crate::persist::enc_state(self@),
    {
        let v = crate::persist::state_to_value(self.unit());
        crate::value::encode_value(&v)
    }

    /// Rebuild a store, its child tree included, from serialized bytes.
    pub fn deserialize(s: &Vec<u8>) -> (r: Option<Store>)
        ensures
            match r {
                Some(st) => crate::persist::dec_state(s@) == Some(st@),
                None => crate::persist::dec_state(s@) is None,
            },
    {
        match crate::value::decode_value(s) {
            Some(v) => match crate::persist::value_to_state(&v) {
                Some(st) => Some(Store::new(st)),
                None => None,
            },
            None => None,
        }
    }
}

impl BaseStore for Store {
    open spec fn model(&self) -> StateModel {
        self@
    }

    fn process(&mut self, event: &Vec<u8>) -> (r: (EventStatus, Actions)) {
        let mut tmp: Box<State> = Box::new(State::Counter { accumulator: 0 });
        core::mem::swap(&mut self.state, &mut tmp);
        let (new_state, status, actions) = process_state(*tmp, event);
        self.state = Box::new(new_state);
        (status, actions)
    }

    fn update(&mut self) -> (r: (StateStatus, Actions)) {
        let mut tmp: Box<State> = Box::new(State::Counter { accumulator: 0 });
        core::mem::swap(&mut self.state, &mut tmp);
        let (new_state, changed, actions) = update_state(*tmp);
        self.state = Box::new(new_state);
        let status = if changed {
            StateStatus::Changed
        } else {
            StateStatus::Same
        };
        (status, actions)
    }
}

} // verus!
