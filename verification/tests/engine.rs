//! End-to-end tests of the executor: scenarios over the counter, ticker and
//! group units, convergence behaviour, and the error taxonomy.

use workflow::executor::{
    execute, execute_event, execute_event_with_limit, execute_initialization, serialized_execute,
};
use workflow::protocol::{Operation, Request, Response, Snapshot};
use workflow::store::{BaseStore, EventStatus, StateStatus, Store};

fn init(parameter: &str) -> Snapshot {
    execute_initialization(parameter.as_bytes().to_vec()).expect("initialization should succeed")
}

fn send(state: Vec<u8>, event: &str) -> Snapshot {
    execute_event(state, event.as_bytes().to_vec()).expect("event should succeed")
}

#[test]
fn counter_accumulates_over_a_sequence() {
    // initialization with {"initial":0}, then Add(1), Add(1), Add(2),
    // Multiply(3), each against the previously returned state
    let snap = init("{\"initial\":0}");
    assert_eq!(snap.state, b"{\"Counter\":{\"accumulator\":0}}".to_vec());
    assert!(snap.operations.is_empty());

    let snap = send(snap.state, "{\"Add\":1}");
    let snap = send(snap.state, "{\"Add\":1}");
    let snap = send(snap.state, "{\"Add\":2}");
    let snap = send(snap.state, "{\"Multiply\":3}");
    assert_eq!(snap.state, b"{\"Counter\":{\"accumulator\":12}}".to_vec());
}

#[test]
fn counter_subtracts() {
    let snap = init("{\"initial\":10}");
    let snap = send(snap.state, "{\"Subtract\":4}");
    assert_eq!(snap.state, b"{\"Counter\":{\"accumulator\":6}}".to_vec());
}

#[test]
fn counter_addition_wraps() {
    let snap = init("{\"initial\":9223372036854775807}");
    let snap = send(snap.state, "{\"Add\":1}");
    assert_eq!(
        snap.state,
        b"{\"Counter\":{\"accumulator\":-9223372036854775808}}".to_vec()
    );
}

#[test]
fn event_consumed_by_first_child_only() {
    // a root composite with two declared child stores; the consuming child
    // emits a marker carrying its own tag, so the consumer is identifiable
    let state = "{\"Group\":{\"tag\":\"root\",\"children\":[\
                 {\"Group\":{\"tag\":\"a\",\"children\":[]}},\
                 {\"Group\":{\"tag\":\"b\",\"children\":[]}}]}}";
    let snap = send(state.as_bytes().to_vec(), "{\"Emit\":\"x\"}");
    assert_eq!(snap.operations.len(), 1);
    match &snap.operations[0] {
        Operation::Info(m) => assert_eq!(m, &b"a:x".to_vec()),
        other => panic!("expected an Info marker, got {:?}", other_kind(other)),
    }
    // the parent's own value and the second child are untouched
    assert_eq!(snap.state, state.as_bytes().to_vec());
}

fn other_kind(op: &Operation) -> &'static str {
    match op {
        Operation::Event(_) => "Event",
        Operation::Info(_) => "Info",
        Operation::Error(_) => "Error",
    }
}

#[test]
fn unconsumed_event_is_dropped_not_an_error() {
    // consumed by no child, undecodable at the root: Dropped, state
    // unchanged, no operations
    let state = "{\"Group\":{\"tag\":\"root\",\"children\":[\
                 {\"Counter\":{\"accumulator\":3}}]}}";
    let snap = send(state.as_bytes().to_vec(), "{\"Emit\":7}");
    assert!(snap.operations.is_empty());
    assert_eq!(snap.state, state.as_bytes().to_vec());
}

#[test]
fn child_counter_consumes_through_the_composite() {
    let state = "{\"Group\":{\"tag\":\"root\",\"children\":[\
                 {\"Counter\":{\"accumulator\":3}}]}}";
    let snap = send(state.as_bytes().to_vec(), "{\"Add\":4}");
    assert_eq!(
        snap.state,
        b"{\"Group\":{\"tag\":\"root\",\"children\":[{\"Counter\":{\"accumulator\":7}}]}}"
            .to_vec()
    );
}

#[test]
fn countdown_converges_with_one_tick_per_pass() {
    // a unit that keeps reporting Changed for exactly 3 passes converges in
    // 4 update calls and logs one tick per changing pass
    let state = "{\"Ticker\":{\"remaining\":9,\"persistent\":false}}";
    let snap = send(state.as_bytes().to_vec(), "{\"Wind\":3}");
    assert_eq!(snap.operations.len(), 3);
    for op in &snap.operations {
        match op {
            Operation::Info(m) => assert_eq!(m, &b"tick".to_vec()),
            _ => panic!("expected only tick markers"),
        }
    }
    assert_eq!(
        snap.state,
        b"{\"Ticker\":{\"remaining\":0,\"persistent\":false}}".to_vec()
    );
}

#[test]
fn countdown_needs_exactly_one_more_pass_than_changes() {
    let state = b"{\"Ticker\":{\"remaining\":9,\"persistent\":false}}".to_vec();
    let event = b"{\"Wind\":3}".to_vec();
    let ok = execute_event_with_limit(state.clone(), event.clone(), 4);
    assert!(ok.is_ok());
    let exhausted = execute_event_with_limit(state, event, 3);
    assert_eq!(exhausted.unwrap_err(), b"update_limit_exceeded".to_vec());
}

#[test]
fn persistent_ticker_exhausts_a_ceiling_of_one() {
    // iteration ceiling 1 with a unit whose update always reports Changed:
    // a convergence error and no snapshot
    let state = b"{\"Ticker\":{\"remaining\":0,\"persistent\":true}}".to_vec();
    let event = b"{\"Wind\":5}".to_vec();
    let r = execute_event_with_limit(state, event, 1);
    assert_eq!(r.unwrap_err(), b"update_limit_exceeded".to_vec());
}

#[test]
fn persistent_ticker_exhausts_the_default_ceiling() {
    let state = b"{\"Ticker\":{\"remaining\":0,\"persistent\":true}}".to_vec();
    let event = b"{\"Wind\":5}".to_vec();
    let r = execute_event(state, event);
    assert_eq!(r.unwrap_err(), b"update_limit_exceeded".to_vec());
}

#[test]
fn update_at_fixpoint_reports_same_and_logs_nothing() {
    let state = b"{\"Ticker\":{\"remaining\":0,\"persistent\":false}}".to_vec();
    let mut store = Store::deserialize(&state).expect("state should decode");
    let (status, actions) = store.update();
    assert!(status == StateStatus::Same);
    assert!(actions.build().expect("build should succeed").is_empty());
}

#[test]
fn processing_offers_children_before_self() {
    let state = b"{\"Group\":{\"tag\":\"g\",\"children\":[{\"Group\":{\"tag\":\"inner\",\"children\":[]}}]}}"
        .to_vec();
    let mut store = Store::deserialize(&state).expect("state should decode");
    let (status, actions) = store.process(&b"{\"Emit\":\"m\"}".to_vec());
    assert!(status == EventStatus::Consumed);
    let ops = actions.build().expect("build should succeed");
    assert_eq!(ops.len(), 1);
    match &ops[0] {
        Operation::Info(m) => assert_eq!(m, &b"inner:m".to_vec()),
        _ => panic!("expected the inner marker"),
    }
}

#[test]
fn malformed_parameter_is_rejected() {
    let r = execute_initialization(b"{\"initial\":true}".to_vec());
    assert_eq!(r.unwrap_err(), b"parameter_decode_error".to_vec());
}

#[test]
fn malformed_state_is_rejected() {
    let r = execute_event(b"nonsense".to_vec(), b"{\"Add\":1}".to_vec());
    assert_eq!(r.unwrap_err(), b"state_decode_error".to_vec());
}

#[test]
fn malformed_envelope_yields_an_error_response() {
    let out = execute(&b"not a request".to_vec());
    assert_eq!(out, b"{\"Error\":\"request_decode_error\"}".to_vec());
}

#[test]
fn whole_request_round_trip_through_raw_bytes() {
    let input = b"{\"Initialization\":{\"parameter\":\"{\\\"initial\\\":5}\"}}".to_vec();
    let out = execute(&input);
    assert_eq!(
        out,
        b"{\"Snapshot\":{\"operations\":[],\"state\":\"{\\\"Counter\\\":{\\\"accumulator\\\":5}}\"}}"
            .to_vec()
    );
}

#[test]
fn serialized_execute_dispatches_both_arms() {
    let snap = serialized_execute(Request::Initialization {
        parameter: b"{\"initial\":1}".to_vec(),
    })
    .expect("initialization should succeed");
    let snap = serialized_execute(Request::Event {
        state: snap.state,
        event: b"{\"Add\":1}".to_vec(),
    })
    .expect("event should succeed");
    assert_eq!(snap.state, b"{\"Counter\":{\"accumulator\":2}}".to_vec());
}

#[test]
fn response_error_variant_exists_for_failed_requests() {
    match Response::Error(b"boom".to_vec()) {
        Response::Error(m) => assert_eq!(m, b"boom".to_vec()),
        Response::Snapshot(_) => unreachable!(),
    }
}
