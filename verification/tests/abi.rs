//! Tests of the sandbox-memory ABI: the allocator, the transport adapter,
//! and the host driver protocol.

use workflow::actions::Actions;
use workflow::host::{form_key, has_wasm_extension, HandlerResponse, Program};
use workflow::memory::{GuestInterface, SandboxMemory};
use workflow::protocol::{Request, Response};

#[test]
fn allocator_hands_out_disjoint_regions() {
    let mut sandbox = SandboxMemory::new(16);
    let a = sandbox.allocate(8).expect("allocation should succeed");
    let b = sandbox.allocate(8).expect("allocation should succeed");
    assert_eq!(a, 0);
    assert_eq!(b, 8);
    sandbox.deallocate(a, 8);
    sandbox.deallocate(b, 8);
}

#[test]
fn memory_reads_back_what_was_written() {
    let mut sandbox = SandboxMemory::new(0);
    let p = sandbox.allocate(5).expect("allocation should succeed");
    sandbox.write(p, &b"hello".to_vec());
    assert_eq!(sandbox.read(p, 5), b"hello".to_vec());
}

#[test]
fn apply_publishes_the_response_through_the_out_slots() {
    let mut sandbox = SandboxMemory::new(0);
    let input = b"{\"Initialization\":{\"parameter\":\"{\\\"initial\\\":3}\"}}".to_vec();
    let in_ptr = sandbox.allocate(input.len()).expect("allocation should succeed");
    sandbox.write(in_ptr, &input);
    let scratch = sandbox.allocate(8).expect("allocation should succeed");
    let ok = sandbox.apply(in_ptr, input.len(), scratch, scratch + 4);
    assert!(ok);
    let out_ptr = sandbox.read_word(scratch) as usize;
    let out_len = sandbox.read_word(scratch + 4) as usize;
    let out = sandbox.read(out_ptr, out_len);
    let expected = b"{\"Snapshot\":{\"operations\":[],\"state\":\"{\\\"Counter\\\":{\\\"accumulator\\\":3}}\"}}"
        .to_vec();
    assert_eq!(out, expected);
    sandbox.deallocate(scratch, 8);
    sandbox.deallocate(out_ptr, out_len);
}

#[test]
fn driver_runs_a_whole_exchange() {
    let mut program = Program::new(SandboxMemory::new(0));
    let resp = program
        .execute_request(&Request::Initialization {
            parameter: b"{\"initial\":7}".to_vec(),
        })
        .expect("the exchange should succeed");
    let state = match resp {
        Response::Snapshot(snap) => {
            assert!(snap.operations.is_empty());
            assert_eq!(snap.state, b"{\"Counter\":{\"accumulator\":7}}".to_vec());
            snap.state
        },
        Response::Error(_) => panic!("expected a snapshot"),
    };
    let resp = program
        .execute_request(&Request::Event {
            state,
            event: b"{\"Multiply\":6}".to_vec(),
        })
        .expect("the exchange should succeed");
    match resp {
        Response::Snapshot(snap) => {
            assert_eq!(snap.state, b"{\"Counter\":{\"accumulator\":42}}".to_vec());
        },
        Response::Error(_) => panic!("expected a snapshot"),
    }
}

#[test]
fn driver_surfaces_executor_errors_as_error_responses() {
    let mut program = Program::new(SandboxMemory::new(0));
    let resp = program
        .execute_request(&Request::Event {
            state: b"{\"Ticker\":{\"remaining\":0,\"persistent\":true}}".to_vec(),
            event: b"{\"Wind\":1}".to_vec(),
        })
        .expect("the exchange itself should succeed");
    match resp {
        Response::Error(m) => assert_eq!(m, b"update_limit_exceeded".to_vec()),
        Response::Snapshot(_) => panic!("a never-settling unit must not produce a snapshot"),
    }
}

#[test]
fn form_key_joins_module_and_process() {
    assert_eq!(
        form_key(&b"calc.wasm".to_vec(), &b"123".to_vec()),
        b"calc.wasm::123".to_vec()
    );
}

#[test]
fn wasm_extension_is_detected() {
    assert!(has_wasm_extension(&b"calc.wasm".to_vec()));
    assert!(!has_wasm_extension(&b"calc.txt".to_vec()));
    assert!(!has_wasm_extension(&b"wasm".to_vec()));
    assert!(!has_wasm_extension(&b".wasm".to_vec()));
    assert!(has_wasm_extension(&b"a.wasm".to_vec()));
}

#[test]
fn handler_response_wraps_failures_with_a_status() {
    match HandlerResponse::from_result(Ok::<u32, Vec<u8>>(5)) {
        HandlerResponse::Value(v) => assert_eq!(v, 5),
        HandlerResponse::Error { .. } => panic!("expected a value"),
    }
    match HandlerResponse::from_result(Err::<u32, Vec<u8>>(b"no".to_vec())) {
        HandlerResponse::Error { status_code, error } => {
            assert_eq!(status_code, 500);
            assert_eq!(error, b"no".to_vec());
        },
        HandlerResponse::Value(_) => panic!("expected an error"),
    }
}

#[test]
fn actions_merge_keeps_both_orders() {
    let a = Actions::new().info(b"one".to_vec()).info(b"two".to_vec());
    let b = Actions::new().info(b"three".to_vec());
    let merged = a.merge(b);
    let ops = merged.build().expect("build should succeed");
    let texts: Vec<Vec<u8>> = ops
        .into_iter()
        .map(|op| match op {
            workflow::protocol::Operation::Info(m) => m,
            _ => panic!("expected info entries"),
        })
        .collect();
    assert_eq!(texts, vec![b"one".to_vec(), b"two".to_vec(), b"three".to_vec()]);
}

struct Ping;

impl workflow::actions::OutgoingEvent for Ping {
    fn get_raw(&self) -> Result<Vec<u8>, Vec<u8>> {
        Ok(b"\"ping\"".to_vec())
    }
}

struct Broken;

impl workflow::actions::OutgoingEvent for Broken {
    fn get_raw(&self) -> Result<Vec<u8>, Vec<u8>> {
        Err(b"cannot encode".to_vec())
    }
}

#[test]
fn outgoing_events_surface_their_payload() {
    let ops = Actions::new().event(Ping).build().expect("build should succeed");
    assert_eq!(ops.len(), 1);
    match &ops[0] {
        workflow::protocol::Operation::Event(p) => assert_eq!(p, &b"\"ping\"".to_vec()),
        _ => panic!("expected an event entry"),
    }
}

#[test]
fn failed_event_encoding_fails_the_build() {
    let r = Actions::new().info(b"fine".to_vec()).event(Broken).build();
    assert_eq!(r.unwrap_err(), b"cannot encode".to_vec());
}
