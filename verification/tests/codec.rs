//! Tests of the canonical payload codec and the message encodings.

use workflow::protocol::{
    decode_request, decode_response, encode_request, encode_response, Operation, Request, Response,
    Snapshot,
};
use workflow::store::Store;
use workflow::value::{decode_value, encode_value, Value};

#[test]
fn integers_encode_canonically() {
    assert_eq!(encode_value(&Value::Int(0)), b"0".to_vec());
    assert_eq!(encode_value(&Value::Int(-42)), b"-42".to_vec());
    assert_eq!(
        encode_value(&Value::Int(i64::MIN)),
        b"-9223372036854775808".to_vec()
    );
    assert_eq!(
        encode_value(&Value::Int(i64::MAX)),
        b"9223372036854775807".to_vec()
    );
}

#[test]
fn integers_decode_back() {
    for n in [0i64, 7, -7, 1000, i64::MIN, i64::MAX] {
        let bytes = encode_value(&Value::Int(n));
        match decode_value(&bytes) {
            Some(Value::Int(m)) => assert_eq!(m, n),
            _ => panic!("integer did not decode back"),
        }
    }
}

#[test]
fn non_canonical_integers_are_rejected() {
    assert!(decode_value(&b"007".to_vec()).is_none());
    assert!(decode_value(&b"-0".to_vec()).is_none());
    assert!(decode_value(&b"9223372036854775808".to_vec()).is_none());
}

#[test]
fn strings_escape_quotes_and_backslashes() {
    let v = Value::Str(b"a\"b\\c".to_vec());
    let bytes = encode_value(&v);
    assert_eq!(bytes, b"\"a\\\"b\\\\c\"".to_vec());
    match decode_value(&bytes) {
        Some(Value::Str(s)) => assert_eq!(s, b"a\"b\\c".to_vec()),
        _ => panic!("string did not decode back"),
    }
}

#[test]
fn booleans_and_lists_round_trip() {
    let v = Value::Arr(vec![Value::Bool(true), Value::Bool(false), Value::Int(3)]);
    let bytes = encode_value(&v);
    assert_eq!(bytes, b"[true,false,3]".to_vec());
    match decode_value(&bytes) {
        Some(Value::Arr(items)) => assert_eq!(items.len(), 3),
        _ => panic!("list did not decode back"),
    }
}

#[test]
fn objects_round_trip() {
    let v = Value::Obj(vec![
        (b"k".to_vec(), Value::Int(1)),
        (b"l".to_vec(), Value::Str(b"v".to_vec())),
    ]);
    let bytes = encode_value(&v);
    assert_eq!(bytes, b"{\"k\":1,\"l\":\"v\"}".to_vec());
    match decode_value(&bytes) {
        Some(Value::Obj(entries)) => {
            assert_eq!(entries.len(), 2);
            assert_eq!(entries[0].0, b"k".to_vec());
        },
        _ => panic!("object did not decode back"),
    }
}

#[test]
fn trailing_bytes_are_rejected() {
    assert!(decode_value(&b"1 ".to_vec()).is_none());
    assert!(decode_value(&b"[]x".to_vec()).is_none());
}

#[test]
fn request_envelope_round_trips() {
    let req = Request::Event {
        state: b"{\"Counter\":{\"accumulator\":1}}".to_vec(),
        event: b"{\"Add\":2}".to_vec(),
    };
    let bytes = encode_request(&req);
    match decode_request(&bytes) {
        Some(Request::Event { state, event }) => {
            assert_eq!(state, b"{\"Counter\":{\"accumulator\":1}}".to_vec());
            assert_eq!(event, b"{\"Add\":2}".to_vec());
        },
        _ => panic!("request did not decode back"),
    }
}

#[test]
fn initialization_envelope_has_the_documented_shape() {
    let req = Request::Initialization {
        parameter: b"{}".to_vec(),
    };
    assert_eq!(
        encode_request(&req),
        b"{\"Initialization\":{\"parameter\":\"{}\"}}".to_vec()
    );
}

#[test]
fn response_envelope_round_trips() {
    let resp = Response::Snapshot(Snapshot {
        operations: vec![
            Operation::Info(b"hello".to_vec()),
            Operation::Event(b"{\"x\":1}".to_vec()),
            Operation::Error(b"bad".to_vec()),
        ],
        state: b"{\"Counter\":{\"accumulator\":0}}".to_vec(),
    });
    let bytes = encode_response(&resp);
    match decode_response(&bytes) {
        Some(Response::Snapshot(snap)) => {
            assert_eq!(snap.operations.len(), 3);
            match &snap.operations[1] {
                Operation::Event(p) => assert_eq!(p, &b"{\"x\":1}".to_vec()),
                _ => panic!("operation order was not kept"),
            }
        },
        _ => panic!("response did not decode back"),
    }
}

#[test]
fn error_response_has_the_documented_shape() {
    assert_eq!(
        encode_response(&Response::Error(b"x".to_vec())),
        b"{\"Error\":\"x\"}".to_vec()
    );
}

#[test]
fn store_serialization_round_trips_to_identical_bytes() {
    // serialize -> deserialize -> serialize yields identical bytes
    let bytes = b"{\"Group\":{\"tag\":\"t\",\"children\":[\
                  {\"Counter\":{\"accumulator\":-5}},\
                  {\"Ticker\":{\"remaining\":2,\"persistent\":true}}]}}"
        .to_vec();
    let store = Store::deserialize(&bytes).expect("state should decode");
    let first = store.serialize();
    assert_eq!(first, bytes);
    let again = Store::deserialize(&first).expect("reserialized state should decode");
    assert_eq!(again.serialize(), first);
}
