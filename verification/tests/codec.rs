//! Wire-codec behaviour: exact framings, byte-for-byte round trips, partial
//! buffers and malformed input.

use respkv::codec::{decode, encode, Decoded};
use respkv::value::Value;

fn bs(s: &str) -> Vec<u8> {
    s.as_bytes().to_vec()
}

fn assert_round_trip(v: Value) {
    let e = encode(&v);
    match decode(&e) {
        Decoded::Val(v2, c) => {
            assert_eq!(v2, v);
            assert_eq!(c, e.len());
        }
        other => panic!("expected a decoded value, got {:?}", other),
    }
}

#[test]
fn encode_simple_string_exact() {
    assert_eq!(encode(&Value::SimpleString(bs("PONG"))), b"+PONG\r\n".to_vec());
}

#[test]
fn encode_error_exact() {
    assert_eq!(encode(&Value::Error(bs("ERR boom"))), b"-ERR boom\r\n".to_vec());
}

#[test]
fn encode_integer_exact() {
    assert_eq!(encode(&Value::Integer(-42)), b":-42\r\n".to_vec());
    assert_eq!(encode(&Value::Integer(0)), b":0\r\n".to_vec());
}

#[test]
fn encode_bulk_string_exact() {
    assert_eq!(encode(&Value::BulkString(bs("hi"))), b"$2\r\nhi\r\n".to_vec());
    assert_eq!(encode(&Value::BulkString(Vec::new())), b"$0\r\n\r\n".to_vec());
}

#[test]
fn encode_nulls_exact() {
    assert_eq!(encode(&Value::NullBulkString), b"$-1\r\n".to_vec());
    assert_eq!(encode(&Value::NullArray), b"*-1\r\n".to_vec());
}

#[test]
fn encode_array_exact() {
    let v = Value::Array(vec![Value::Integer(1), Value::BulkString(bs("a"))]);
    assert_eq!(encode(&v), b"*2\r\n:1\r\n$1\r\na\r\n".to_vec());
}

#[test]
fn round_trip_every_variant() {
    assert_round_trip(Value::SimpleString(bs("OK")));
    assert_round_trip(Value::Error(bs("ERR x")));
    assert_round_trip(Value::Integer(12345));
    assert_round_trip(Value::Integer(i64::MIN));
    assert_round_trip(Value::Integer(i64::MAX));
    assert_round_trip(Value::BulkString(vec![0u8, 255u8, 13u8, 10u8]));
    assert_round_trip(Value::NullBulkString);
    assert_round_trip(Value::NullArray);
    assert_round_trip(Value::Array(vec![]));
    assert_round_trip(Value::Array(vec![
        Value::SimpleString(bs("a")),
        Value::Array(vec![Value::Integer(-7), Value::NullBulkString]),
        Value::BulkString(bs("payload")),
    ]));
}

#[test]
fn decode_needs_more_on_partial_input() {
    assert_eq!(decode(&Vec::new()), Decoded::More);
    assert_eq!(decode(&b"+PON".to_vec()), Decoded::More);
    assert_eq!(decode(&b"$10\r\nabc".to_vec()), Decoded::More);
    assert_eq!(decode(&b"*2\r\n:1\r\n".to_vec()), Decoded::More);
    assert_eq!(decode(&b"$99999999999999999999\r\nX".to_vec()), Decoded::More);
}

#[test]
fn decode_fails_on_unknown_tag() {
    assert_eq!(decode(&b"@foo\r\n".to_vec()), Decoded::Fail);
}

#[test]
fn decode_fails_on_bad_bulk_terminator() {
    assert_eq!(decode(&b"$3\r\nabcXY".to_vec()), Decoded::Fail);
}

#[test]
fn decode_fails_on_negative_lengths_other_than_null() {
    assert_eq!(decode(&b"$-2\r\n".to_vec()), Decoded::Fail);
    assert_eq!(decode(&b"*-3\r\n".to_vec()), Decoded::Fail);
}

#[test]
fn decode_fails_on_stray_line_feed() {
    assert_eq!(decode(&b"+ab\ncd\r\n".to_vec()), Decoded::Fail);
}

#[test]
fn decode_fails_on_integer_overflow_text() {
    assert_eq!(decode(&b":9223372036854775808\r\n".to_vec()), Decoded::Fail);
    assert_eq!(decode(&b":12x\r\n".to_vec()), Decoded::Fail);
}

#[test]
fn decode_consumes_one_value_and_leaves_the_rest() {
    match decode(&b"+OK\r\n:1\r\n".to_vec()) {
        Decoded::Val(v, c) => {
            assert_eq!(v, Value::SimpleString(bs("OK")));
            assert_eq!(c, 5);
        }
        other => panic!("expected a decoded value, got {:?}", other),
    }
}

#[test]
fn decode_array_of_commands() {
    match decode(&b"*3\r\n$3\r\nSET\r\n$1\r\na\r\n$1\r\n1\r\n".to_vec()) {
        Decoded::Val(v, c) => {
            assert_eq!(c, 27);
            assert_eq!(
                v,
                Value::Array(vec![
                    Value::BulkString(bs("SET")),
                    Value::BulkString(bs("a")),
                    Value::BulkString(bs("1")),
                ])
            );
        }
        other => panic!("expected a decoded value, got {:?}", other),
    }
}

#[test]
fn decode_accepts_minus_zero_integer() {
    match decode(&b":-0\r\n".to_vec()) {
        Decoded::Val(v, _) => assert_eq!(v, Value::Integer(0)),
        other => panic!("expected a decoded value, got {:?}", other),
    }
}
