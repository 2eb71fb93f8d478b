//! Dispatcher behaviour: arity and type errors, the counter, lookups, the
//! info section, resync replies, and the configuration constructor.

use respkv::command::{dispatch, extract_command, server_meta_from_config, unpack_bulk_str, Role, ServerMeta};
use respkv::store::{IncrError, Store};
use respkv::value::Value;

fn bs(s: &str) -> Vec<u8> {
    s.as_bytes().to_vec()
}

fn master_meta() -> ServerMeta {
    server_meta_from_config(Role::Master, bs("0123456789abcdef0123"), &bs("ab01"))
        .expect("valid configuration")
}

fn contains(hay: &[u8], needle: &[u8]) -> bool {
    hay.windows(needle.len()).any(|w| w == needle)
}

#[test]
fn set_arity_errors() {
    let meta = master_meta();
    let mut store = Store::new();
    for args in [
        vec![],
        vec![Value::BulkString(bs("k"))],
        vec![
            Value::BulkString(bs("k")),
            Value::BulkString(bs("v")),
            Value::BulkString(bs("w")),
        ],
    ] {
        let d = dispatch(&bs("SET"), args, &mut store, &meta);
        assert_eq!(d.reply, Value::Error(bs("ERR wrong number of arguments")));
        assert!(!d.propagate);
    }
}

#[test]
fn get_arity_errors() {
    let meta = master_meta();
    let mut store = Store::new();
    for args in [
        vec![],
        vec![Value::BulkString(bs("a")), Value::BulkString(bs("b"))],
    ] {
        let d = dispatch(&bs("GET"), args, &mut store, &meta);
        assert_eq!(d.reply, Value::Error(bs("ERR wrong number of arguments")));
    }
}

#[test]
fn incr_on_absent_key_starts_at_one() {
    let meta = master_meta();
    let mut store = Store::new();
    let d = dispatch(
        &bs("INCR"),
        vec![Value::BulkString(bs("ctr"))],
        &mut store,
        &meta,
    );
    assert_eq!(d.reply, Value::Integer(1));
    assert!(d.propagate);
    assert_eq!(store.get(&bs("ctr")), Some(bs("1")));
}

#[test]
fn incr_on_non_integer_is_a_type_error_and_keeps_the_value() {
    let meta = master_meta();
    let mut store = Store::new();
    dispatch(
        &bs("SET"),
        vec![Value::BulkString(bs("k")), Value::BulkString(bs("abc"))],
        &mut store,
        &meta,
    );
    let d = dispatch(&bs("INCR"), vec![Value::BulkString(bs("k"))], &mut store, &meta);
    assert_eq!(
        d.reply,
        Value::Error(bs("ERR value is not an integer or out of range"))
    );
    assert!(!d.propagate);
    assert_eq!(store.get(&bs("k")), Some(bs("abc")));
}

#[test]
fn serialized_increments_never_lose_an_update() {
    let meta = master_meta();
    let mut store = Store::new();
    let mut last = Value::NullBulkString;
    for _ in 0..10 {
        last = dispatch(&bs("INCR"), vec![Value::BulkString(bs("n"))], &mut store, &meta).reply;
    }
    assert_eq!(last, Value::Integer(10));
    assert_eq!(store.get(&bs("n")), Some(bs("10")));
}

#[test]
fn set_then_get_returns_the_value() {
    let meta = master_meta();
    let mut store = Store::new();
    let d = dispatch(
        &bs("SET"),
        vec![Value::BulkString(bs("k")), Value::BulkString(bs("v"))],
        &mut store,
        &meta,
    );
    assert_eq!(d.reply, Value::SimpleString(bs("OK")));
    assert!(d.propagate);
    let d2 = dispatch(&bs("get"), vec![Value::BulkString(bs("k"))], &mut store, &meta);
    assert_eq!(d2.reply, Value::BulkString(bs("v")));
}

#[test]
fn get_on_never_set_key_is_null_not_error() {
    let meta = master_meta();
    let mut store = Store::new();
    let d = dispatch(&bs("GET"), vec![Value::BulkString(bs("nope"))], &mut store, &meta);
    assert_eq!(d.reply, Value::NullBulkString);
}

#[test]
fn info_replication_names_the_master_role_and_replid() {
    let meta = master_meta();
    let mut store = Store::new();
    let d = dispatch(
        &bs("INFO"),
        vec![Value::BulkString(bs("replication"))],
        &mut store,
        &meta,
    );
    match d.reply {
        Value::BulkString(body) => {
            assert!(contains(&body, b"role:master"));
            assert!(contains(&body, b"master_replid:0123456789abcdef0123"));
            assert!(contains(&body, b"master_repl_offset:0"));
        }
        other => panic!("expected a bulk string, got {:?}", other),
    }
    assert!(!d.propagate);
}

#[test]
fn info_unknown_section_is_a_placeholder_bulk() {
    let meta = master_meta();
    let mut store = Store::new();
    let d = dispatch(
        &bs("INFO"),
        vec![Value::BulkString(bs("keyspace"))],
        &mut store,
        &meta,
    );
    assert_eq!(d.reply, Value::BulkString(bs("Variant Not Found")));
}

#[test]
fn ping_and_replconf_and_echo() {
    let meta = master_meta();
    let mut store = Store::new();
    assert_eq!(
        dispatch(&bs("PING"), vec![], &mut store, &meta).reply,
        Value::SimpleString(bs("PONG"))
    );
    assert_eq!(
        dispatch(&bs("REPLCONF"), vec![Value::BulkString(bs("capa"))], &mut store, &meta).reply,
        Value::SimpleString(bs("OK"))
    );
    assert_eq!(
        dispatch(&bs("ECHO"), vec![Value::Integer(7)], &mut store, &meta).reply,
        Value::Integer(7)
    );
    assert_eq!(
        dispatch(&bs("ECHO"), vec![], &mut store, &meta).reply,
        Value::Error(bs("ERR wrong number of arguments"))
    );
}

#[test]
fn unknown_command_is_an_error_reply_not_a_crash() {
    let meta = master_meta();
    let mut store = Store::new();
    let d = dispatch(&bs("FLUSHALL"), vec![], &mut store, &meta);
    assert_eq!(d.reply, Value::Error(bs("ERR unknown command")));
}

#[test]
fn command_names_are_case_insensitive() {
    let meta = master_meta();
    let mut store = Store::new();
    dispatch(
        &bs("SeT"),
        vec![Value::BulkString(bs("k")), Value::BulkString(bs("v"))],
        &mut store,
        &meta,
    );
    let d = dispatch(&bs("GET"), vec![Value::BulkString(bs("k"))], &mut store, &meta);
    assert_eq!(d.reply, Value::BulkString(bs("v")));
}

#[test]
fn non_bulk_argument_is_a_type_error() {
    let meta = master_meta();
    let mut store = Store::new();
    let d = dispatch(&bs("INCR"), vec![Value::Integer(3)], &mut store, &meta);
    assert_eq!(d.reply, Value::Error(bs("ERR argument is not a bulk string")));
}

#[test]
fn incr_overflow_is_an_error_and_keeps_the_value() {
    let meta = master_meta();
    let mut store = Store::new();
    dispatch(
        &bs("SET"),
        vec![
            Value::BulkString(bs("c")),
            Value::BulkString(bs("9223372036854775807")),
        ],
        &mut store,
        &meta,
    );
    let d = dispatch(&bs("INCR"), vec![Value::BulkString(bs("c"))], &mut store, &meta);
    assert_eq!(
        d.reply,
        Value::Error(bs("ERR value is not an integer or out of range"))
    );
    assert_eq!(store.get(&bs("c")), Some(bs("9223372036854775807")));
}

#[test]
fn incr_steps_a_negative_counter() {
    let meta = master_meta();
    let mut store = Store::new();
    dispatch(
        &bs("SET"),
        vec![Value::BulkString(bs("c")), Value::BulkString(bs("-5"))],
        &mut store,
        &meta,
    );
    let d = dispatch(&bs("INCR"), vec![Value::BulkString(bs("c"))], &mut store, &meta);
    assert_eq!(d.reply, Value::Integer(-4));
    assert_eq!(store.get(&bs("c")), Some(bs("-4")));
}

#[test]
fn psync_replies_resync_line_and_snapshot_and_marks_the_sink() {
    let meta = master_meta();
    let mut store = Store::new();
    let d = dispatch(
        &bs("PSYNC"),
        vec![Value::BulkString(bs("?")), Value::BulkString(bs("-1"))],
        &mut store,
        &meta,
    );
    assert!(d.become_sink);
    assert!(!d.propagate);
    assert_eq!(
        d.reply,
        Value::Array(vec![
            Value::SimpleString(bs("FULL RESYNC 0123456789abcdef0123 0")),
            Value::BulkString(vec![0xab, 0x01]),
        ])
    );
}

#[test]
fn store_set_returns_the_previous_value() {
    let mut store = Store::new();
    assert_eq!(store.set(bs("k"), bs("v1")), None);
    assert_eq!(store.set(bs("k"), bs("v2")), Some(bs("v1")));
    assert_eq!(store.get(&bs("k")), Some(bs("v2")));
}

#[test]
fn store_increment_errors_distinguish_type_from_overflow() {
    let mut store = Store::new();
    store.set(bs("a"), bs("abc"));
    assert_eq!(store.increment(bs("a")), Err(IncrError::NotAnInteger));
    store.set(bs("b"), bs("9223372036854775807"));
    assert_eq!(store.increment(bs("b")), Err(IncrError::Overflow));
    assert_eq!(store.get(&bs("b")), Some(bs("9223372036854775807")));
}

#[test]
fn config_rejects_bad_replid_or_bad_hex() {
    assert!(server_meta_from_config(Role::Master, bs("ok"), &bs("ab0")).is_none());
    assert!(server_meta_from_config(Role::Master, bs("ok"), &bs("zz")).is_none());
    assert!(server_meta_from_config(Role::Master, bs("bad\rid"), &bs("ab01")).is_none());
    let m = server_meta_from_config(Role::Replica, bs("id"), &bs("00ff10")).unwrap();
    assert_eq!(m.snapshot, vec![0x00, 0xff, 0x10]);
    assert_eq!(m.repl_offset, 0);
}

#[test]
fn info_on_replica_names_the_slave_role() {
    let meta = server_meta_from_config(Role::Replica, bs("id"), &bs("ab01")).unwrap();
    let mut store = Store::new();
    let d = dispatch(
        &bs("INFO"),
        vec![Value::BulkString(bs("replication"))],
        &mut store,
        &meta,
    );
    match d.reply {
        Value::BulkString(body) => assert!(contains(&body, b"role:slave")),
        other => panic!("expected a bulk string, got {:?}", other),
    }
}

#[test]
fn extract_command_accepts_both_command_shapes() {
    let lone = Value::BulkString(bs("ping"));
    let (name, args) = extract_command(lone).expect("a lone bulk string is a command");
    assert_eq!(name, bs("ping"));
    assert!(args.is_empty());

    let array = Value::Array(vec![
        Value::BulkString(bs("SET")),
        Value::BulkString(bs("k")),
        Value::BulkString(bs("v")),
    ]);
    let (name, args) = extract_command(array).expect("a command array");
    assert_eq!(name, bs("SET"));
    assert_eq!(args.len(), 2);

    assert!(extract_command(Value::Integer(3)).is_none());
    assert!(extract_command(Value::Array(vec![])).is_none());
    assert!(extract_command(Value::Array(vec![Value::Integer(1)])).is_none());
    assert!(extract_command(Value::NullArray).is_none());
}

#[test]
fn unpack_bulk_str_unwraps_only_bulk_strings() {
    assert_eq!(unpack_bulk_str(Value::BulkString(bs("x"))), Some(bs("x")));
    assert_eq!(unpack_bulk_str(Value::SimpleString(bs("x"))), None);
    assert_eq!(unpack_bulk_str(Value::NullBulkString), None);
}
