//! Replica handshake, master-side fan-out, and the session step that ties
//! decode, dispatch and encode together, including end-to-end propagation.

use respkv::command::{server_meta_from_config, Role, ServerMeta};
use respkv::replication::{
    handshake_step, FanOut, HandshakeEvent, HandshakeState, SINK_CAPACITY,
};
use respkv::session::{session_step, SessionStep};
use respkv::store::Store;
use respkv::value::Value;

fn bs(s: &str) -> Vec<u8> {
    s.as_bytes().to_vec()
}

fn meta(role: Role) -> ServerMeta {
    server_meta_from_config(role, bs("0123456789abcdef0123"), &bs("ab01")).unwrap()
}

#[test]
fn handshake_happy_path_reaches_streaming() {
    let port = 6380u64;
    let s1 = handshake_step(HandshakeState::Disconnected, HandshakeEvent::Connected, port);
    assert_eq!(s1.next, HandshakeState::SentPing);
    assert_eq!(s1.send, Some(b"$4\r\nping\r\n".to_vec()));

    let s2 = handshake_step(s1.next, HandshakeEvent::Reply, port);
    assert_eq!(s2.next, HandshakeState::SentListeningPort);
    assert_eq!(
        s2.send,
        Some(b"*3\r\n$8\r\nREPLCONF\r\n$14\r\nlistening-port\r\n$4\r\n6380\r\n".to_vec())
    );

    let s3 = handshake_step(s2.next, HandshakeEvent::Reply, port);
    assert_eq!(s3.next, HandshakeState::SentCapabilities);
    assert_eq!(
        s3.send,
        Some(b"*3\r\n$8\r\nREPLCONF\r\n$4\r\ncapa\r\n$6\r\npsync2\r\n".to_vec())
    );

    let s4 = handshake_step(s3.next, HandshakeEvent::Reply, port);
    assert_eq!(s4.next, HandshakeState::SentPsync);
    assert_eq!(s4.send, Some(b"*3\r\n$5\r\nPSYNC\r\n$1\r\n?\r\n$2\r\n-1\r\n".to_vec()));

    let s5 = handshake_step(s4.next, HandshakeEvent::Reply, port);
    assert_eq!(s5.next, HandshakeState::Streaming);
    assert_eq!(s5.send, None);
}

#[test]
fn handshake_split_resync_goes_through_awaiting_state() {
    let s1 = handshake_step(HandshakeState::SentPsync, HandshakeEvent::ResyncAnnounced, 1);
    assert_eq!(s1.next, HandshakeState::AwaitingFullResync);
    assert_eq!(s1.send, None);
    let s2 = handshake_step(s1.next, HandshakeEvent::Reply, 1);
    assert_eq!(s2.next, HandshakeState::Streaming);
}

#[test]
fn handshake_failure_at_the_final_step_ends_failed_never_streaming() {
    let s = handshake_step(HandshakeState::SentPsync, HandshakeEvent::Failure, 1);
    assert_eq!(s.next, HandshakeState::Failed);
    assert_eq!(s.send, None);
}

#[test]
fn handshake_failure_is_terminal_from_every_state() {
    for st in [
        HandshakeState::Disconnected,
        HandshakeState::SentPing,
        HandshakeState::SentListeningPort,
        HandshakeState::SentCapabilities,
        HandshakeState::SentPsync,
        HandshakeState::AwaitingFullResync,
        HandshakeState::Streaming,
        HandshakeState::Failed,
    ] {
        assert_eq!(
            handshake_step(st, HandshakeEvent::Failure, 1).next,
            HandshakeState::Failed
        );
    }
    assert_eq!(
        handshake_step(HandshakeState::Failed, HandshakeEvent::Reply, 1).next,
        HandshakeState::Failed
    );
}

#[test]
fn handshake_unexpected_event_fails() {
    let s = handshake_step(HandshakeState::SentPing, HandshakeEvent::Connected, 1);
    assert_eq!(s.next, HandshakeState::Failed);
}

#[test]
fn fan_out_delivers_every_write_to_every_sink_in_order() {
    let mut fo = FanOut::new();
    fo.register(1);
    fo.register(2);
    fo.broadcast_write(&bs("w1"));
    fo.broadcast_write(&bs("w2"));
    let q0 = fo.take_pending(0);
    let q1 = fo.take_pending(1);
    assert_eq!(q0, vec![bs("w1"), bs("w2")]);
    assert_eq!(q1, vec![bs("w1"), bs("w2")]);
    assert!(fo.sinks[0].alive && fo.sinks[1].alive);
    assert!(fo.take_pending(0).is_empty());
}

#[test]
fn fan_out_disconnects_a_stuck_sink_instead_of_stalling() {
    let mut fo = FanOut::new();
    fo.register(7);
    fo.register(8);
    fo.take_pending(1);
    for i in 0..SINK_CAPACITY {
        fo.broadcast_write(&bs(&format!("w{}", i)));
        fo.take_pending(1);
    }
    assert!(fo.sinks[0].alive);
    fo.broadcast_write(&bs("overflow"));
    assert!(!fo.sinks[0].alive);
    assert!(fo.sinks[1].alive);
    assert_eq!(fo.take_pending(1), vec![bs("overflow")]);
}

#[test]
fn session_step_answers_a_set_and_hands_out_the_raw_write() {
    let m = meta(Role::Master);
    let mut store = Store::new();
    let input = b"*3\r\n$3\r\nSET\r\n$1\r\na\r\n$1\r\n1\r\n".to_vec();
    match session_step(&input, &mut store, &m) {
        SessionStep::Reply(rep) => {
            assert_eq!(rep.consumed, input.len());
            assert_eq!(rep.reply, b"+OK\r\n".to_vec());
            assert_eq!(rep.propagate, Some(input.clone()));
            assert!(!rep.become_sink);
        }
        _ => panic!("expected a reply"),
    }
    assert_eq!(store.get(&bs("a")), Some(bs("1")));
}

#[test]
fn session_step_asks_for_more_on_a_partial_command() {
    let m = meta(Role::Master);
    let mut store = Store::new();
    match session_step(&b"*3\r\n$3\r\nSET".to_vec(), &mut store, &m) {
        SessionStep::NeedMore => {}
        _ => panic!("expected a request for more input"),
    }
}

#[test]
fn session_step_closes_on_malformed_input() {
    let m = meta(Role::Master);
    let mut store = Store::new();
    match session_step(&b"@nope\r\n".to_vec(), &mut store, &m) {
        SessionStep::Close => {}
        _ => panic!("expected a close"),
    }
    match session_step(&b":42\r\n".to_vec(), &mut store, &m) {
        SessionStep::Close => {}
        _ => panic!("expected a close on a non-command value"),
    }
}

#[test]
fn session_step_marks_a_psync_session_as_sink() {
    let m = meta(Role::Master);
    let mut store = Store::new();
    let input = b"*3\r\n$5\r\nPSYNC\r\n$1\r\n?\r\n$2\r\n-1\r\n".to_vec();
    match session_step(&input, &mut store, &m) {
        SessionStep::Reply(rep) => {
            assert!(rep.become_sink);
            assert_eq!(rep.propagate, None);
        }
        _ => panic!("expected a reply"),
    }
}

#[test]
fn propagated_write_reaches_the_replica_store() {
    let master_meta = meta(Role::Master);
    let replica_meta = meta(Role::Replica);
    let mut master_store = Store::new();
    let mut replica_store = Store::new();
    let mut fo = FanOut::new();
    fo.register(1);

    let input = b"*3\r\n$3\r\nSET\r\n$1\r\na\r\n$1\r\n1\r\n".to_vec();
    let propagated = match session_step(&input, &mut master_store, &master_meta) {
        SessionStep::Reply(rep) => rep.propagate.expect("a write propagates"),
        _ => panic!("expected a reply"),
    };
    fo.broadcast_write(&propagated);

    for cmd in fo.take_pending(0) {
        match session_step(&cmd, &mut replica_store, &replica_meta) {
            SessionStep::Reply(_) => {}
            _ => panic!("expected the replica to apply the write"),
        }
    }
    assert_eq!(replica_store.get(&bs("a")), Some(bs("1")));
    assert_eq!(master_store.get(&bs("a")), Some(bs("1")));
}
