//! The replication engine. On the replica side, the outbound handshake is a
//! state machine: a driver performs the connecting, sending and reading, and
//! this module decides, from state and event alone, where the session stands
//! and what is sent next; any failure, at any step, lands in the terminal
//! `Failed` state. On the master side, a fan-out set holds one bounded queue
//! per attached replica sink: every accepted write is pushed to every live
//! sink in the one order writes were accepted, and a sink whose queue is
//! full is disconnected rather than allowed to stall the others.

use vstd::prelude::*;

use crate::codec::encode;
use crate::codec::spec_encode;
use crate::num::dec_digits;
use crate::num::push_dec_u64;
use crate::value::clone_bytes;
use crate::value::lemma_spec_values_of;
use crate::value::spec_values_of;
use crate::value::SpecValue;
use crate::value::Value;

verus! {

/// `"ping"` as bytes: the liveness probe sent first.
pub open spec fn txt_ping_cmd() -> Seq<u8> {
    seq![112u8, 105u8, 110u8, 103u8]
}

/// Builds `"ping"` as bytes.
fn make_ping_cmd() -> (r: Vec<u8>)
    ensures
        r@ == txt_ping_cmd(),
{
    let mut r: Vec<u8> = Vec::new();
    r.push(112u8);
    r.push(105u8);
    r.push(110u8);
    r.push(103u8);
    proof {
        assert(r@ =~= txt_ping_cmd());
    }
    r
}

/// `"REPLCONF"` as bytes: the negotiation command.
pub open spec fn txt_replconf() -> Seq<u8> {
    seq![82u8, 69u8, 80u8, 76u8, 67u8, 79u8, 78u8, 70u8]
}

/// Builds `"REPLCONF"` as bytes.
fn make_replconf() -> (r: Vec<u8>)
    ensures
        r@ == txt_replconf(),
{
    let mut r: Vec<u8> = Vec::new();
    r.push(82u8);
    r.push(69u8);
    r.push(80u8);
    r.push(76u8);
    r.push(67u8);
    r.push(79u8);
    r.push(78u8);
    r.push(70u8);
    proof {
        assert(r@ =~= txt_replconf());
    }
    r
}

/// `"listening-port"` as bytes: the port announcement.
pub open spec fn txt_listening_port() -> Seq<u8> {
    seq![108u8, 105u8, 115u8, 116u8, 101u8, 110u8, 105u8, 110u8, 103u8, 45u8, 112u8, 111u8, 114u8, 116u8]
}

/// Builds `"listening-port"` as bytes.
fn make_listening_port() -> (r: Vec<u8>)
    ensures
        r@ == txt_listening_port(),
{
    let mut r: Vec<u8> = Vec::new();
    r.push(108u8);
    r.push(105u8);
    r.push(115u8);
    r.push(116u8);
    r.push(101u8);
    r.push(110u8);
    r.push(105u8);
    r.push(110u8);
    r.push(103u8);
    r.push(45u8);
    r.push(112u8);
    r.push(111u8);
    r.push(114u8);
    r.push(116u8);
    proof {
        assert(r@ =~= txt_listening_port());
    }
    r
}

/// `"capa"` as bytes: the capability announcement.
pub open spec fn txt_capa() -> Seq<u8> {
    seq![99u8, 97u8, 112u8, 97u8]
}

/// Builds `"capa"` as bytes.
fn make_capa() -> (r: Vec<u8>)
    ensures
        r@ == txt_capa(),
{
    let mut r: Vec<u8> = Vec::new();
    r.push(99u8);
    r.push(97u8);
    r.push(112u8);
    r.push(97u8);
    proof {
        assert(r@ =~= txt_capa());
    }
    r
}

/// `"psync2"` as bytes: the announced capability.
pub open spec fn txt_psync2() -> Seq<u8> {
    seq![112u8, 115u8, 121u8, 110u8, 99u8, 50u8]
}

/// Builds `"psync2"` as bytes.
fn make_psync2() -> (r: Vec<u8>)
    ensures
        r@ == txt_psync2(),
{
    let mut r: Vec<u8> = Vec::new();
    r.push(112u8);
    r.push(115u8);
    r.push(121u8);
    r.push(110u8);
    r.push(99u8);
    r.push(50u8);
    proof {
        assert(r@ =~= txt_psync2());
    }
    r
}

/// `"PSYNC"` as bytes: the resync request.
pub open spec fn txt_psync_cmd() -> Seq<u8> {
    seq![80u8, 83u8, 89u8, 78u8, 67u8]
}

/// Builds `"PSYNC"` as bytes.
fn make_psync_cmd() -> (r: Vec<u8>)
    ensures
        r@ == txt_psync_cmd(),
{
    let mut r: Vec<u8> = Vec::new();
    r.push(80u8);
    r.push(83u8);
    r.push(89u8);
    r.push(78u8);
    r.push(67u8);
    proof {
        assert(r@ =~= txt_psync_cmd());
    }
    r
}

/// `"?"` as bytes: an unknown replication id.
pub open spec fn txt_question() -> Seq<u8> {
    seq![63u8]
}

/// Builds `"?"` as bytes.
fn make_question() -> (r: Vec<u8>)
    ensures
        r@ == txt_question(),
{
    let mut r: Vec<u8> = Vec::new();
    r.push(63u8);
    proof {
        assert(r@ =~= txt_question());
    }
    r
}

/// `"-1"` as bytes: an unknown replication offset.
pub open spec fn txt_minus_one() -> Seq<u8> {
    seq![45u8, 49u8]
}

/// Builds `"-1"` as bytes.
fn make_minus_one() -> (r: Vec<u8>)
    ensures
        r@ == txt_minus_one(),
{
    let mut r: Vec<u8> = Vec::new();
    r.push(45u8);
    r.push(49u8);
    proof {
        assert(r@ =~= txt_minus_one());
    }
    r
}

/// Where a replica's outbound connection to its master stands.
#[derive(Clone, Copy, PartialEq, Eq, Structural, Debug)]
pub enum HandshakeState {
    /// No connection yet.
    Disconnected,
    /// Connected; the liveness probe has been sent.
    SentPing,
    /// The probe was answered; the port announcement has been sent.
    SentListeningPort,
    /// The announcement was answered; the capabilities have been sent.
    SentCapabilities,
    /// The capabilities were answered; the resync request has been sent.
    SentPsync,
    /// The resync was announced; the snapshot transfer is awaited.
    AwaitingFullResync,
    /// The snapshot arrived: commands now stream in and are applied locally.
    Streaming,
    /// An I/O error or an unexpected reply ended this replication session.
    Failed,
}

/// What the driver reports back to the state machine.
#[derive(Clone, Copy, PartialEq, Eq, Structural, Debug)]
pub enum HandshakeEvent {
    /// The outbound connection was established.
    Connected,
    /// A complete reply arrived.
    Reply,
    /// The resync announcement line arrived, the snapshot still to come.
    ResyncAnnounced,
    /// An I/O error, a timeout, or a malformed reply.
    Failure,
}

/// The wire value of the liveness probe: a lone zero-argument command.
pub open spec fn spec_ping_value() -> SpecValue {
    SpecValue::BulkString(txt_ping_cmd())
}

/// The wire value announcing the replica's listening port.
pub open spec fn spec_port_value(port: int) -> SpecValue {
    SpecValue::Array(
        seq![
            SpecValue::BulkString(txt_replconf()),
            SpecValue::BulkString(txt_listening_port()),
            SpecValue::BulkString(dec_digits(port as nat)),
        ],
    )
}

/// The wire value announcing the replica's capabilities.
pub open spec fn spec_capa_value() -> SpecValue {
    SpecValue::Array(
        seq![
            SpecValue::BulkString(txt_replconf()),
            SpecValue::BulkString(txt_capa()),
            SpecValue::BulkString(txt_psync2()),
        ],
    )
}

/// The wire value requesting a resync from the start of the stream.
pub open spec fn spec_psync_value() -> SpecValue {
    SpecValue::Array(
        seq![
            SpecValue::BulkString(txt_psync_cmd()),
            SpecValue::BulkString(txt_question()),
            SpecValue::BulkString(txt_minus_one()),
        ],
    )
}

/// The next state, from state and event alone. A failure, at any step, is
/// terminal; an event that the state does not await is a failure too.
pub open spec fn spec_handshake_next(s: HandshakeState, ev: HandshakeEvent) -> HandshakeState {
    match ev {
        HandshakeEvent::Failure => HandshakeState::Failed,
        HandshakeEvent::Connected => match s {
            HandshakeState::Disconnected => HandshakeState::SentPing,
            _ => HandshakeState::Failed,
        },
        HandshakeEvent::ResyncAnnounced => match s {
            HandshakeState::SentPsync => HandshakeState::AwaitingFullResync,
            _ => HandshakeState::Failed,
        },
        HandshakeEvent::Reply => match s {
            HandshakeState::SentPing => HandshakeState::SentListeningPort,
            HandshakeState::SentListeningPort => HandshakeState::SentCapabilities,
            HandshakeState::SentCapabilities => HandshakeState::SentPsync,
            HandshakeState::SentPsync => HandshakeState::Streaming,
            HandshakeState::AwaitingFullResync => HandshakeState::Streaming,
            HandshakeState::Streaming => HandshakeState::Streaming,
            _ => HandshakeState::Failed,
        },
    }
}

/// What the driver must send upon entering the next state, as wire bytes.
pub open spec fn spec_handshake_msg(s: HandshakeState, ev: HandshakeEvent, port: int) -> Option<
    Seq<u8>,
> {
    match spec_handshake_next(s, ev) {
        HandshakeState::SentPing => Some(spec_encode(spec_ping_value())),
        HandshakeState::SentListeningPort => Some(spec_encode(spec_port_value(port))),
        HandshakeState::SentCapabilities => Some(spec_encode(spec_capa_value())),
        HandshakeState::SentPsync => Some(spec_encode(spec_psync_value())),
        _ => None,
    }
}

/// A failure event lands in `Failed` from every state, `Failed` is terminal,
/// and `Streaming` is reached only by a reply while the resync request or
/// transfer is pending: a connection that dies at the final exchange can
/// never end up streaming silently.
pub proof fn lemma_handshake_no_silent_streaming(s: HandshakeState, ev: HandshakeEvent)
    ensures
        ev is Failure ==> spec_handshake_next(s, ev) is Failed,
        spec_handshake_next(s, ev) is Streaming ==> ev is Reply && (s is SentPsync
            || s is AwaitingFullResync || s is Streaming),
        spec_handshake_next(HandshakeState::Failed, ev) is Failed,
{
}

/// One handshake step: the state to move to, and what to send now.
pub struct HandshakeStep {
    pub next: HandshakeState,
    pub send: Option<Vec<u8>>,
}

fn bulk(text: Vec<u8>) -> (v: Value)
    ensures
        v@ == SpecValue::BulkString(text@),
{
    Value::BulkString(text)
}

fn three_bulks(a: Vec<u8>, b: Vec<u8>, c: Vec<u8>) -> (v: Value)
    ensures
        v@ == SpecValue::Array(
            seq![
                SpecValue::BulkString(a@),
                SpecValue::BulkString(b@),
                SpecValue::BulkString(c@),
            ],
        ),
{
    let e0 = bulk(a);
    let e1 = bulk(b);
    let e2 = bulk(c);
    let ghost m0 = e0@;
    let ghost m1 = e1@;
    let ghost m2 = e2@;
    let mut items: Vec<Value> = Vec::new();
    items.push(e0);
    items.push(e1);
    items.push(e2);
    proof {
        lemma_spec_values_of(items@);
        assert(items@[0] == e0 && items@[1] == e1 && items@[2] == e2);
        assert(spec_values_of(items@) =~= seq![m0, m1, m2]);
    }
    Value::Array(items)
}

/// Steps the replica-side handshake: the driver reports what happened and is
/// told the new state and what to write to the master next.
pub fn handshake_step(s: HandshakeState, ev: HandshakeEvent, port: u64) -> (r: HandshakeStep)
    ensures
        r.next == spec_handshake_next(s, ev),
        ({
            match r.send {
                Some(m) => spec_handshake_msg(s, ev, port as int) == Some(m@),
                None => spec_handshake_msg(s, ev, port as int) is None,
            }
        }),
{
    let next = match ev {
        HandshakeEvent::Failure => HandshakeState::Failed,
        HandshakeEvent::Connected => match s {
            HandshakeState::Disconnected => HandshakeState::SentPing,
            _ => HandshakeState::Failed,
        },
        HandshakeEvent::ResyncAnnounced => match s {
            HandshakeState::SentPsync => HandshakeState::AwaitingFullResync,
            _ => HandshakeState::Failed,
        },
        HandshakeEvent::Reply => match s {
            HandshakeState::SentPing => HandshakeState::SentListeningPort,
            HandshakeState::SentListeningPort => HandshakeState::SentCapabilities,
            HandshakeState::SentCapabilities => HandshakeState::SentPsync,
            HandshakeState::SentPsync => HandshakeState::Streaming,
            HandshakeState::AwaitingFullResync => HandshakeState::Streaming,
            HandshakeState::Streaming => HandshakeState::Streaming,
            _ => HandshakeState::Failed,
        },
    };
    let send = match next {
        HandshakeState::SentPing => {
            let v = bulk(make_ping_cmd());
            Some(encode(&v))
        },
        HandshakeState::SentListeningPort => {
            let mut port_text: Vec<u8> = Vec::new();
            push_dec_u64(&mut port_text, port);
            let v = three_bulks(make_replconf(), make_listening_port(), port_text);
            Some(encode(&v))
        },
        HandshakeState::SentCapabilities => {
            let v = three_bulks(make_replconf(), make_capa(), make_psync2());
            Some(encode(&v))
        },
        HandshakeState::SentPsync => {
            let v = three_bulks(make_psync_cmd(), make_question(), make_minus_one());
            Some(encode(&v))
        },
        _ => None,
    };
    HandshakeStep { next, send }
}

/// How many writes a sink may have pending before it is disconnected.
pub const SINK_CAPACITY: usize = 100;

/// One attached replica sink: its driver-chosen id, the writes queued for
/// it, oldest first, and whether it is still attached.
pub struct Sink {
    pub id: u64,
    pub pending: Vec<Vec<u8>>,
    pub alive: bool,
}

/// The master-side fan-out set.
pub struct FanOut {
    pub sinks: Vec<Sink>,
}

/// The queued writes of a sink, as byte sequences, oldest first.
pub open spec fn pending_of(q: Seq<Vec<u8>>) -> Seq<Seq<u8>> {
    Seq::new(q.len(), |i: int| q[i]@)
}

impl FanOut {
    /// An empty fan-out set.
    pub fn new() -> (r: FanOut)
        ensures
            r.sinks@.len() == 0,
    {
        FanOut { sinks: Vec::new() }
    }

    /// Attaches a sink that has completed its resync, with no backlog.
    pub fn register(&mut self, id: u64)
        ensures
            final(self).sinks@.len() == old(self).sinks@.len() + 1,
            final(self).sinks@.last().id == id,
            final(self).sinks@.last().alive,
            final(self).sinks@.last().pending@.len() == 0,
            forall|i: int|
                0 <= i < old(self).sinks@.len() ==> final(self).sinks@[i] == old(self).sinks@[i],
    {
        self.sinks.push(Sink { id, pending: Vec::new(), alive: true });
    }

    /// Queues one accepted write for every live sink, in arrival order: all
    /// sinks see the same writes in the same order. A sink whose queue is
    /// already full is disconnected instead, so one stuck replica never
    /// stalls the writes of the others.
    pub fn broadcast_write(&mut self, cmd: &Vec<u8>)
        ensures
            final(self).sinks@.len() == old(self).sinks@.len(),
            forall|i: int|
                0 <= i < old(self).sinks@.len() ==> {
                    let before = old(self).sinks@[i];
                    let after = #[trigger] final(self).sinks@[i];
                    after.id == before.id && if before.alive && before.pending@.len()
                        < SINK_CAPACITY {
                        after.alive && pending_of(after.pending@) == pending_of(
                            before.pending@,
                        ).push(cmd@)
                    } else if before.alive {
                        !after.alive && after.pending@ == before.pending@
                    } else {
                        after == before
                    }
                },
    {
        let n = self.sinks.len();
        let mut i: usize = 0;
        while i < n
            invariant
                i <= n,
                n == self.sinks@.len(),
                n == old(self).sinks@.len(),
                forall|j: int| i <= j < n ==> self.sinks@[j] == old(self).sinks@[j],
                forall|j: int|
                    0 <= j < i ==> {
                        let before = old(self).sinks@[j];
                        let after = #[trigger] self.sinks@[j];
                        after.id == before.id && if before.alive && before.pending@.len()
                            < SINK_CAPACITY {
                            after.alive && pending_of(after.pending@) == pending_of(
                                before.pending@,
                            ).push(cmd@)
                        } else if before.alive {
                            !after.alive && after.pending@ == before.pending@
                        } else {
                            after == before
                        }
                    },
            decreases n - i,
        {
            let ghost pre = self.sinks@;
            let mut sink = self.sinks.remove(i);
            if sink.alive {
                if sink.pending.len() < SINK_CAPACITY {
                    let ghost q_before = sink.pending@;
                    sink.pending.push(clone_bytes(cmd));
                    proof {
                        assert(pending_of(sink.pending@) =~= pending_of(q_before).push(cmd@));
                    }
                } else {
                    sink.alive = false;
                }
            }
            self.sinks.insert(i, sink);
            proof {
                assert(self.sinks@ =~= pre.update(i as int, self.sinks@[i as int]));
            }
            i = i + 1;
        }
    }

    /// Hands out and clears the writes queued for the sink at an index, in
    /// the order they were queued.
    pub fn take_pending(&mut self, i: usize) -> (q: Vec<Vec<u8>>)
        requires
            i < old(self).sinks@.len(),
        ensures
            final(self).sinks@.len() == old(self).sinks@.len(),
            forall|j: int|
                0 <= j < old(self).sinks@.len() && j != i ==> final(self).sinks@[j] == old(
                    self,
                ).sinks@[j],
            final(self).sinks@[i as int].id == old(self).sinks@[i as int].id,
            final(self).sinks@[i as int].alive == old(self).sinks@[i as int].alive,
            final(self).sinks@[i as int].pending@.len() == 0,
            q == old(self).sinks@[i as int].pending,
    {
        let ghost pre = self.sinks@;
        let sink = self.sinks.remove(i);
        let Sink { id, pending, alive } = sink;
        self.sinks.insert(i, Sink { id, pending: Vec::new(), alive });
        proof {
            assert(self.sinks@ =~= pre.update(i as int, self.sinks@[i as int]));
        }
        pending
    }
}

} // verus!