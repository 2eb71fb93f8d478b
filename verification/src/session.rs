//! One connection's read-dispatch-write step: decode at most one command
//! from the session's input buffer, run it against the shared store, and
//! hand back the encoded reply together with what the session loop must do
//! next. The surrounding loop owns the socket; nothing here blocks.

use vstd::prelude::*;

use crate::codec::copy_range;
use crate::codec::decode;
use crate::codec::encode;
use crate::codec::spec_decode;
use crate::codec::spec_encode;
use crate::codec::Decoded;
use crate::codec::SpecDecoded;
use crate::command::dispatch;
use crate::command::spec_dispatch;
use crate::command::spec_extract;
use crate::command::extract_command;
use crate::command::ServerMeta;
use crate::command::SpecMeta;
use crate::store::Store;
use crate::value::spec_value_of;

verus! {

/// What one session step yielded at the model level.
pub enum SpecSessionStep {
    /// A command was consumed and answered; the store may have changed, the
    /// reply bytes go back on the wire, and a write may be propagated.
    Reply { consumed: int, reply: Seq<u8>, store: Map<Seq<u8>, Seq<u8>>, propagate: bool, become_sink: bool },
    /// The buffer ends inside a value: read more bytes first.
    NeedMore,
    /// Malformed wire bytes or a malformed command shape: the session is
    /// closed, since the stream cannot be re-synchronised.
    Close,
}

/// The meaning of one session step on a buffer, store and metadata.
pub open spec fn spec_session_step(
    buf: Seq<u8>,
    store0: Map<Seq<u8>, Seq<u8>>,
    meta: SpecMeta,
) -> SpecSessionStep {
    match spec_decode(buf) {
        SpecDecoded::More => SpecSessionStep::NeedMore,
        SpecDecoded::Fail => SpecSessionStep::Close,
        SpecDecoded::Val(v, c) => match spec_extract(v) {
            None => SpecSessionStep::Close,
            Some((name, args)) => {
                let d = spec_dispatch(name, args, store0, meta);
                SpecSessionStep::Reply {
                    consumed: c,
                    reply: spec_encode(d.reply),
                    store: d.store,
                    propagate: d.propagate,
                    become_sink: d.become_sink,
                }
            },
        },
    }
}

/// A consumed command's answer: how many buffer bytes it took, the encoded
/// reply, the raw command bytes to fan out where the write propagates, and
/// whether this session is now a replica sink.
pub struct SessionReply {
    pub consumed: usize,
    pub reply: Vec<u8>,
    pub propagate: Option<Vec<u8>>,
    pub become_sink: bool,
}

/// What one session step asks the connection loop to do.
pub enum SessionStep {
    Reply(SessionReply),
    NeedMore,
    Close,
}

/// Runs at most one command from the front of the buffer against the store.
pub fn session_step(buf: &Vec<u8>, store: &mut Store, meta: &ServerMeta) -> (r: SessionStep)
    requires
        old(store).wf(),
    ensures
        final(store).wf(),
        ({
            match r {
                SessionStep::Reply(rep) => rep.consumed <= buf.len() && spec_session_step(
                    buf@,
                    old(store)@,
                    meta@,
                ) == (SpecSessionStep::Reply {
                    consumed: rep.consumed as int,
                    reply: rep.reply@,
                    store: final(store)@,
                    propagate: rep.propagate is Some,
                    become_sink: rep.become_sink,
                }) && (match rep.propagate {
                    Some(p) => p@ == buf@.subrange(0, rep.consumed as int),
                    None => true,
                }),
                SessionStep::NeedMore => spec_session_step(buf@, old(store)@, meta@)
                    is NeedMore && final(store)@ == old(store)@,
                SessionStep::Close => spec_session_step(buf@, old(store)@, meta@) is Close
                    && final(store)@ == old(store)@,
            }
        }),
{
    match decode(buf) {
        Decoded::More => SessionStep::NeedMore,
        Decoded::Fail => SessionStep::Close,
        Decoded::Val(v, c) => {
            let ghost v_model = spec_value_of(v);
            match extract_command(v) {
                None => SessionStep::Close,
                Some((name, args)) => {
                    let d = dispatch(&name, args, store, meta);
                    let reply = encode(&d.reply);
                    let propagate = if d.propagate {
                        Some(copy_range(buf, 0, c))
                    } else {
                        None
                    };
                    SessionStep::Reply(
                        SessionReply { consumed: c, reply, propagate, become_sink: d.become_sink },
                    )
                },
            }
        },
    }
}


/// End-to-end propagation: what the master fans out after an accepted write
/// is exactly that one command, and a replica that applies it to a store
/// equal to the master's previous store — under its own metadata — performs
/// the same step and lands in the master's new store, replying the same.
pub proof fn lemma_propagated_write_applies(
    buf: Seq<u8>,
    store0: Map<Seq<u8>, Seq<u8>>,
    meta_m: SpecMeta,
    meta_r: SpecMeta,
    consumed: int,
    reply: Seq<u8>,
    store1: Map<Seq<u8>, Seq<u8>>,
    become_sink: bool,
)
    requires
        spec_session_step(buf, store0, meta_m) == (SpecSessionStep::Reply {
            consumed,
            reply,
            store: store1,
            propagate: true,
            become_sink,
        }),
    ensures
        !become_sink,
        spec_session_step(buf.subrange(0, consumed), store0, meta_r) == (SpecSessionStep::Reply {
            consumed,
            reply,
            store: store1,
            propagate: true,
            become_sink: false,
        }),
{
    crate::codec::lemma_decode_consumed_bounds(buf);
    match spec_decode(buf) {
        SpecDecoded::Val(v, c) => {
            crate::codec::lemma_decode_take(buf, consumed);
            match spec_extract(v) {
                Some((name, args)) => {
                    crate::command::lemma_propagating_dispatch_ignores_meta(
                        name,
                        args,
                        store0,
                        meta_m,
                        meta_r,
                    );
                },
                None => {},
            }
        },
        _ => {},
    }
}

} // verus!