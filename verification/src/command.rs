//! The command dispatcher: maps a command name and its arguments to an
//! action on the store or the server metadata, a reply value, and, for
//! accepted writes, a propagation event for the replica sinks. A session
//! whose `PSYNC` is accepted is marked to become a replica sink.
//!
//! Wrong argument counts and wrong argument types for the data commands
//! reply with an error value and leave the connection open; so does an
//! unrecognised command name, deliberately, so that one client's typo can
//! never bring the server down for the others.

use vstd::prelude::*;

use crate::num::dec_digits;
use crate::num::int_dec;
use crate::num::push_dec_u64;
use crate::codec::push_bytes;
use crate::store::incr_new_value;
use crate::store::Store;
use crate::value::bytes_eq;
use crate::value::clone_bytes;
use crate::value::lemma_spec_values_of;
use crate::value::spec_value_of;
use crate::value::spec_values_of;
use crate::value::SpecValue;
use crate::value::Value;
use crate::value::CR;
use crate::value::LF;

verus! {

/// Whether this instance leads the replication stream or follows one.
#[derive(Clone, Copy, PartialEq, Eq, Structural, Debug)]
pub enum Role {
    Master,
    Replica,
}

/// The recognised command names; anything else is `Unknown`.
#[derive(Clone, Copy, PartialEq, Eq, Structural, Debug)]
pub enum CommandKind {
    Ping,
    Echo,
    SetKey,
    GetKey,
    Incr,
    Info,
    Replconf,
    Psync,
    Unknown,
}

/// Server metadata shared by every session: the role, the identifier of the
/// replication stream, how far that stream has gone, and the opaque snapshot
/// blob handed out verbatim on a full resync.
pub struct ServerMeta {
    pub role: Role,
    pub replid: Vec<u8>,
    pub repl_offset: u64,
    pub snapshot: Vec<u8>,
}

/// The mathematical model of the server metadata.
pub struct SpecMeta {
    pub role: Role,
    pub replid: Seq<u8>,
    pub repl_offset: int,
    pub snapshot: Seq<u8>,
}

impl View for ServerMeta {
    type V = SpecMeta;

    open spec fn view(&self) -> SpecMeta {
        SpecMeta {
            role: self.role,
            replid: self.replid@,
            repl_offset: self.repl_offset as int,
            snapshot: self.snapshot@,
        }
    }
}

impl ServerMeta {
    /// The replication id is a line: it is quoted inside simple strings.
    pub open spec fn wf(&self) -> bool {
        forall|i: int|
            0 <= i < self.replid@.len() ==> self.replid@[i] != CR && self.replid@[i] != LF
    }
}

/// A byte with its ASCII upper-case letters folded to lower case.
pub open spec fn lower_byte(b: u8) -> u8 {
    if 65 <= b <= 90 {
        (b + 32) as u8
    } else {
        b
    }
}

/// Byte text with ASCII letters folded to lower case.
pub open spec fn ascii_lower(s: Seq<u8>) -> Seq<u8> {
    Seq::new(s.len(), |i: int| lower_byte(s[i]))
}

/// Which command a name denotes, compared case-insensitively.
pub open spec fn spec_command_kind(name: Seq<u8>) -> CommandKind {
    let l = ascii_lower(name);
    if l == seq![112u8, 105u8, 110u8, 103u8] {
        CommandKind::Ping
    } else if l == seq![101u8, 99u8, 104u8, 111u8] {
        CommandKind::Echo
    } else if l == seq![115u8, 101u8, 116u8] {
        CommandKind::SetKey
    } else if l == seq![103u8, 101u8, 116u8] {
        CommandKind::GetKey
    } else if l == seq![105u8, 110u8, 99u8, 114u8] {
        CommandKind::Incr
    } else if l == seq![105u8, 110u8, 102u8, 111u8] {
        CommandKind::Info
    } else if l == seq![114u8, 101u8, 112u8, 108u8, 99u8, 111u8, 110u8, 102u8] {
        CommandKind::Replconf
    } else if l == seq![112u8, 115u8, 121u8, 110u8, 99u8] {
        CommandKind::Psync
    } else {
        CommandKind::Unknown
    }
}

/// Folds a command name to lower case.
fn lower_bytes(name: &Vec<u8>) -> (l: Vec<u8>)
    ensures
        l@ == ascii_lower(name@),
{
    let mut l: Vec<u8> = Vec::new();
    let mut i: usize = 0;
    while i < name.len()
        invariant
            i <= name.len(),
            l@ == ascii_lower(name@).subrange(0, i as int),
        decreases name.len() - i,
    {
        let b = name[i];
        if 65 <= b && b <= 90 {
            l.push(b + 32);
        } else {
            l.push(b);
        }
        proof {
            assert(l@ =~= ascii_lower(name@).subrange(0, i + 1));
        }
        i = i + 1;
    }
    proof {
        assert(l@ =~= ascii_lower(name@));
    }
    l
}

/// Classifies a command name, case-insensitively.
pub fn command_kind(name: &Vec<u8>) -> (k: CommandKind)
    ensures
        k == spec_command_kind(name@),
{
    let l = lower_bytes(name);
    if l.len() == 4 && l[0] == 112 && l[1] == 105 && l[2] == 110 && l[3] == 103 {
        proof {
            assert(l@ =~= seq![112u8, 105u8, 110u8, 103u8]);
        }
        return CommandKind::Ping;
    }
    if l.len() == 4 && l[0] == 101 && l[1] == 99 && l[2] == 104 && l[3] == 111 {
        proof {
            assert(l@ =~= seq![101u8, 99u8, 104u8, 111u8]);
        }
        return CommandKind::Echo;
    }
    if l.len() == 3 && l[0] == 115 && l[1] == 101 && l[2] == 116 {
        proof {
            assert(l@ =~= seq![115u8, 101u8, 116u8]);
        }
        return CommandKind::SetKey;
    }
    if l.len() == 3 && l[0] == 103 && l[1] == 101 && l[2] == 116 {
        proof {
            assert(l@ =~= seq![103u8, 101u8, 116u8]);
        }
        return CommandKind::GetKey;
    }
    if l.len() == 4 && l[0] == 105 && l[1] == 110 && l[2] == 99 && l[3] == 114 {
        proof {
            assert(l@ =~= seq![105u8, 110u8, 99u8, 114u8]);
        }
        return CommandKind::Incr;
    }
    if l.len() == 4 && l[0] == 105 && l[1] == 110 && l[2] == 102 && l[3] == 111 {
        proof {
            assert(l@ =~= seq![105u8, 110u8, 102u8, 111u8]);
        }
        return CommandKind::Info;
    }
    if l.len() == 8 && l[0] == 114 && l[1] == 101 && l[2] == 112 && l[3] == 108 && l[4] == 99 && l[5] == 111 && l[6] == 110 && l[7] == 102 {
        proof {
            assert(l@ =~= seq![114u8, 101u8, 112u8, 108u8, 99u8, 111u8, 110u8, 102u8]);
        }
        return CommandKind::Replconf;
    }
    if l.len() == 5 && l[0] == 112 && l[1] == 115 && l[2] == 121 && l[3] == 110 && l[4] == 99 {
        proof {
            assert(l@ =~= seq![112u8, 115u8, 121u8, 110u8, 99u8]);
        }
        return CommandKind::Psync;
    }
    CommandKind::Unknown
}

/// `"PONG"` as bytes: the reply to PING.
pub open spec fn txt_pong() -> Seq<u8> {
    seq![80u8, 79u8, 78u8, 71u8]
}

/// Builds `"PONG"` as bytes.
pub fn make_pong() -> (r: Vec<u8>)
    ensures
        r@ == txt_pong(),
{
    let mut r: Vec<u8> = Vec::new();
    r.push(80u8);
    r.push(79u8);
    r.push(78u8);
    r.push(71u8);
    proof {
        assert(r@ =~= txt_pong());
    }
    r
}

/// `"OK"` as bytes: the success reply.
pub open spec fn txt_ok() -> Seq<u8> {
    seq![79u8, 75u8]
}

/// Builds `"OK"` as bytes.
pub fn make_ok() -> (r: Vec<u8>)
    ensures
        r@ == txt_ok(),
{
    let mut r: Vec<u8> = Vec::new();
    r.push(79u8);
    r.push(75u8);
    proof {
        assert(r@ =~= txt_ok());
    }
    r
}

/// `"ERR wrong number of arguments"` as bytes: the arity error.
pub open spec fn msg_arity() -> Seq<u8> {
    seq![69u8, 82u8, 82u8, 32u8, 119u8, 114u8, 111u8, 110u8, 103u8, 32u8, 110u8, 117u8, 109u8, 98u8, 101u8, 114u8, 32u8, 111u8, 102u8, 32u8, 97u8, 114u8, 103u8, 117u8, 109u8, 101u8, 110u8, 116u8, 115u8]
}

/// Builds `"ERR wrong number of arguments"` as bytes.
pub fn make_msg_arity() -> (r: Vec<u8>)
    ensures
        r@ == msg_arity(),
{
    let mut r: Vec<u8> = Vec::new();
    r.push(69u8);
    r.push(82u8);
    r.push(82u8);
    r.push(32u8);
    r.push(119u8);
    r.push(114u8);
    r.push(111u8);
    r.push(110u8);
    r.push(103u8);
    r.push(32u8);
    r.push(110u8);
    r.push(117u8);
    r.push(109u8);
    r.push(98u8);
    r.push(101u8);
    r.push(114u8);
    r.push(32u8);
    r.push(111u8);
    r.push(102u8);
    r.push(32u8);
    r.push(97u8);
    r.push(114u8);
    r.push(103u8);
    r.push(117u8);
    r.push(109u8);
    r.push(101u8);
    r.push(110u8);
    r.push(116u8);
    r.push(115u8);
    proof {
        assert(r@ =~= msg_arity());
    }
    r
}

/// `"ERR argument is not a bulk string"` as bytes: the argument-type error.
pub open spec fn msg_not_bulk() -> Seq<u8> {
    seq![69u8, 82u8, 82u8, 32u8, 97u8, 114u8, 103u8, 117u8, 109u8, 101u8, 110u8, 116u8, 32u8, 105u8, 115u8, 32u8, 110u8, 111u8, 116u8, 32u8, 97u8, 32u8, 98u8, 117u8, 108u8, 107u8, 32u8, 115u8, 116u8, 114u8, 105u8, 110u8, 103u8]
}

/// Builds `"ERR argument is not a bulk string"` as bytes.
pub fn make_msg_not_bulk() -> (r: Vec<u8>)
    ensures
        r@ == msg_not_bulk(),
{
    let mut r: Vec<u8> = Vec::new();
    r.push(69u8);
    r.push(82u8);
    r.push(82u8);
    r.push(32u8);
    r.push(97u8);
    r.push(114u8);
    r.push(103u8);
    r.push(117u8);
    r.push(109u8);
    r.push(101u8);
    r.push(110u8);
    r.push(116u8);
    r.push(32u8);
    r.push(105u8);
    r.push(115u8);
    r.push(32u8);
    r.push(110u8);
    r.push(111u8);
    r.push(116u8);
    r.push(32u8);
    r.push(97u8);
    r.push(32u8);
    r.push(98u8);
    r.push(117u8);
    r.push(108u8);
    r.push(107u8);
    r.push(32u8);
    r.push(115u8);
    r.push(116u8);
    r.push(114u8);
    r.push(105u8);
    r.push(110u8);
    r.push(103u8);
    proof {
        assert(r@ =~= msg_not_bulk());
    }
    r
}

/// `"ERR value is not an integer or out of range"` as bytes: the counter type error.
pub open spec fn msg_not_integer() -> Seq<u8> {
    seq![69u8, 82u8, 82u8, 32u8, 118u8, 97u8, 108u8, 117u8, 101u8, 32u8, 105u8, 115u8, 32u8, 110u8, 111u8, 116u8, 32u8, 97u8, 110u8, 32u8, 105u8, 110u8, 116u8, 101u8, 103u8, 101u8, 114u8, 32u8, 111u8, 114u8, 32u8, 111u8, 117u8, 116u8, 32u8, 111u8, 102u8, 32u8, 114u8, 97u8, 110u8, 103u8, 101u8]
}

/// Builds `"ERR value is not an integer or out of range"` as bytes.
pub fn make_msg_not_integer() -> (r: Vec<u8>)
    ensures
        r@ == msg_not_integer(),
{
    let mut r: Vec<u8> = Vec::new();
    r.push(69u8);
    r.push(82u8);
    r.push(82u8);
    r.push(32u8);
    r.push(118u8);
    r.push(97u8);
    r.push(108u8);
    r.push(117u8);
    r.push(101u8);
    r.push(32u8);
    r.push(105u8);
    r.push(115u8);
    r.push(32u8);
    r.push(110u8);
    r.push(111u8);
    r.push(116u8);
    r.push(32u8);
    r.push(97u8);
    r.push(110u8);
    r.push(32u8);
    r.push(105u8);
    r.push(110u8);
    r.push(116u8);
    r.push(101u8);
    r.push(103u8);
    r.push(101u8);
    r.push(114u8);
    r.push(32u8);
    r.push(111u8);
    r.push(114u8);
    r.push(32u8);
    r.push(111u8);
    r.push(117u8);
    r.push(116u8);
    r.push(32u8);
    r.push(111u8);
    r.push(102u8);
    r.push(32u8);
    r.push(114u8);
    r.push(97u8);
    r.push(110u8);
    r.push(103u8);
    r.push(101u8);
    proof {
        assert(r@ =~= msg_not_integer());
    }
    r
}

/// `"ERR unknown command"` as bytes: the unknown-command error.
pub open spec fn msg_unknown() -> Seq<u8> {
    seq![69u8, 82u8, 82u8, 32u8, 117u8, 110u8, 107u8, 110u8, 111u8, 119u8, 110u8, 32u8, 99u8, 111u8, 109u8, 109u8, 97u8, 110u8, 100u8]
}

/// Builds `"ERR unknown command"` as bytes.
pub fn make_msg_unknown() -> (r: Vec<u8>)
    ensures
        r@ == msg_unknown(),
{
    let mut r: Vec<u8> = Vec::new();
    r.push(69u8);
    r.push(82u8);
    r.push(82u8);
    r.push(32u8);
    r.push(117u8);
    r.push(110u8);
    r.push(107u8);
    r.push(110u8);
    r.push(111u8);
    r.push(119u8);
    r.push(110u8);
    r.push(32u8);
    r.push(99u8);
    r.push(111u8);
    r.push(109u8);
    r.push(109u8);
    r.push(97u8);
    r.push(110u8);
    r.push(100u8);
    proof {
        assert(r@ =~= msg_unknown());
    }
    r
}

/// `"replication"` as bytes: the one understood info section.
pub open spec fn txt_replication() -> Seq<u8> {
    seq![114u8, 101u8, 112u8, 108u8, 105u8, 99u8, 97u8, 116u8, 105u8, 111u8, 110u8]
}

/// Builds `"replication"` as bytes.
pub fn make_replication() -> (r: Vec<u8>)
    ensures
        r@ == txt_replication(),
{
    let mut r: Vec<u8> = Vec::new();
    r.push(114u8);
    r.push(101u8);
    r.push(112u8);
    r.push(108u8);
    r.push(105u8);
    r.push(99u8);
    r.push(97u8);
    r.push(116u8);
    r.push(105u8);
    r.push(111u8);
    r.push(110u8);
    proof {
        assert(r@ =~= txt_replication());
    }
    r
}

/// `"role:"` as bytes: the first info line's key.
pub open spec fn txt_role_key() -> Seq<u8> {
    seq![114u8, 111u8, 108u8, 101u8, 58u8]
}

/// Builds `"role:"` as bytes.
pub fn make_role_key() -> (r: Vec<u8>)
    ensures
        r@ == txt_role_key(),
{
    let mut r: Vec<u8> = Vec::new();
    r.push(114u8);
    r.push(111u8);
    r.push(108u8);
    r.push(101u8);
    r.push(58u8);
    proof {
        assert(r@ =~= txt_role_key());
    }
    r
}

/// `"master"` as bytes: the master role text.
pub open spec fn txt_master() -> Seq<u8> {
    seq![109u8, 97u8, 115u8, 116u8, 101u8, 114u8]
}

/// Builds `"master"` as bytes.
pub fn make_master() -> (r: Vec<u8>)
    ensures
        r@ == txt_master(),
{
    let mut r: Vec<u8> = Vec::new();
    r.push(109u8);
    r.push(97u8);
    r.push(115u8);
    r.push(116u8);
    r.push(101u8);
    r.push(114u8);
    proof {
        assert(r@ =~= txt_master());
    }
    r
}

/// `"slave"` as bytes: the replica role text.
pub open spec fn txt_slave() -> Seq<u8> {
    seq![115u8, 108u8, 97u8, 118u8, 101u8]
}

/// Builds `"slave"` as bytes.
pub fn make_slave() -> (r: Vec<u8>)
    ensures
        r@ == txt_slave(),
{
    let mut r: Vec<u8> = Vec::new();
    r.push(115u8);
    r.push(108u8);
    r.push(97u8);
    r.push(118u8);
    r.push(101u8);
    proof {
        assert(r@ =~= txt_slave());
    }
    r
}

/// `"\nmaster_replid:"` as bytes: the second info line, joined by a line feed.
pub open spec fn txt_replid_key() -> Seq<u8> {
    seq![10u8, 109u8, 97u8, 115u8, 116u8, 101u8, 114u8, 95u8, 114u8, 101u8, 112u8, 108u8, 105u8, 100u8, 58u8]
}

/// Builds `"\nmaster_replid:"` as bytes.
pub fn make_replid_key() -> (r: Vec<u8>)
    ensures
        r@ == txt_replid_key(),
{
    let mut r: Vec<u8> = Vec::new();
    r.push(10u8);
    r.push(109u8);
    r.push(97u8);
    r.push(115u8);
    r.push(116u8);
    r.push(101u8);
    r.push(114u8);
    r.push(95u8);
    r.push(114u8);
    r.push(101u8);
    r.push(112u8);
    r.push(108u8);
    r.push(105u8);
    r.push(100u8);
    r.push(58u8);
    proof {
        assert(r@ =~= txt_replid_key());
    }
    r
}

/// `"\nmaster_repl_offset:"` as bytes: the third info line, joined by a line feed.
pub open spec fn txt_offset_key() -> Seq<u8> {
    seq![10u8, 109u8, 97u8, 115u8, 116u8, 101u8, 114u8, 95u8, 114u8, 101u8, 112u8, 108u8, 95u8, 111u8, 102u8, 102u8, 115u8, 101u8, 116u8, 58u8]
}

/// Builds `"\nmaster_repl_offset:"` as bytes.
pub fn make_offset_key() -> (r: Vec<u8>)
    ensures
        r@ == txt_offset_key(),
{
    let mut r: Vec<u8> = Vec::new();
    r.push(10u8);
    r.push(109u8);
    r.push(97u8);
    r.push(115u8);
    r.push(116u8);
    r.push(101u8);
    r.push(114u8);
    r.push(95u8);
    r.push(114u8);
    r.push(101u8);
    r.push(112u8);
    r.push(108u8);
    r.push(95u8);
    r.push(111u8);
    r.push(102u8);
    r.push(102u8);
    r.push(115u8);
    r.push(101u8);
    r.push(116u8);
    r.push(58u8);
    proof {
        assert(r@ =~= txt_offset_key());
    }
    r
}

/// `"FULL RESYNC "` as bytes: the resync announcement prefix.
pub open spec fn txt_fullresync() -> Seq<u8> {
    seq![70u8, 85u8, 76u8, 76u8, 32u8, 82u8, 69u8, 83u8, 89u8, 78u8, 67u8, 32u8]
}

/// Builds `"FULL RESYNC "` as bytes.
pub fn make_fullresync() -> (r: Vec<u8>)
    ensures
        r@ == txt_fullresync(),
{
    let mut r: Vec<u8> = Vec::new();
    r.push(70u8);
    r.push(85u8);
    r.push(76u8);
    r.push(76u8);
    r.push(32u8);
    r.push(82u8);
    r.push(69u8);
    r.push(83u8);
    r.push(89u8);
    r.push(78u8);
    r.push(67u8);
    r.push(32u8);
    proof {
        assert(r@ =~= txt_fullresync());
    }
    r
}

/// `" 0"` as bytes: the resync announcement suffix.
pub open spec fn txt_zero_offset() -> Seq<u8> {
    seq![32u8, 48u8]
}

/// Builds `" 0"` as bytes.
pub fn make_zero_offset() -> (r: Vec<u8>)
    ensures
        r@ == txt_zero_offset(),
{
    let mut r: Vec<u8> = Vec::new();
    r.push(32u8);
    r.push(48u8);
    proof {
        assert(r@ =~= txt_zero_offset());
    }
    r
}

/// `"Variant Not Found"` as bytes: the placeholder for unknown info sections.
pub open spec fn txt_placeholder() -> Seq<u8> {
    seq![86u8, 97u8, 114u8, 105u8, 97u8, 110u8, 116u8, 32u8, 78u8, 111u8, 116u8, 32u8, 70u8, 111u8, 117u8, 110u8, 100u8]
}

/// Builds `"Variant Not Found"` as bytes.
pub fn make_placeholder() -> (r: Vec<u8>)
    ensures
        r@ == txt_placeholder(),
{
    let mut r: Vec<u8> = Vec::new();
    r.push(86u8);
    r.push(97u8);
    r.push(114u8);
    r.push(105u8);
    r.push(97u8);
    r.push(110u8);
    r.push(116u8);
    r.push(32u8);
    r.push(78u8);
    r.push(111u8);
    r.push(116u8);
    r.push(32u8);
    r.push(70u8);
    r.push(111u8);
    r.push(117u8);
    r.push(110u8);
    r.push(100u8);
    proof {
        assert(r@ =~= txt_placeholder());
    }
    r
}


/// The role text shown by the info command.
pub open spec fn spec_role_text(role: Role) -> Seq<u8> {
    match role {
        Role::Master => txt_master(),
        Role::Replica => txt_slave(),
    }
}

/// The replication section of the info reply: role, replication id and
/// replication offset, as newline-joined `key:value` lines.
pub open spec fn spec_info_replication(meta: SpecMeta) -> Seq<u8> {
    txt_role_key() + spec_role_text(meta.role) + txt_replid_key() + meta.replid
        + txt_offset_key() + dec_digits(meta.repl_offset as nat)
}

/// The full-resync announcement line sent in reply to `PSYNC`.
pub open spec fn spec_fullresync_line(replid: Seq<u8>) -> Seq<u8> {
    txt_fullresync() + replid + txt_zero_offset()
}

/// Builds the replication section of the info reply.
pub fn info_replication(meta: &ServerMeta) -> (r: Vec<u8>)
    ensures
        r@ == spec_info_replication(meta@),
{
    let mut r = make_role_key();
    let role_text = match meta.role {
        Role::Master => make_master(),
        Role::Replica => make_slave(),
    };
    push_bytes(&mut r, &role_text);
    let replid_key = make_replid_key();
    push_bytes(&mut r, &replid_key);
    push_bytes(&mut r, &meta.replid);
    let offset_key = make_offset_key();
    push_bytes(&mut r, &offset_key);
    push_dec_u64(&mut r, meta.repl_offset);
    proof {
        assert(r@ =~= spec_info_replication(meta@));
    }
    r
}

/// Builds the full-resync announcement line.
pub fn fullresync_line(meta: &ServerMeta) -> (r: Vec<u8>)
    ensures
        r@ == spec_fullresync_line(meta@.replid),
{
    let mut r = make_fullresync();
    push_bytes(&mut r, &meta.replid);
    let suffix = make_zero_offset();
    push_bytes(&mut r, &suffix);
    proof {
        assert(r@ =~= spec_fullresync_line(meta@.replid));
    }
    r
}

/// The command and argument list carried by a value: a lone bulk string is a
/// zero-argument command; a non-null array names the command in a leading
/// bulk string. Every other shape is a protocol error.
pub open spec fn spec_extract(v: SpecValue) -> Option<(Seq<u8>, Seq<SpecValue>)> {
    match v {
        SpecValue::BulkString(x) => Some((x, Seq::<SpecValue>::empty())),
        SpecValue::Array(items) => if items.len() >= 1 && items[0] is BulkString {
            Some((items[0]->BulkString_0, items.subrange(1, items.len() as int)))
        } else {
            None
        },
        _ => None,
    }
}

/// Splits a decoded value into its command name and argument list.
pub fn extract_command(v: Value) -> (r: Option<(Vec<u8>, Vec<Value>)>)
    ensures
        ({
            match r {
                Some(p) => spec_extract(spec_value_of(v)) == Some((p.0@, spec_values_of(p.1@))),
                None => spec_extract(spec_value_of(v)) is None,
            }
        }),
{
    match v {
        Value::BulkString(x) => {
            let args: Vec<Value> = Vec::new();
            proof {
                assert(spec_values_of(args@) =~= Seq::<SpecValue>::empty());
            }
            Some((x, args))
        },
        Value::Array(items) => {
            if items.len() >= 1 {
                let ghost items0 = items@;
                let mut items = items;
                let first = items.remove(0);
                proof {
                    lemma_spec_values_of(items0);
                    lemma_spec_values_of(items@);
                    assert(items@ =~= items0.subrange(1, items0.len() as int));
                    assert(spec_values_of(items@) =~= spec_values_of(items0).subrange(
                        1,
                        items0.len() as int,
                    ));
                    assert(spec_values_of(items0)[0] == spec_value_of(first));
                }
                match first {
                    Value::BulkString(x) => Some((x, items)),
                    _ => None,
                }
            } else {
                None
            }
        },
        _ => None,
    }
}

/// Unwraps a bulk-string argument.
pub fn unpack_bulk_str(v: Value) -> (r: Option<Vec<u8>>)
    ensures
        ({
            match r {
                Some(b) => spec_value_of(v) == SpecValue::BulkString(b@),
                None => !(spec_value_of(v) is BulkString),
            }
        }),
{
    match v {
        Value::BulkString(b) => Some(b),
        _ => None,
    }
}

/// What one dispatched command does: the reply, the store afterwards,
/// whether the raw command is propagated to the replica sinks, and whether
/// this session now becomes one.
pub struct SpecDispatch {
    pub reply: SpecValue,
    pub store: Map<Seq<u8>, Seq<u8>>,
    pub propagate: bool,
    pub become_sink: bool,
}

/// An outcome that only replies, leaving everything else as it was.
pub open spec fn spec_no_action(reply: SpecValue, store: Map<Seq<u8>, Seq<u8>>) -> SpecDispatch {
    SpecDispatch { reply, store, propagate: false, become_sink: false }
}

/// The meaning of every command, on any store and metadata.
pub open spec fn spec_dispatch(
    name: Seq<u8>,
    args: Seq<SpecValue>,
    store0: Map<Seq<u8>, Seq<u8>>,
    meta: SpecMeta,
) -> SpecDispatch {
    match spec_command_kind(name) {
        CommandKind::Ping => spec_no_action(SpecValue::SimpleString(txt_pong()), store0),
        CommandKind::Echo => if args.len() == 1 {
            spec_no_action(args[0], store0)
        } else {
            spec_no_action(SpecValue::Error(msg_arity()), store0)
        },
        CommandKind::SetKey => if args.len() != 2 {
            spec_no_action(SpecValue::Error(msg_arity()), store0)
        } else if args[0] is BulkString && args[1] is BulkString {
            SpecDispatch {
                reply: SpecValue::SimpleString(txt_ok()),
                store: store0.insert(args[0]->BulkString_0, args[1]->BulkString_0),
                propagate: true,
                become_sink: false,
            }
        } else {
            spec_no_action(SpecValue::Error(msg_not_bulk()), store0)
        },
        CommandKind::GetKey => if args.len() != 1 {
            spec_no_action(SpecValue::Error(msg_arity()), store0)
        } else if args[0] is BulkString {
            if store0.contains_key(args[0]->BulkString_0) {
                spec_no_action(SpecValue::BulkString(store0[args[0]->BulkString_0]), store0)
            } else {
                spec_no_action(SpecValue::NullBulkString, store0)
            }
        } else {
            spec_no_action(SpecValue::Error(msg_not_bulk()), store0)
        },
        CommandKind::Incr => if args.len() != 1 {
            spec_no_action(SpecValue::Error(msg_arity()), store0)
        } else if args[0] is BulkString {
            match incr_new_value(store0, args[0]->BulkString_0) {
                Some(n) => SpecDispatch {
                    reply: SpecValue::Integer(n),
                    store: store0.insert(args[0]->BulkString_0, int_dec(n)),
                    propagate: true,
                    become_sink: false,
                },
                None => spec_no_action(SpecValue::Error(msg_not_integer()), store0),
            }
        } else {
            spec_no_action(SpecValue::Error(msg_not_bulk()), store0)
        },
        CommandKind::Info => if args.len() == 1 && args[0] is BulkString && args[0]->BulkString_0
            == txt_replication() {
            spec_no_action(SpecValue::BulkString(spec_info_replication(meta)), store0)
        } else {
            spec_no_action(SpecValue::BulkString(txt_placeholder()), store0)
        },
        CommandKind::Replconf => spec_no_action(SpecValue::SimpleString(txt_ok()), store0),
        CommandKind::Psync => SpecDispatch {
            reply: SpecValue::Array(
                seq![
                    SpecValue::SimpleString(spec_fullresync_line(meta.replid)),
                    SpecValue::BulkString(meta.snapshot),
                ],
            ),
            store: store0,
            propagate: false,
            become_sink: true,
        },
        CommandKind::Unknown => spec_no_action(SpecValue::Error(msg_unknown()), store0),
    }
}

/// The outcome of one dispatched command.
pub struct Dispatch {
    pub reply: Value,
    pub propagate: bool,
    pub become_sink: bool,
}

/// Performs one command against the store and the server metadata.
pub fn dispatch(name: &Vec<u8>, args: Vec<Value>, store: &mut Store, meta: &ServerMeta) -> (r:
    Dispatch)
    requires
        old(store).wf(),
    ensures
        final(store).wf(),
        ({
            let d = spec_dispatch(name@, spec_values_of(args@), old(store)@, meta@);
            r.reply@ == d.reply && final(store)@ == d.store && r.propagate == d.propagate
                && r.become_sink == d.become_sink
        }),
{
    let ghost args_model = spec_values_of(args@);
    proof {
        lemma_spec_values_of(args@);
    }
    let kind = command_kind(name);
    match kind {
        CommandKind::Ping => Dispatch {
            reply: Value::SimpleString(make_pong()),
            propagate: false,
            become_sink: false,
        },
        CommandKind::Echo => {
            if args.len() == 1 {
                let mut args = args;
                let a = args.remove(0);
                Dispatch { reply: a, propagate: false, become_sink: false }
            } else {
                Dispatch {
                    reply: Value::Error(make_msg_arity()),
                    propagate: false,
                    become_sink: false,
                }
            }
        },
        CommandKind::SetKey => {
            if args.len() != 2 {
                Dispatch {
                    reply: Value::Error(make_msg_arity()),
                    propagate: false,
                    become_sink: false,
                }
            } else {
                let ghost args0 = args@;
                let mut args = args;
                let a0 = args.remove(0);
                let a1 = args.remove(0);
                proof {
                    assert(a1 == args0[1]);
                }
                match a0 {
                    Value::BulkString(k) => match a1 {
                        Value::BulkString(v) => {
                            store.set(k, v);
                            Dispatch {
                                reply: Value::SimpleString(make_ok()),
                                propagate: true,
                                become_sink: false,
                            }
                        },
                        _ => Dispatch {
                            reply: Value::Error(make_msg_not_bulk()),
                            propagate: false,
                            become_sink: false,
                        },
                    },
                    _ => Dispatch {
                        reply: Value::Error(make_msg_not_bulk()),
                        propagate: false,
                        become_sink: false,
                    },
                }
            }
        },
        CommandKind::GetKey => {
            if args.len() != 1 {
                Dispatch {
                    reply: Value::Error(make_msg_arity()),
                    propagate: false,
                    become_sink: false,
                }
            } else {
                let mut args = args;
                let a = args.remove(0);
                match a {
                    Value::BulkString(k) => match store.get(&k) {
                        Some(v) => Dispatch {
                            reply: Value::BulkString(v),
                            propagate: false,
                            become_sink: false,
                        },
                        None => Dispatch {
                            reply: Value::NullBulkString,
                            propagate: false,
                            become_sink: false,
                        },
                    },
                    _ => Dispatch {
                        reply: Value::Error(make_msg_not_bulk()),
                        propagate: false,
                        become_sink: false,
                    },
                }
            }
        },
        CommandKind::Incr => {
            if args.len() != 1 {
                Dispatch {
                    reply: Value::Error(make_msg_arity()),
                    propagate: false,
                    become_sink: false,
                }
            } else {
                let mut args = args;
                let a = args.remove(0);
                match a {
                    Value::BulkString(k) => match store.increment(k) {
                        Ok(n) => Dispatch {
                            reply: Value::Integer(n),
                            propagate: true,
                            become_sink: false,
                        },
                        Err(_) => Dispatch {
                            reply: Value::Error(make_msg_not_integer()),
                            propagate: false,
                            become_sink: false,
                        },
                    },
                    _ => Dispatch {
                        reply: Value::Error(make_msg_not_bulk()),
                        propagate: false,
                        become_sink: false,
                    },
                }
            }
        },
        CommandKind::Info => {
            let mut known_section = false;
            if args.len() == 1 {
                match &args[0] {
                    Value::BulkString(sec) => {
                        let repl = make_replication();
                        if bytes_eq(sec, &repl) {
                            known_section = true;
                        }
                    },
                    _ => {},
                }
            }
            if known_section {
                Dispatch {
                    reply: Value::BulkString(info_replication(meta)),
                    propagate: false,
                    become_sink: false,
                }
            } else {
                Dispatch {
                    reply: Value::BulkString(make_placeholder()),
                    propagate: false,
                    become_sink: false,
                }
            }
        },
        CommandKind::Replconf => Dispatch {
            reply: Value::SimpleString(make_ok()),
            propagate: false,
            become_sink: false,
        },
        CommandKind::Psync => {
            let line = fullresync_line(meta);
            let snap = clone_bytes(&meta.snapshot);
            let v0 = Value::SimpleString(line);
            let v1 = Value::BulkString(snap);
            let ghost m0 = spec_value_of(v0);
            let ghost m1 = spec_value_of(v1);
            proof {
                assert(m0 == SpecValue::SimpleString(spec_fullresync_line(meta@.replid)));
                assert(m1 == SpecValue::BulkString(meta@.snapshot));
            }
            let mut arr: Vec<Value> = Vec::new();
            arr.push(v0);
            arr.push(v1);
            proof {
                lemma_spec_values_of(arr@);
                assert(arr@.len() == 2);
                assert(arr@[0] == v0);
                assert(arr@[1] == v1);
                assert(spec_values_of(arr@)[0] == m0);
                assert(spec_values_of(arr@)[1] == m1);
                assert(spec_values_of(arr@) =~= seq![m0, m1]);
            }
            Dispatch { reply: Value::Array(arr), propagate: false, become_sink: true }
        },
        CommandKind::Unknown => Dispatch {
            reply: Value::Error(make_msg_unknown()),
            propagate: false,
            become_sink: false,
        },
    }
}


/// The byte is an ASCII hex digit, either case.
pub open spec fn is_hex_digit(b: u8) -> bool {
    (48 <= b <= 57) || (97 <= b <= 102) || (65 <= b <= 70)
}

/// The value of an ASCII hex digit.
pub open spec fn hex_digit_val(b: u8) -> int {
    if 48 <= b <= 57 {
        b - 48
    } else if 97 <= b <= 102 {
        b - 87
    } else if 65 <= b <= 70 {
        b - 55
    } else {
        0
    }
}

/// The bytes denoted by hex text, two digits to a byte, high digit first.
pub open spec fn hex_bytes(s: Seq<u8>) -> Seq<u8> {
    Seq::new((s.len() / 2) as nat, |i: int| (hex_digit_val(s[2 * i]) * 16 + hex_digit_val(s[2 * i + 1])) as u8)
}

/// Hex text that decodes: an even number of digits, nothing else.
pub open spec fn valid_hex(s: Seq<u8>) -> bool {
    s.len() % 2 == 0 && forall|i: int| 0 <= i < s.len() ==> is_hex_digit(#[trigger] s[i])
}

/// Relies on hex::decode: it yields one byte per digit pair, the first
/// digit scaled by sixteen, and refuses odd-length input or any character
/// that is not a hex digit, either case.
#[verifier::external_body]
fn decode_hex(text: &Vec<u8>) -> (r: Option<Vec<u8>>)
    ensures
        ({
            match r {
                Some(b) => valid_hex(text@) && b@ == hex_bytes(text@),
                None => !valid_hex(text@),
            }
        }),
{
    hex::decode(text.as_slice()).ok()
}

/// Builds the server metadata from what the bootstrap layer hands in: the
/// role, the replication id, and the opaque snapshot blob as hex text. A
/// replication id holding a line terminator, or snapshot text that is not
/// hex, is refused.
pub fn server_meta_from_config(role: Role, replid: Vec<u8>, snapshot_hex: &Vec<u8>) -> (r: Option<
    ServerMeta,
>)
    ensures
        ({
            match r {
                Some(m) => m.wf() && m.role == role && m@.replid == replid@ && m@.repl_offset
                    == 0 && valid_hex(snapshot_hex@) && m@.snapshot == hex_bytes(snapshot_hex@),
                None => !valid_hex(snapshot_hex@) || exists|i: int|
                    0 <= i < replid@.len() && ((#[trigger] replid@[i]) == CR || replid@[i] == LF),
            }
        }),
{
    let mut i: usize = 0;
    while i < replid.len()
        invariant
            i <= replid.len(),
            forall|j: int| 0 <= j < i ==> replid@[j] != CR && (#[trigger] replid@[j]) != LF,
        decreases replid.len() - i,
    {
        if replid[i] == CR || replid[i] == LF {
            return None;
        }
        i = i + 1;
    }
    match decode_hex(snapshot_hex) {
        Some(snapshot) => Some(ServerMeta { role, replid, repl_offset: 0, snapshot }),
        None => None,
    }
}


/// Setting a key and then getting it back — in the same session or another,
/// under the same metadata or other metadata — replies exactly the value
/// just stored, and the set is propagated to the replica sinks; getting a
/// key that was never set replies the null bulk string, which is a reply and
/// not an error.
pub proof fn lemma_set_then_get(
    store0: Map<Seq<u8>, Seq<u8>>,
    k: Seq<u8>,
    v: Seq<u8>,
    meta1: SpecMeta,
    meta2: SpecMeta,
    name_set: Seq<u8>,
    name_get: Seq<u8>,
)
    requires
        spec_command_kind(name_set) == CommandKind::SetKey,
        spec_command_kind(name_get) == CommandKind::GetKey,
    ensures
        ({
            let d1 = spec_dispatch(
                name_set,
                seq![SpecValue::BulkString(k), SpecValue::BulkString(v)],
                store0,
                meta1,
            );
            let d2 = spec_dispatch(name_get, seq![SpecValue::BulkString(k)], d1.store, meta2);
            d1.reply == SpecValue::SimpleString(txt_ok()) && d1.propagate && d2.reply
                == SpecValue::BulkString(v) && d2.store == d1.store
        }),
        !store0.contains_key(k) ==> spec_dispatch(
            name_get,
            seq![SpecValue::BulkString(k)],
            store0,
            meta2,
        ).reply == SpecValue::NullBulkString,
{
}


/// A command that propagates — an accepted write — neither reads the server
/// metadata nor turns its session into a sink: its reply and its effect on
/// the store are the same under any metadata.
pub proof fn lemma_propagating_dispatch_ignores_meta(
    name: Seq<u8>,
    args: Seq<SpecValue>,
    store0: Map<Seq<u8>, Seq<u8>>,
    meta1: SpecMeta,
    meta2: SpecMeta,
)
    ensures
        spec_dispatch(name, args, store0, meta1).propagate ==> spec_dispatch(
            name,
            args,
            store0,
            meta2,
        ) == spec_dispatch(name, args, store0, meta1) && !spec_dispatch(
            name,
            args,
            store0,
            meta1,
        ).become_sink,
{
}

} // verus!
