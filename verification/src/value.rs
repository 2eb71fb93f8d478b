//! The tagged value tree carried by the wire protocol, with its mathematical
//! model and the well-formedness condition that the codec preserves.

use vstd::prelude::*;

verus! {

broadcast use vstd::std_specs::vec::axiom_vec_index_decreases;

/// Carriage return, the first byte of the line terminator.
pub const CR: u8 = 13;

/// Line feed, the second byte of the line terminator.
pub const LF: u8 = 10;

/// A wire-protocol value. Bulk strings and arrays are nullable; the null
/// forms are distinct variants so that every value has exactly one encoding.
#[derive(Debug, PartialEq, Eq)]
pub enum Value {
    /// A one-line text reply (`+...`), free of CR and LF.
    SimpleString(Vec<u8>),
    /// A one-line error reply (`-...`), free of CR and LF.
    Error(Vec<u8>),
    /// A signed decimal integer reply (`:...`).
    Integer(i64),
    /// A length-prefixed binary string (`$<len>...`); may hold any bytes.
    BulkString(Vec<u8>),
    /// The null bulk string (`$-1`), the distinguished "not found" reply.
    NullBulkString,
    /// An ordered sequence of values (`*<count>...`).
    Array(Vec<Value>),
    /// The null array (`*-1`).
    NullArray,
}

/// The mathematical model of a `Value`: the same tree over `Seq` and `int`.
pub enum SpecValue {
    SimpleString(Seq<u8>),
    Error(Seq<u8>),
    Integer(int),
    BulkString(Seq<u8>),
    NullBulkString,
    Array(Seq<SpecValue>),
    NullArray,
}

impl SpecValue {
    /// A value the codec can represent: line payloads hold no terminator
    /// bytes and integers fit the wire type.
    pub open spec fn wf(self) -> bool
        decreases self,
    {
        match self {
            SpecValue::SimpleString(s) => forall|i: int|
                0 <= i < s.len() ==> s[i] != CR && s[i] != LF,
            SpecValue::Error(s) => forall|i: int|
                0 <= i < s.len() ==> s[i] != CR && s[i] != LF,
            SpecValue::Integer(n) => i64::MIN <= n <= i64::MAX,
            SpecValue::BulkString(_) => true,
            SpecValue::NullBulkString => true,
            SpecValue::Array(items) => wf_elems(items),
            SpecValue::NullArray => true,
        }
    }
}

/// The model of one exec value.
pub open spec fn spec_value_of(v: Value) -> SpecValue
    decreases v,
{
    match v {
        Value::SimpleString(s) => SpecValue::SimpleString(s@),
        Value::Error(s) => SpecValue::Error(s@),
        Value::Integer(n) => SpecValue::Integer(n as int),
        Value::BulkString(s) => SpecValue::BulkString(s@),
        Value::NullBulkString => SpecValue::NullBulkString,
        Value::Array(items) => SpecValue::Array(spec_values_of(items@)),
        Value::NullArray => SpecValue::NullArray,
    }
}

/// The models of a sequence of exec values, in order.
pub open spec fn spec_values_of(items: Seq<Value>) -> Seq<SpecValue>
    decreases items,
{
    if items.len() == 0 {
        Seq::empty()
    } else {
        seq![spec_value_of(items[0])] + spec_values_of(
            items.subrange(1, items.len() as int),
        )
    }
}

impl View for Value {
    type V = SpecValue;

    open spec fn view(&self) -> SpecValue {
        spec_value_of(*self)
    }
}

/// Pointwise facts about `spec_values_of`, for reasoning about one element.
pub proof fn lemma_spec_values_of(items: Seq<Value>)
    ensures
        spec_values_of(items).len() == items.len(),
        forall|i: int|
            0 <= i < items.len() ==> spec_values_of(items)[i] == spec_value_of(
                #[trigger] items[i],
            ),
    decreases items,
{
    if items.len() > 0 {
        let tail = items.subrange(1, items.len() as int);
        lemma_spec_values_of(tail);
        assert forall|i: int|
            0 <= i < items.len() implies spec_values_of(items)[i] == spec_value_of(
            #[trigger] items[i],
        ) by {
            if i > 0 {
                assert(tail[i - 1] == items[i]);
            }
        }
    }
}

/// Compares two byte strings for equality.
pub fn bytes_eq(a: &Vec<u8>, b: &Vec<u8>) -> (r: bool)
    ensures
        r == (a@ == b@),
{
    if a.len() != b.len() {
        return false;
    }
    let mut i: usize = 0;
    while i < a.len()
        invariant
            i <= a.len(),
            a.len() == b.len(),
            forall|j: int| 0 <= j < i ==> a@[j] == b@[j],
        decreases a.len() - i,
    {
        if a[i] != b[i] {
            return false;
        }
        i = i + 1;
    }
    proof {
        assert(a@ =~= b@);
    }
    true
}

/// Copies a byte string.
pub fn clone_bytes(src: &Vec<u8>) -> (r: Vec<u8>)
    ensures
        r@ == src@,
{
    let mut r: Vec<u8> = Vec::new();
    let mut i: usize = 0;
    while i < src.len()
        invariant
            i <= src.len(),
            r@ == src@.subrange(0, i as int),
        decreases src.len() - i,
    {
        r.push(src[i]);
        proof {
            assert(r@ =~= src@.subrange(0, i + 1));
        }
        i = i + 1;
    }
    proof {
        assert(r@ =~= src@);
    }
    r
}

/// Every value of the sequence is well-formed.
pub open spec fn wf_elems(items: Seq<SpecValue>) -> bool
    decreases items,
{
    items.len() == 0 || (items[0].wf() && wf_elems(items.subrange(1, items.len() as int)))
}

} // verus!
