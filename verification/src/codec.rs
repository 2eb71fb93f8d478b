//! The wire codec: a tagged value tree is framed as
//! `+line`, `-line`, `:int`, `$<len>payload` or `*<count>values...`,
//! every line ending in CRLF. Decoding consumes at most one complete
//! top-level value and reports when the buffer holds only part of one;
//! encoding is the exact inverse, byte for byte.

use vstd::prelude::*;

use crate::num::all_digits;
use crate::num::read_i64;
use crate::num::read_magnitude;
use crate::num::Magnitude;
use crate::num::push_dec_i64;
use crate::num::push_dec_u64;
use crate::value::spec_value_of;
use crate::value::spec_values_of;
use crate::value::lemma_spec_values_of;
use crate::value::Value;
use crate::num::dec_digits;
use crate::num::dec_val;
use crate::num::int_dec;
use crate::num::is_digit;
use crate::num::lemma_dec_digits_shape;
use crate::num::lemma_dec_val_nonneg;
use crate::num::lemma_dec_val_of_digits;
use crate::num::parse_i64;
use crate::num::MINUS;
use crate::value::SpecValue;
use crate::value::CR;
use crate::value::LF;

verus! {

/// ASCII '+', the simple-string tag.
pub const PLUS: u8 = 43;

/// ASCII ':', the integer tag.
pub const COLON: u8 = 58;

/// ASCII '$', the bulk-string tag.
pub const DOLLAR: u8 = 36;

/// ASCII '*', the array tag.
pub const STAR: u8 = 42;

/// ASCII '1', the digit of the null sentinel `-1`.
pub const D1: u8 = 49;

/// What a decode attempt yields: one value and the bytes it took, a report
/// that the buffer ends before the value does, or a protocol error.
pub enum SpecDecoded {
    Val(SpecValue, int),
    More,
    Fail,
}

/// Decode outcome for a run of consecutive values.
pub enum SpecElems {
    Val(Seq<SpecValue>, int),
    More,
    Fail,
}

/// Decode outcome for one CRLF-terminated line.
pub enum SpecLine {
    Val(Seq<u8>, int),
    More,
    Fail,
}

/// The index of the first carriage return or line feed, if any.
pub open spec fn line_break(s: Seq<u8>) -> Option<int>
    decreases s.len(),
{
    if s.len() == 0 {
        None
    } else if s[0] == CR || s[0] == LF {
        Some(0)
    } else {
        match line_break(s.subrange(1, s.len() as int)) {
            Some(i) => Some(i + 1),
            None => None,
        }
    }
}

/// One line: the bytes before the first CR, which must be followed by LF.
/// A line feed before any carriage return, or a carriage return followed by
/// anything else, is a protocol error; a buffer with no terminator yet is
/// incomplete. The count includes the terminator.
pub open spec fn spec_line(s: Seq<u8>) -> SpecLine {
    match line_break(s) {
        None => SpecLine::More,
        Some(i) => if s[i] == LF {
            SpecLine::Fail
        } else if i + 1 >= s.len() {
            SpecLine::More
        } else if s[i + 1] == LF {
            SpecLine::Val(s.subrange(0, i), i + 2)
        } else {
            SpecLine::Fail
        },
    }
}

/// The null sentinel `-1`, the one negative length that is not an error.
pub open spec fn null_sentinel() -> Seq<u8> {
    seq![MINUS, D1]
}

/// Decodes one value from the front of `s`.
pub open spec fn spec_decode(s: Seq<u8>) -> SpecDecoded
    decreases s.len(), 0int,
{
    if s.len() == 0 {
        SpecDecoded::More
    } else {
        let rest = s.subrange(1, s.len() as int);
        if s[0] == PLUS {
            match spec_line(rest) {
                SpecLine::Val(c, n) => SpecDecoded::Val(SpecValue::SimpleString(c), 1 + n),
                SpecLine::More => SpecDecoded::More,
                SpecLine::Fail => SpecDecoded::Fail,
            }
        } else if s[0] == MINUS {
            match spec_line(rest) {
                SpecLine::Val(c, n) => SpecDecoded::Val(SpecValue::Error(c), 1 + n),
                SpecLine::More => SpecDecoded::More,
                SpecLine::Fail => SpecDecoded::Fail,
            }
        } else if s[0] == COLON {
            match spec_line(rest) {
                SpecLine::Val(c, n) => match parse_i64(c) {
                    Some(v) => SpecDecoded::Val(SpecValue::Integer(v), 1 + n),
                    None => SpecDecoded::Fail,
                },
                SpecLine::More => SpecDecoded::More,
                SpecLine::Fail => SpecDecoded::Fail,
            }
        } else if s[0] == DOLLAR {
            match spec_line(rest) {
                SpecLine::Val(c, n) => if c == null_sentinel() {
                    SpecDecoded::Val(SpecValue::NullBulkString, 1 + n)
                } else if c.len() >= 1 && all_digits(c) {
                    let len = dec_val(c);
                    if s.len() < 1 + n + len + 2 {
                        SpecDecoded::More
                    } else if s[1 + n + len] == CR && s[1 + n + len + 1] == LF {
                        SpecDecoded::Val(
                            SpecValue::BulkString(s.subrange(1 + n, 1 + n + len)),
                            1 + n + len + 2,
                        )
                    } else {
                        SpecDecoded::Fail
                    }
                } else {
                    SpecDecoded::Fail
                },
                SpecLine::More => SpecDecoded::More,
                SpecLine::Fail => SpecDecoded::Fail,
            }
        } else if s[0] == STAR {
            match spec_line(rest) {
                SpecLine::Val(c, n) => if c == null_sentinel() {
                    SpecDecoded::Val(SpecValue::NullArray, 1 + n)
                } else if c.len() >= 1 && all_digits(c) {
                    let count = dec_val(c);
                    // The three checks cannot fail: a line takes at least two
                    // bytes of `rest` and a digit string denotes a natural
                    // number. They keep the recursion manifestly bounded.
                    if n < 2 || 1 + n > s.len() || count < 0 {
                        SpecDecoded::Fail
                    } else {
                        match spec_elems(s.subrange(1 + n, s.len() as int), count) {
                            SpecElems::Val(vs, m) => SpecDecoded::Val(
                                SpecValue::Array(vs),
                                1 + n + m,
                            ),
                            SpecElems::More => SpecDecoded::More,
                            SpecElems::Fail => SpecDecoded::Fail,
                        }
                    }
                } else {
                    SpecDecoded::Fail
                },
                SpecLine::More => SpecDecoded::More,
                SpecLine::Fail => SpecDecoded::Fail,
            }
        } else {
            SpecDecoded::Fail
        }
    }
}

/// Decodes `n` consecutive values from the front of `s`.
pub open spec fn spec_elems(s: Seq<u8>, n: int) -> SpecElems
    decreases s.len(), n,
{
    if n <= 0 {
        SpecElems::Val(Seq::empty(), 0)
    } else {
        match spec_decode(s) {
            SpecDecoded::Val(v, c) => {
                // A decoded value always takes between one byte and the whole
                // buffer; the check keeps the recursion manifestly bounded.
                if c < 1 || c > s.len() {
                    SpecElems::Fail
                } else {
                    match spec_elems(s.subrange(c, s.len() as int), n - 1) {
                        SpecElems::Val(vs, m) => SpecElems::Val(seq![v] + vs, c + m),
                        SpecElems::More => SpecElems::More,
                        SpecElems::Fail => SpecElems::Fail,
                    }
                }
            },
            SpecDecoded::More => SpecElems::More,
            SpecDecoded::Fail => SpecElems::Fail,
        }
    }
}

/// Encodes one value as wire bytes.
pub open spec fn spec_encode(v: SpecValue) -> Seq<u8>
    decreases v,
{
    match v {
        SpecValue::SimpleString(s) => seq![PLUS] + s + seq![CR, LF],
        SpecValue::Error(s) => seq![MINUS] + s + seq![CR, LF],
        SpecValue::Integer(i) => seq![COLON] + int_dec(i) + seq![CR, LF],
        SpecValue::BulkString(p) => seq![DOLLAR] + dec_digits(p.len()) + seq![CR, LF] + p
            + seq![CR, LF],
        SpecValue::NullBulkString => seq![DOLLAR, MINUS, D1, CR, LF],
        SpecValue::Array(items) => seq![STAR] + dec_digits(items.len()) + seq![CR, LF]
            + spec_encode_elems(items),
        SpecValue::NullArray => seq![STAR, MINUS, D1, CR, LF],
    }
}

/// Encodes a run of values, in order.
pub open spec fn spec_encode_elems(items: Seq<SpecValue>) -> Seq<u8>
    decreases items,
{
    if items.len() == 0 {
        Seq::empty()
    } else {
        spec_encode(items[0]) + spec_encode_elems(items.subrange(1, items.len() as int))
    }
}

/// Where a line is found, its break index is inside the buffer, everything
/// before it is clean, and the reported count covers content plus terminator.
pub proof fn lemma_line_break_bounds(s: Seq<u8>)
    ensures
        match line_break(s) {
            Some(i) => 0 <= i < s.len() && (s[i] == CR || s[i] == LF) && forall|j: int|
                0 <= j < i ==> s[j] != CR && s[j] != LF,
            None => forall|j: int| 0 <= j < s.len() ==> s[j] != CR && s[j] != LF,
        },
    decreases s.len(),
{
    if s.len() > 0 && s[0] != CR && s[0] != LF {
        let tail = s.subrange(1, s.len() as int);
        lemma_line_break_bounds(tail);
        match line_break(tail) {
            Some(i) => {
                assert(s[i + 1] == tail[i]);
                assert forall|j: int| 0 <= j < i + 1 implies s[j] != CR && s[j] != LF by {
                    if j > 0 {
                        assert(s[j] == tail[j - 1]);
                    }
                }
            },
            None => {
                assert forall|j: int| 0 <= j < s.len() implies s[j] != CR && s[j] != LF by {
                    if j > 0 {
                        assert(s[j] == tail[j - 1]);
                    }
                }
            },
        }
    }
}

/// The break index of a buffer whose first `m` bytes are clean and whose
/// byte `m`, where present, is a terminator byte.
pub proof fn lemma_line_break_first(s: Seq<u8>, m: int)
    requires
        0 <= m <= s.len(),
        forall|j: int| 0 <= j < m ==> s[j] != CR && s[j] != LF,
        m < s.len() ==> (s[m] == CR || s[m] == LF),
    ensures
        line_break(s) == if m < s.len() {
            Some(m)
        } else {
            None::<int>
        },
    decreases m,
{
    if s.len() == 0 {
    } else if m == 0 {
    } else {
        let tail = s.subrange(1, s.len() as int);
        assert(forall|j: int| 0 <= j < tail.len() ==> tail[j] == #[trigger] s[j + 1]);
        lemma_line_break_first(tail, m - 1);
    }
}

/// What `spec_line` yields on a clean line followed by its terminator and
/// arbitrary further bytes.
pub proof fn lemma_line_of_encoded(content: Seq<u8>, rest: Seq<u8>)
    requires
        forall|j: int| 0 <= j < content.len() ==> content[j] != CR && content[j] != LF,
    ensures
        spec_line(content + seq![CR, LF] + rest) == SpecLine::Val(
            content,
            content.len() as int + 2,
        ),
{
    let s = content + seq![CR, LF] + rest;
    let m = content.len() as int;
    assert(forall|j: int| 0 <= j < m ==> s[j] == #[trigger] content[j]);
    assert(s[m] == CR && s[m + 1] == LF);
    lemma_line_break_first(s, m);
    assert(s.subrange(0, m) =~= content);
}

/// Bounds carried by every successful line decode.
pub proof fn lemma_spec_line_bounds(s: Seq<u8>)
    ensures
        match spec_line(s) {
            SpecLine::Val(c, n) => 2 <= n <= s.len() && c == s.subrange(0, n - 2) && c.len() == n
                - 2 && forall|j: int| 0 <= j < c.len() ==> c[j] != CR && c[j] != LF,
            _ => true,
        },
{
    lemma_line_break_bounds(s);
    match spec_line(s) {
        SpecLine::Val(c, n) => {
            let i = n - 2;
            assert(forall|j: int| 0 <= j < i ==> c[j] == #[trigger] s[j]);
        },
        _ => {},
    }
}

/// Every encoding takes at least one byte.
pub proof fn lemma_encode_nonempty(v: SpecValue)
    ensures
        spec_encode(v).len() >= 1,
{
}

/// Decoding the encoding of a well-formed value, whatever bytes follow it,
/// yields that value and consumes exactly the encoding.
#[verifier::rlimit(100)]
#[verifier::spinoff_prover]
pub proof fn lemma_decode_encode(v: SpecValue, tail: Seq<u8>)
    requires
        v.wf(),
    ensures
        spec_decode(spec_encode(v) + tail) == SpecDecoded::Val(v, spec_encode(v).len() as int),
    decreases v,
{
    let e = spec_encode(v);
    let s = e + tail;
    match v {
        SpecValue::SimpleString(c) => {
            assert(s[0] == PLUS);
            assert(s.subrange(1, s.len() as int) =~= c + seq![CR, LF] + tail);
            lemma_line_of_encoded(c, tail);
        },
        SpecValue::Error(c) => {
            assert(s[0] == MINUS);
            assert(s.subrange(1, s.len() as int) =~= c + seq![CR, LF] + tail);
            lemma_line_of_encoded(c, tail);
        },
        SpecValue::Integer(i) => {
            assert(s[0] == COLON);
            let c = int_dec(i);
            crate::num::lemma_parse_int_dec(i);
            assert(s.subrange(1, s.len() as int) =~= c + seq![CR, LF] + tail);
            assert forall|j: int| 0 <= j < c.len() implies c[j] != CR && c[j] != LF by {
                assert(is_digit(c[j]) || c[j] == MINUS);
            }
            lemma_line_of_encoded(c, tail);
        },
        SpecValue::NullBulkString => {
            assert(s[0] == DOLLAR);
            assert(s.subrange(1, s.len() as int) =~= null_sentinel() + seq![CR, LF] + tail);
            lemma_line_of_encoded(null_sentinel(), tail);
        },
        SpecValue::BulkString(p) => {
            assert(s[0] == DOLLAR);
            let dd = dec_digits(p.len());
            lemma_dec_digits_shape(p.len());
            lemma_dec_val_of_digits(p.len());
            let after = p + seq![CR, LF] + tail;
            assert(s.subrange(1, s.len() as int) =~= dd + seq![CR, LF] + after);
            assert forall|j: int| 0 <= j < dd.len() implies dd[j] != CR && dd[j] != LF by {
                assert(is_digit(dd[j]));
            }
            lemma_line_of_encoded(dd, after);
            assert(is_digit(dd[0]));
            assert(dd != null_sentinel());
            let n = dd.len() as int + 2;
            let len = p.len() as int;
            assert(s.len() >= 1 + n + len + 2);
            assert forall|k: int| 0 <= k < len implies s[1 + n + k] == p[k] by {
                assert(e[1 + n + k] == p[k]);
            }
            assert(s[1 + n + len] == CR && s[1 + n + len + 1] == LF) by {
                assert(e[1 + n + len] == CR && e[1 + n + len + 1] == LF);
            }
            assert(s.subrange(1 + n, 1 + n + len) =~= p);
        },
        SpecValue::NullArray => {
            assert(s[0] == STAR);
            assert(s.subrange(1, s.len() as int) =~= null_sentinel() + seq![CR, LF] + tail);
            lemma_line_of_encoded(null_sentinel(), tail);
        },
        SpecValue::Array(items) => {
            assert(s[0] == STAR);
            let dd = dec_digits(items.len());
            lemma_dec_digits_shape(items.len());
            lemma_dec_val_of_digits(items.len());
            let body = spec_encode_elems(items);
            let after = body + tail;
            assert(s.subrange(1, s.len() as int) =~= dd + seq![CR, LF] + after);
            assert forall|j: int| 0 <= j < dd.len() implies dd[j] != CR && dd[j] != LF by {
                assert(is_digit(dd[j]));
            }
            lemma_line_of_encoded(dd, after);
            assert(is_digit(dd[0]));
            assert(dd != null_sentinel());
            let n = dd.len() as int + 2;
            assert(s.subrange(1 + n, s.len() as int) =~= after);
            lemma_decode_encode_elems(items, tail);
        },
    }
}

/// Decoding the concatenated encodings of well-formed values, whatever bytes
/// follow them, yields those values in order.
pub proof fn lemma_decode_encode_elems(items: Seq<SpecValue>, tail: Seq<u8>)
    requires
        crate::value::wf_elems(items),
    ensures
        spec_elems(spec_encode_elems(items) + tail, items.len() as int) == SpecElems::Val(
            items,
            spec_encode_elems(items).len() as int,
        ),
    decreases items,
{
    if items.len() == 0 {
        assert(spec_encode_elems(items) + tail =~= tail);
        assert(Seq::<SpecValue>::empty() =~= items);
    } else {
        let head = items[0];
        let rest_items = items.subrange(1, items.len() as int);
        let e0 = spec_encode(head);
        let erest = spec_encode_elems(rest_items);
        let s = spec_encode_elems(items) + tail;
        assert(s =~= e0 + (erest + tail));
        lemma_decode_encode(head, erest + tail);
        lemma_encode_nonempty(head);
        assert(s.subrange(e0.len() as int, s.len() as int) =~= erest + tail);
        lemma_decode_encode_elems(rest_items, tail);
        assert(seq![head] + rest_items =~= items);
    }
}

/// Round trip: decoding the encoding of any well-formed value yields that
/// value back and consumes exactly the encoding, with no byte to spare.
pub proof fn lemma_round_trip(v: SpecValue)
    requires
        v.wf(),
    ensures
        spec_decode(spec_encode(v)) == SpecDecoded::Val(v, spec_encode(v).len() as int),
{
    lemma_decode_encode(v, Seq::empty());
    assert(spec_encode(v) + Seq::<u8>::empty() =~= spec_encode(v));
}

/// Encoding one more value extends the encoding of a run.
pub proof fn lemma_encode_elems_snoc(items: Seq<SpecValue>, v: SpecValue)
    ensures
        spec_encode_elems(items.push(v)) == spec_encode_elems(items) + spec_encode(v),
    decreases items,
{
    let w = items.push(v);
    if items.len() == 0 {
        assert(w[0] == v);
        assert(w.subrange(1, w.len() as int) =~= Seq::<SpecValue>::empty());
        assert(spec_encode(v) + spec_encode_elems(Seq::empty()) =~= spec_encode(v));
        assert(spec_encode_elems(items) + spec_encode(v) =~= spec_encode(v));
    } else {
        let items_tail = items.subrange(1, items.len() as int);
        assert(w[0] == items[0]);
        assert(w.subrange(1, w.len() as int) =~= items_tail.push(v));
        lemma_encode_elems_snoc(items_tail, v);
        assert(spec_encode(items[0]) + (spec_encode_elems(items_tail) + spec_encode(v)) =~= (
        spec_encode(items[0]) + spec_encode_elems(items_tail)) + spec_encode(v));
    }
}

/// Past a given count, the number of values asked of a buffer no longer
/// matters: each value takes at least one byte, so the buffer runs out first.
pub proof fn lemma_elems_saturate(s: Seq<u8>, n1: int, n2: int)
    requires
        n1 > s.len(),
        n2 > s.len(),
    ensures
        spec_elems(s, n1) == spec_elems(s, n2),
    decreases s.len(),
{
    match spec_decode(s) {
        SpecDecoded::Val(v, c) => {
            if 1 <= c <= s.len() {
                lemma_elems_saturate(s.subrange(c, s.len() as int), n1 - 1, n2 - 1);
            }
        },
        _ => {},
    }
}

/// What one decode attempt on an exec buffer yielded: a value and the bytes
/// it took, a request for more input, or a protocol error.
#[derive(Debug, PartialEq, Eq)]
pub enum Decoded {
    Val(Value, usize),
    More,
    Fail,
}

enum FoundLine {
    Val(usize),
    More,
    Fail,
}

enum DecodedElems {
    Val(Vec<Value>, usize),
    More,
    Fail,
}

/// Copies `buf[start..end]` out into a fresh vector.
pub fn copy_range(buf: &Vec<u8>, start: usize, end: usize) -> (r: Vec<u8>)
    requires
        start <= end <= buf.len(),
    ensures
        r@ == buf@.subrange(start as int, end as int),
{
    let mut r: Vec<u8> = Vec::new();
    let mut i: usize = start;
    while i < end
        invariant
            start <= i <= end <= buf.len(),
            r@ == buf@.subrange(start as int, i as int),
        decreases end - i,
    {
        r.push(buf[i]);
        proof {
            assert(r@ =~= buf@.subrange(start as int, i + 1));
        }
        i = i + 1;
    }
    proof {
        assert(r@ =~= buf@.subrange(start as int, end as int));
    }
    r
}

/// Appends a copy of `src` to `out`.
pub fn push_bytes(out: &mut Vec<u8>, src: &Vec<u8>)
    ensures
        final(out)@ == old(out)@ + src@,
{
    let ghost orig: Seq<u8> = out@;
    let mut i: usize = 0;
    while i < src.len()
        invariant
            i <= src.len(),
            out@ == orig + src@.subrange(0, i as int),
        decreases src.len() - i,
    {
        out.push(src[i]);
        proof {
            assert(out@ =~= orig + src@.subrange(0, i + 1));
        }
        i = i + 1;
    }
    proof {
        assert(orig + src@.subrange(0, src.len() as int) =~= orig + src@);
    }
}

/// Finds the line at the front of `buf[pos..]`: on success the length of its
/// content, whose bytes stay in place.
fn find_line(buf: &Vec<u8>, pos: usize) -> (r: FoundLine)
    requires
        pos <= buf.len(),
    ensures
        ({
            let s = buf@.subrange(pos as int, buf.len() as int);
            match r {
                FoundLine::Val(cl) => spec_line(s) == SpecLine::Val(
                    s.subrange(0, cl as int),
                    cl as int + 2,
                ) && pos + cl + 2 <= buf.len(),
                FoundLine::More => spec_line(s) is More,
                FoundLine::Fail => spec_line(s) is Fail,
            }
        }),
{
    let ghost s = buf@.subrange(pos as int, buf.len() as int);
    let mut j: usize = pos;
    while j < buf.len()
        invariant
            pos <= j <= buf.len(),
            s == buf@.subrange(pos as int, buf.len() as int),
            forall|t: int| pos <= t < j ==> buf@[t] != CR && buf@[t] != LF,
        decreases buf.len() - j,
    {
        if buf[j] == CR || buf[j] == LF {
            let m = j - pos;
            proof {
                assert(forall|t: int| 0 <= t < m ==> s[t] == #[trigger] buf@[t + pos]);
                assert(s[m as int] == buf@[j as int]);
                lemma_line_break_first(s, m as int);
            }
            if buf[j] == LF {
                return FoundLine::Fail;
            }
            if j + 1 >= buf.len() {
                return FoundLine::More;
            }
            assert(s[m + 1] == buf@[j + 1]);
            if buf[j + 1] == LF {
                return FoundLine::Val(m);
            }
            return FoundLine::Fail;
        }
        j = j + 1;
    }
    proof {
        assert(forall|t: int| 0 <= t < s.len() ==> s[t] == #[trigger] buf@[t + pos]);
        lemma_line_break_first(s, s.len() as int);
    }
    FoundLine::More
}

/// Decodes one value from `buf[pos..]`.
#[verifier::rlimit(100)]
#[verifier::spinoff_prover]
fn decode_at(buf: &Vec<u8>, pos: usize) -> (r: Decoded)
    requires
        pos <= buf.len(),
    ensures
        ({
            let s = buf@.subrange(pos as int, buf.len() as int);
            match r {
                Decoded::Val(v, c) => spec_decode(s) == SpecDecoded::Val(v@, c as int) && 1 <= c
                    && pos + c <= buf.len(),
                Decoded::More => spec_decode(s) is More,
                Decoded::Fail => spec_decode(s) is Fail,
            }
        }),
    decreases buf.len() - pos, 0int,
{
    let ghost s = buf@.subrange(pos as int, buf.len() as int);
    if pos == buf.len() {
        return Decoded::More;
    }
    proof {
        assert(s[0] == buf@[pos as int]);
        assert(s.subrange(1, s.len() as int) =~= buf@.subrange(pos + 1, buf.len() as int));
    }
    let ghost rest = s.subrange(1, s.len() as int);
    let tag = buf[pos];
    if tag == PLUS {
        match find_line(buf, pos + 1) {
            FoundLine::Val(cl) => {
                let content = copy_range(buf, pos + 1, pos + 1 + cl);
                proof {
                    assert(content@ =~= rest.subrange(0, cl as int));
                }
                Decoded::Val(Value::SimpleString(content), 1 + cl + 2)
            },
            FoundLine::More => Decoded::More,
            FoundLine::Fail => Decoded::Fail,
        }
    } else if tag == MINUS {
        match find_line(buf, pos + 1) {
            FoundLine::Val(cl) => {
                let content = copy_range(buf, pos + 1, pos + 1 + cl);
                proof {
                    assert(content@ =~= rest.subrange(0, cl as int));
                }
                Decoded::Val(Value::Error(content), 1 + cl + 2)
            },
            FoundLine::More => Decoded::More,
            FoundLine::Fail => Decoded::Fail,
        }
    } else if tag == COLON {
        match find_line(buf, pos + 1) {
            FoundLine::Val(cl) => {
                proof {
                    assert(rest.subrange(0, cl as int) =~= buf@.subrange(
                        pos + 1,
                        pos + 1 + cl,
                    ));
                }
                match read_i64(buf, pos + 1, pos + 1 + cl) {
                    Some(v) => Decoded::Val(Value::Integer(v), 1 + cl + 2),
                    None => Decoded::Fail,
                }
            },
            FoundLine::More => Decoded::More,
            FoundLine::Fail => Decoded::Fail,
        }
    } else if tag == DOLLAR {
        match find_line(buf, pos + 1) {
            FoundLine::Val(cl) => {
                let ghost c = rest.subrange(0, cl as int);
                proof {
                    assert(c =~= buf@.subrange(pos + 1, pos + 1 + cl));
                }
                if cl == 2 && buf[pos + 1] == MINUS && buf[pos + 2] == D1 {
                    proof {
                        assert(c =~= null_sentinel());
                    }
                    Decoded::Val(Value::NullBulkString, 1 + cl + 2)
                } else {
                    proof {
                        if c == null_sentinel() {
                            assert(c.len() == 2);
                            assert(buf@[pos + 1] == c[0] && buf@[pos + 2] == c[1]);
                        }
                    }
                    match read_magnitude(buf, pos + 1, pos + 1 + cl) {
                        Magnitude::Val(m) => {
                            proof {
                                lemma_dec_val_nonneg(c);
                            }
                            let h = 1 + cl + 2;
                            let avail = buf.len() - pos - h;
                            if (m as u128) + 2 > (avail as u128) {
                                Decoded::More
                            } else {
                                let plen = m as usize;
                                let payload = copy_range(buf, pos + h, pos + h + plen);
                                proof {
                                    assert(payload@ =~= s.subrange(
                                        h as int,
                                        h as int + plen as int,
                                    ));
                                    assert(s[h + plen] == buf@[pos + h + plen]);
                                    assert(s[h + plen + 1] == buf@[pos + h + plen + 1]);
                                }
                                if buf[pos + h + plen] == CR && buf[pos + h + plen + 1] == LF {
                                    Decoded::Val(Value::BulkString(payload), h + plen + 2)
                                } else {
                                    Decoded::Fail
                                }
                            }
                        },
                        Magnitude::TooBig => {
                            proof {
                                assert(s.len() <= usize::MAX);
                                assert(s.len() < 1 + (cl as int + 2) + dec_val(c) + 2);
                            }
                            Decoded::More
                        },
                        Magnitude::Bad => Decoded::Fail,
                    }
                }
            },
            FoundLine::More => Decoded::More,
            FoundLine::Fail => Decoded::Fail,
        }
    } else if tag == STAR {
        match find_line(buf, pos + 1) {
            FoundLine::Val(cl) => {
                let ghost c = rest.subrange(0, cl as int);
                proof {
                    assert(c =~= buf@.subrange(pos + 1, pos + 1 + cl));
                }
                if cl == 2 && buf[pos + 1] == MINUS && buf[pos + 2] == D1 {
                    proof {
                        assert(c =~= null_sentinel());
                    }
                    Decoded::Val(Value::NullArray, 1 + cl + 2)
                } else {
                    proof {
                        if c == null_sentinel() {
                            assert(c.len() == 2);
                            assert(buf@[pos + 1] == c[0] && buf@[pos + 2] == c[1]);
                        }
                    }
                    let outcome = read_magnitude(buf, pos + 1, pos + 1 + cl);
                    match outcome {
                        Magnitude::Bad => Decoded::Fail,
                        _ => {
                            let ghost count = dec_val(c);
                            proof {
                                lemma_dec_val_nonneg(c);
                            }
                            let h = 1 + cl + 2;
                            let remaining = buf.len() - pos - h;
                            let ghost tail2 = s.subrange(h as int, s.len() as int);
                            proof {
                                assert(tail2 =~= buf@.subrange(
                                    pos + h,
                                    buf.len() as int,
                                ));
                                assert(tail2.len() == remaining);
                            }
                            let n_eff: u128 = match outcome {
                                Magnitude::Val(m) => if (m as u128) <= remaining as u128 {
                                    m as u128
                                } else {
                                    remaining as u128 + 1
                                },
                                _ => remaining as u128 + 1,
                            };
                            proof {
                                if n_eff as int != count {
                                    assert(count > tail2.len());
                                    assert(n_eff as int == tail2.len() + 1);
                                    lemma_elems_saturate(tail2, count, n_eff as int);
                                }
                            }
                            match decode_elems_at(buf, pos + h, n_eff) {
                                DecodedElems::Val(vs, c2) => Decoded::Val(
                                    Value::Array(vs),
                                    h + c2,
                                ),
                                DecodedElems::More => Decoded::More,
                                DecodedElems::Fail => Decoded::Fail,
                            }
                        },
                    }
                }
            },
            FoundLine::More => Decoded::More,
            FoundLine::Fail => Decoded::Fail,
        }
    } else {
        Decoded::Fail
    }
}

/// Decodes `n` consecutive values from `buf[pos..]`.
fn decode_elems_at(buf: &Vec<u8>, pos: usize, n: u128) -> (r: DecodedElems)
    requires
        pos <= buf.len(),
    ensures
        ({
            let s = buf@.subrange(pos as int, buf.len() as int);
            match r {
                DecodedElems::Val(vs, c) => spec_elems(s, n as int) == SpecElems::Val(
                    spec_values_of(vs@),
                    c as int,
                ) && pos + c <= buf.len(),
                DecodedElems::More => spec_elems(s, n as int) is More,
                DecodedElems::Fail => spec_elems(s, n as int) is Fail,
            }
        }),
    decreases buf.len() - pos, n,
{
    let ghost s = buf@.subrange(pos as int, buf.len() as int);
    if n == 0 {
        return DecodedElems::Val(Vec::new(), 0);
    }
    match decode_at(buf, pos) {
        Decoded::Val(v, c) => {
            proof {
                assert(s.subrange(c as int, s.len() as int) =~= buf@.subrange(
                    pos + c,
                    buf.len() as int,
                ));
            }
            match decode_elems_at(buf, pos + c, n - 1) {
                DecodedElems::Val(vs, c2) => {
                    let mut vs = vs;
                    let ghost vs_before = vs@;
                    vs.insert(0, v);
                    proof {
                        let w = vs@;
                        assert(w[0] == v);
                        assert(w.subrange(1, w.len() as int) =~= vs_before);
                        assert(spec_values_of(w) =~= seq![spec_value_of(v)] + spec_values_of(
                            vs_before,
                        ));
                    }
                    DecodedElems::Val(vs, c + c2)
                },
                DecodedElems::More => DecodedElems::More,
                DecodedElems::Fail => DecodedElems::Fail,
            }
        },
        Decoded::More => DecodedElems::More,
        Decoded::Fail => DecodedElems::Fail,
    }
}

/// Decodes at most one complete value from the front of the buffer,
/// reporting how many bytes it took; an incomplete buffer asks for more
/// input, a malformed one reports a protocol error.
pub fn decode(buf: &Vec<u8>) -> (r: Decoded)
    ensures
        ({
            match r {
                Decoded::Val(v, c) => spec_decode(buf@) == SpecDecoded::Val(v@, c as int) && 1
                    <= c <= buf.len(),
                Decoded::More => spec_decode(buf@) is More,
                Decoded::Fail => spec_decode(buf@) is Fail,
            }
        }),
{
    proof {
        assert(buf@.subrange(0, buf.len() as int) =~= buf@);
    }
    decode_at(buf, 0)
}

/// Appends the encoding of `v` to `out`.
#[verifier::loop_isolation(false)]
pub fn encode_into(v: &Value, out: &mut Vec<u8>)
    ensures
        final(out)@ == old(out)@ + spec_encode(v@),
    decreases *v,
{
    match v {
        Value::SimpleString(t) => {
            out.push(PLUS);
            push_bytes(out, t);
            out.push(CR);
            out.push(LF);
            proof {
                assert(out@ =~= old(out)@ + spec_encode(v@));
            }
        },
        Value::Error(t) => {
            out.push(MINUS);
            push_bytes(out, t);
            out.push(CR);
            out.push(LF);
            proof {
                assert(out@ =~= old(out)@ + spec_encode(v@));
            }
        },
        Value::Integer(n) => {
            out.push(COLON);
            push_dec_i64(out, *n);
            out.push(CR);
            out.push(LF);
            proof {
                assert(out@ =~= old(out)@ + spec_encode(v@));
            }
        },
        Value::BulkString(p) => {
            out.push(DOLLAR);
            push_dec_u64(out, p.len() as u64);
            out.push(CR);
            out.push(LF);
            push_bytes(out, p);
            out.push(CR);
            out.push(LF);
            proof {
                assert(out@ =~= old(out)@ + spec_encode(v@));
            }
        },
        Value::NullBulkString => {
            out.push(DOLLAR);
            out.push(MINUS);
            out.push(D1);
            out.push(CR);
            out.push(LF);
            proof {
                assert(out@ =~= old(out)@ + spec_encode(v@));
            }
        },
        Value::Array(items) => {
            out.push(STAR);
            push_dec_u64(out, items.len() as u64);
            out.push(CR);
            out.push(LF);
            let ghost vs = spec_values_of(items@);
            let ghost header = out@;
            proof {
                lemma_spec_values_of(items@);
                assert(header =~= old(out)@ + seq![STAR] + dec_digits(items@.len()) + seq![
                    CR,
                    LF,
                ]);
            }
            let mut j: usize = 0;
            while j < items.len()
                invariant
                    j <= items.len(),
                    out@ == header + spec_encode_elems(vs.subrange(0, j as int)),
                decreases items.len() - j,
            {
                proof {
                    lemma_encode_elems_snoc(vs.subrange(0, j as int), vs[j as int]);
                    assert(vs.subrange(0, j as int).push(vs[j as int]) =~= vs.subrange(
                        0,
                        j + 1,
                    ));
                }
                encode_into(&items[j], out);
                j = j + 1;
            }
            proof {
                assert(vs.subrange(0, vs.len() as int) =~= vs);
                assert(out@ =~= old(out)@ + spec_encode(v@));
            }
        },
        Value::NullArray => {
            out.push(STAR);
            out.push(MINUS);
            out.push(D1);
            out.push(CR);
            out.push(LF);
            proof {
                assert(out@ =~= old(out)@ + spec_encode(v@));
            }
        },
    }
}

/// Encodes one value as wire bytes.
pub fn encode(v: &Value) -> (out: Vec<u8>)
    ensures
        out@ == spec_encode(v@),
{
    let mut out: Vec<u8> = Vec::new();
    encode_into(v, &mut out);
    proof {
        assert(out@ =~= spec_encode(v@));
    }
    out
}


/// A decoded value takes at least one byte and at most the whole buffer,
/// and a decoded run of values takes at most the whole buffer.
pub proof fn lemma_decode_consumed_bounds(s: Seq<u8>)
    ensures
        spec_decode(s) matches SpecDecoded::Val(v, c) ==> 1 <= c <= s.len(),
    decreases s.len(), 0int,
{
    if s.len() > 0 {
        let rest = s.subrange(1, s.len() as int);
        lemma_spec_line_bounds(rest);
        if s[0] == DOLLAR || s[0] == STAR {
            match spec_line(rest) {
                SpecLine::Val(c, n) => {
                    if c != null_sentinel() && c.len() >= 1 && all_digits(c) {
                        lemma_dec_val_nonneg(c);
                        if s[0] == STAR {
                            lemma_elems_consumed_bounds(
                                s.subrange(1 + n, s.len() as int),
                                dec_val(c),
                            );
                        }
                    }
                },
                _ => {},
            }
        }
    }
}

/// Companion bound for a run of values.
pub proof fn lemma_elems_consumed_bounds(s: Seq<u8>, n: int)
    ensures
        spec_elems(s, n) matches SpecElems::Val(vs, c) ==> 0 <= c <= s.len(),
    decreases s.len(), n,
{
    if n > 0 {
        lemma_decode_consumed_bounds(s);
        match spec_decode(s) {
            SpecDecoded::Val(v, c) => {
                if 1 <= c <= s.len() {
                    lemma_elems_consumed_bounds(s.subrange(c, s.len() as int), n - 1);
                }
            },
            _ => {},
        }
    }
}

/// A successful line decode is unchanged by cutting the buffer anywhere at
/// or past what the line consumed.
proof fn lemma_line_take(r: Seq<u8>, m: int)
    requires
        spec_line(r) is Val,
        0 <= m <= r.len(),
        ({
            match spec_line(r) {
                SpecLine::Val(content, n) => n <= m,
                _ => true,
            }
        }),
    ensures
        spec_line(r.subrange(0, m)) == spec_line(r),
{
    lemma_line_break_bounds(r);
    lemma_spec_line_bounds(r);
    let t = r.subrange(0, m);
    match spec_line(r) {
        SpecLine::Val(content, n) => {
            let i = n - 2;
            assert(forall|j: int| 0 <= j < m ==> t[j] == #[trigger] r[j]);
            lemma_line_break_first(t, i);
            assert(t[i] == CR && t[i + 1] == LF);
            assert(t.subrange(0, i) =~= content);
        },
        _ => {},
    }
}

/// Decoding reads nothing past what it consumes: cutting the buffer
/// anywhere at or past the consumed count decodes the same value.
#[verifier::rlimit(100)]
#[verifier::spinoff_prover]
pub proof fn lemma_decode_take(s: Seq<u8>, m: int)
    requires
        spec_decode(s) is Val,
        0 <= m <= s.len(),
        ({
            match spec_decode(s) {
                SpecDecoded::Val(v, c) => c <= m,
                _ => true,
            }
        }),
    ensures
        spec_decode(s.subrange(0, m)) == spec_decode(s),
    decreases s.len(), 0int,
{
    lemma_decode_consumed_bounds(s);
    let t = s.subrange(0, m);
    let rest = s.subrange(1, s.len() as int);
    let rest_t = t.subrange(1, m);
    assert(rest_t =~= rest.subrange(0, m - 1));
    lemma_spec_line_bounds(rest);
    assert(t[0] == s[0]);
    if s[0] == PLUS || s[0] == MINUS || s[0] == COLON {
        match spec_line(rest) {
            SpecLine::Val(content, n) => {
                lemma_line_take(rest, m - 1);
                assert(rest.subrange(0, m - 1).subrange(0, n - 2) =~= rest.subrange(0, n - 2));
            },
            _ => {},
        }
    } else if s[0] == DOLLAR {
        match spec_line(rest) {
            SpecLine::Val(content, n) => {
                if content == null_sentinel() {
                    lemma_line_take(rest, m - 1);
                } else if content.len() >= 1 && all_digits(content) {
                    let len = dec_val(content);
                    lemma_dec_val_nonneg(content);
                    lemma_line_take(rest, m - 1);
                    assert(t.len() >= 1 + n + len + 2);
                    assert(t[1 + n + len] == s[1 + n + len]);
                    assert(t[1 + n + len + 1] == s[1 + n + len + 1]);
                    assert(t.subrange(1 + n, 1 + n + len) =~= s.subrange(1 + n, 1 + n + len));
                }
            },
            _ => {},
        }
    } else if s[0] == STAR {
        match spec_line(rest) {
            SpecLine::Val(content, n) => {
                if content == null_sentinel() {
                    lemma_line_take(rest, m - 1);
                } else if content.len() >= 1 && all_digits(content) {
                    let count = dec_val(content);
                    lemma_dec_val_nonneg(content);
                    let tail = s.subrange(1 + n, s.len() as int);
                    match spec_elems(tail, count) {
                        SpecElems::Val(vs, me) => {
                            lemma_elems_consumed_bounds(tail, count);
                            lemma_line_take(rest, m - 1);
                            assert(t.subrange(1 + n, m) =~= tail.subrange(0, m - 1 - n));
                            lemma_elems_take(tail, count, m - 1 - n);
                        },
                        _ => {},
                    }
                }
            },
            _ => {},
        }
    }
}

/// Companion truncation fact for a run of values.
pub proof fn lemma_elems_take(s: Seq<u8>, n: int, m: int)
    requires
        spec_elems(s, n) is Val,
        0 <= m <= s.len(),
        ({
            match spec_elems(s, n) {
                SpecElems::Val(vs, c) => c <= m,
                _ => true,
            }
        }),
    ensures
        spec_elems(s.subrange(0, m), n) == spec_elems(s, n),
    decreases s.len(), n,
{
    let t = s.subrange(0, m);
    if n > 0 {
        match spec_decode(s) {
            SpecDecoded::Val(v, c1) => {
                if 1 <= c1 <= s.len() {
                    let rest = s.subrange(c1, s.len() as int);
                    match spec_elems(rest, n - 1) {
                        SpecElems::Val(vs2, c2) => {
                            lemma_elems_consumed_bounds(rest, n - 1);
                            lemma_decode_take(s, m);
                            assert(t.subrange(c1, m) =~= rest.subrange(0, m - c1));
                            lemma_elems_take(rest, n - 1, m - c1);
                        },
                        _ => {},
                    }
                }
            },
            _ => {},
        }
    }
}

} // verus!
