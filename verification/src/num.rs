//! Decimal text handled by the wire protocol and by the counter command:
//! what a digit string denotes, how an integer is written, and verified
//! executable parsing and formatting.

use vstd::prelude::*;

verus! {

/// ASCII '0'.
pub const D0: u8 = 48;

/// ASCII '9'.
pub const D9: u8 = 57;

/// ASCII '-'.
pub const MINUS: u8 = 45;

/// The byte is an ASCII decimal digit.
pub open spec fn is_digit(b: u8) -> bool {
    D0 <= b <= D9
}

/// Every byte of the sequence is an ASCII decimal digit.
pub open spec fn all_digits(s: Seq<u8>) -> bool {
    forall|i: int| 0 <= i < s.len() ==> is_digit(#[trigger] s[i])
}

/// The number denoted by a digit string, most significant digit first.
pub open spec fn dec_val(s: Seq<u8>) -> int
    decreases s.len(),
{
    if s.len() == 0 {
        0
    } else {
        dec_val(s.drop_last()) * 10 + s.last() - D0
    }
}

/// The canonical digit string of a natural number: no leading zeros.
pub open spec fn dec_digits(n: nat) -> Seq<u8>
    decreases n,
{
    if n < 10 {
        seq![(D0 + n) as u8]
    } else {
        dec_digits(n / 10).push((D0 + n % 10) as u8)
    }
}

/// The canonical decimal text of an integer: a minus sign for negatives,
/// then the digits of the magnitude.
pub open spec fn int_dec(i: int) -> Seq<u8> {
    if i >= 0 {
        dec_digits(i as nat)
    } else {
        seq![MINUS] + dec_digits((-i) as nat)
    }
}

/// The integer denoted by decimal text: an optional minus sign followed by
/// at least one digit; anything else denotes nothing.
pub open spec fn parse_signed(s: Seq<u8>) -> Option<int> {
    if s.len() >= 2 && s[0] == MINUS && all_digits(s.subrange(1, s.len() as int)) {
        Some(-dec_val(s.subrange(1, s.len() as int)))
    } else if s.len() >= 1 && all_digits(s) {
        Some(dec_val(s))
    } else {
        None
    }
}

/// The integer denoted by decimal text, if it also fits the wire type.
pub open spec fn parse_i64(s: Seq<u8>) -> Option<int> {
    match parse_signed(s) {
        Some(v) => if i64::MIN <= v <= i64::MAX {
            Some(v)
        } else {
            None
        },
        None => None,
    }
}

/// A digit string denotes a non-negative number.
pub proof fn lemma_dec_val_nonneg(s: Seq<u8>)
    requires
        all_digits(s),
    ensures
        dec_val(s) >= 0,
    decreases s.len(),
{
    if s.len() > 0 {
        assert(all_digits(s.drop_last())) by {
            assert(forall|i: int|
                0 <= i < s.len() - 1 ==> s.drop_last()[i] == #[trigger] s[i]);
        }
        lemma_dec_val_nonneg(s.drop_last());
    }
}

/// The canonical digit string is made of digits, is never empty, and never
/// starts with a zero unless it is exactly "0".
pub proof fn lemma_dec_digits_shape(n: nat)
    ensures
        all_digits(dec_digits(n)),
        dec_digits(n).len() >= 1,
    decreases n,
{
    if n >= 10 {
        lemma_dec_digits_shape(n / 10);
        let prev = dec_digits(n / 10);
        let whole = prev.push((D0 + n % 10) as u8);
        assert forall|i: int| 0 <= i < whole.len() implies is_digit(#[trigger] whole[i]) by {
            if i < prev.len() {
                assert(whole[i] == prev[i]);
            }
        }
    }
}

/// Formatting then parsing a natural number gives it back.
pub proof fn lemma_dec_val_of_digits(n: nat)
    ensures
        dec_val(dec_digits(n)) == n,
    decreases n,
{
    if n < 10 {
        assert(dec_digits(n) =~= seq![(D0 + n) as u8]);
        assert(dec_val(seq![(D0 + n) as u8].drop_last()) == 0);
    } else {
        lemma_dec_val_of_digits(n / 10);
        let prev = dec_digits(n / 10);
        let whole = prev.push((D0 + n % 10) as u8);
        assert(whole.drop_last() =~= prev);
        assert(whole.last() == (D0 + n % 10) as u8);
        assert(dec_val(whole) == dec_val(prev) * 10 + n % 10);
        assert(n / 10 * 10 + n % 10 == n) by {
            vstd::arithmetic::div_mod::lemma_fundamental_div_mod(n as int, 10);
        }
    }
}

/// Extending a digit string on the right never shrinks its value.
pub proof fn lemma_dec_val_prefix(s: Seq<u8>, k: int)
    requires
        all_digits(s),
        0 <= k <= s.len(),
    ensures
        dec_val(s.subrange(0, k)) <= dec_val(s),
    decreases s.len() - k,
{
    if k < s.len() {
        let t = s.subrange(0, k + 1);
        assert(t.drop_last() =~= s.subrange(0, k));
        assert(is_digit(s[k]));
        assert(all_digits(s.subrange(0, k))) by {
            assert(forall|i: int|
                0 <= i < k ==> s.subrange(0, k)[i] == #[trigger] s[i]);
        }
        lemma_dec_val_nonneg(s.subrange(0, k));
        assert(dec_val(t) == dec_val(s.subrange(0, k)) * 10 + s[k] - D0);
        assert(dec_val(s.subrange(0, k)) * 10 >= dec_val(s.subrange(0, k)));
        lemma_dec_val_prefix(s, k + 1);
        assert(s.subrange(0, s.len() as int) =~= s);
    } else {
        assert(s.subrange(0, k) =~= s);
    }
}

/// Parsing the canonical decimal text of an integer gives it back, and that
/// text is made of digits with at most a leading minus sign.
pub proof fn lemma_parse_int_dec(i: int)
    requires
        i64::MIN <= i <= i64::MAX,
    ensures
        parse_i64(int_dec(i)) == Some(i),
        int_dec(i).len() >= 1,
        forall|j: int|
            0 <= j < int_dec(i).len() ==> is_digit(#[trigger] int_dec(i)[j]) || int_dec(i)[j]
                == MINUS,
{
    if i >= 0 {
        lemma_dec_digits_shape(i as nat);
        lemma_dec_val_of_digits(i as nat);
        assert(is_digit(int_dec(i)[0]));
    } else {
        let m = (-i) as nat;
        lemma_dec_digits_shape(m);
        lemma_dec_val_of_digits(m);
        let s = seq![MINUS] + dec_digits(m);
        assert(s.subrange(1, s.len() as int) =~= dec_digits(m));
        assert(s[0] == MINUS);
        assert(parse_signed(s) == Some(i));
        assert forall|j: int|
            0 <= j < s.len() implies is_digit(#[trigger] s[j]) || s[j] == MINUS by {
            if j >= 1 {
                assert(s[j] == dec_digits(m)[j - 1]);
            }
        }
    }
}

/// Outcome of reading a digit string: its value, a value past the machine
/// word, or text that is not a digit string at all.
pub enum Magnitude {
    Val(u64),
    TooBig,
    Bad,
}

/// Appends the canonical digit string of `n` to `out`.
pub fn push_dec_u64(out: &mut Vec<u8>, n: u64)
    ensures
        final(out)@ == old(out)@ + dec_digits(n as nat),
    decreases n,
{
    if n < 10 {
        out.push(D0 + n as u8);
        proof {
            assert(out@ =~= old(out)@ + dec_digits(n as nat));
        }
    } else {
        push_dec_u64(out, n / 10);
        out.push(D0 + (n % 10) as u8);
        proof {
            assert(out@ =~= old(out)@ + dec_digits(n as nat));
        }
    }
}

/// Appends the canonical decimal text of `n` to `out`.
pub fn push_dec_i64(out: &mut Vec<u8>, n: i64)
    ensures
        final(out)@ == old(out)@ + int_dec(n as int),
{
    if n >= 0 {
        push_dec_u64(out, n as u64);
    } else {
        out.push(MINUS);
        let m: u64 = if n == i64::MIN {
            9223372036854775808u64
        } else {
            (-n) as u64
        };
        assert(m as int == -(n as int));
        push_dec_u64(out, m);
        proof {
            assert(out@ =~= old(out)@ + int_dec(n as int));
        }
    }
}

/// Reads `buf[start..end]` as a digit string and returns what it denotes.
pub fn read_magnitude(buf: &Vec<u8>, start: usize, end: usize) -> (r: Magnitude)
    requires
        start <= end <= buf.len(),
    ensures
        ({
            let s = buf@.subrange(start as int, end as int);
            match r {
                Magnitude::Val(m) => s.len() >= 1 && all_digits(s) && dec_val(s) == m,
                Magnitude::TooBig => s.len() >= 1 && all_digits(s) && dec_val(s) > u64::MAX,
                Magnitude::Bad => !(s.len() >= 1 && all_digits(s)),
            }
        }),
{
    let ghost s = buf@.subrange(start as int, end as int);
    if start == end {
        return Magnitude::Bad;
    }
    let mut i: usize = start;
    while i < end
        invariant
            start <= i <= end <= buf.len(),
            s == buf@.subrange(start as int, end as int),
            forall|j: int| start <= j < i ==> is_digit(#[trigger] buf@[j]),
        decreases end - i,
    {
        if buf[i] < D0 || buf[i] > D9 {
            assert(s[i - start] == buf@[i as int]);
            return Magnitude::Bad;
        }
        i = i + 1;
    }
    assert(all_digits(s)) by {
        assert(forall|j: int| 0 <= j < s.len() ==> s[j] == #[trigger] buf@[j + start]);
    }
    let mut acc: u128 = 0;
    let mut i: usize = start;
    while i < end
        invariant
            start <= i <= end <= buf.len(),
            s == buf@.subrange(start as int, end as int),
            all_digits(s),
            acc <= u64::MAX,
            acc == dec_val(s.subrange(0, i - start)),
        decreases end - i,
    {
        proof {
            assert(s[i - start] == buf@[i as int]);
            assert(is_digit(s[i - start]));
            let t = s.subrange(0, i - start + 1);
            assert(t.drop_last() =~= s.subrange(0, i - start));
            assert(t.last() == s[i - start]);
        }
        let d: u128 = (buf[i] - D0) as u128;
        acc = acc * 10 + d;
        if acc > u64::MAX as u128 {
            proof {
                lemma_dec_val_prefix(s, i - start + 1);
            }
            return Magnitude::TooBig;
        }
        i = i + 1;
    }
    assert(s.subrange(0, s.len() as int) =~= s);
    Magnitude::Val(acc as u64)
}

/// Reads `buf[start..end]` as a signed decimal integer, `None` where the
/// text is not an integer or does not fit the wire type.
pub fn read_i64(buf: &Vec<u8>, start: usize, end: usize) -> (r: Option<i64>)
    requires
        start <= end <= buf.len(),
    ensures
        ({
            let s = buf@.subrange(start as int, end as int);
            match r {
                Some(v) => parse_i64(s) == Some(v as int),
                None => parse_i64(s) is None,
            }
        }),
{
    let ghost s = buf@.subrange(start as int, end as int);
    if start < end && buf[start] == MINUS {
        assert(s[0] == MINUS);
        let ghost tail = s.subrange(1, s.len() as int);
        assert(tail =~= buf@.subrange(start + 1, end as int));
        match read_magnitude(buf, start + 1, end) {
            Magnitude::Val(m) => {
                proof {
                    lemma_dec_val_nonneg(tail);
                }
                if m == 0 {
                    Some(0)
                } else if m == 9223372036854775808u64 {
                    Some(i64::MIN)
                } else if m < 9223372036854775808u64 {
                    Some(-(m as i64))
                } else {
                    None
                }
            },
            Magnitude::TooBig => None,
            Magnitude::Bad => {
                assert(!all_digits(s)) by {
                    assert(s[0] == MINUS && !is_digit(MINUS));
                }
                None
            },
        }
    } else {
        match read_magnitude(buf, start, end) {
            Magnitude::Val(m) => {
                proof {
                    lemma_dec_val_nonneg(s);
                    if s.len() >= 2 && s[0] == MINUS {
                        assert(!is_digit(MINUS));
                    }
                }
                if m <= i64::MAX as u64 {
                    Some(m as i64)
                } else {
                    None
                }
            },
            Magnitude::TooBig => {
                proof {
                    if s.len() >= 2 && s[0] == MINUS {
                        assert(!is_digit(MINUS));
                    }
                }
                None
            },
            Magnitude::Bad => {
                proof {
                    if s.len() >= 2 && s[0] == MINUS && all_digits(
                        s.subrange(1, s.len() as int),
                    ) {
                        assert(s[0] == buf@[start as int]);
                    }
                }
                None
            },
        }
    }
}

} // verus!
