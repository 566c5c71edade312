//! The bytes in which the values of a row are kept.
//!
//! A value is a tag followed by its content; integers are eight bytes and reals
//! sixteen, the least significant first; a list is its length followed by its elements.
use vstd::prelude::*;
use vstd::bytes::{
    lemma_auto_spec_u128_to_from_le_bytes, lemma_auto_spec_u64_to_from_le_bytes,
    spec_u128_from_le_bytes, spec_u128_to_le_bytes, spec_u64_from_le_bytes, spec_u64_to_le_bytes,
    u128_from_le_bytes, u128_to_le_bytes, u64_from_le_bytes, u64_to_le_bytes,
};
use vstd::slice::slice_subrange;
use vstd::utf8::{
    decode_utf8, encode_utf8, encode_utf8_decode_utf8, encode_utf8_valid_utf8, valid_utf8,
};

use crate::list::{List, opt_of};
use crate::value::{DataValue, Tuple, Value, json_value, list_value, values_of};

verus! {

/// An integer as an unsigned one, keeping the order.
pub open spec fn shifted(n: i64) -> u64 {
    (n + 0x8000_0000_0000_0000) as u64
}

pub open spec fn unshifted(n: u64) -> i64 {
    (n - 0x8000_0000_0000_0000) as i64
}

fn shift(n: i64) -> (r: u64)
    ensures
        r == shifted(n),
{
    (n as i128 + 0x8000_0000_0000_0000) as u64
}

fn unshift(n: u64) -> (r: i64)
    ensures
        r == unshifted(n),
{
    (n as i128 - 0x8000_0000_0000_0000) as i64
}

/// A real as an unsigned number, keeping the order.
pub open spec fn shifted_wide(n: i128) -> u128 {
    (n + 0x8000_0000_0000_0000_0000_0000_0000_0000) as u128
}

pub open spec fn unshifted_wide(n: u128) -> i128 {
    (n - 0x8000_0000_0000_0000_0000_0000_0000_0000) as i128
}

fn shift_wide(n: i128) -> (r: u128)
    ensures
        r == shifted_wide(n),
{
    if n < 0 {
        (n + i128::MAX + 1) as u128
    } else {
        n as u128 + 0x8000_0000_0000_0000_0000_0000_0000_0000
    }
}

fn unshift_wide(n: u128) -> (r: i128)
    ensures
        r == unshifted_wide(n),
{
    if n < 0x8000_0000_0000_0000_0000_0000_0000_0000 {
        n as i128 - i128::MAX - 1
    } else {
        (n - 0x8000_0000_0000_0000_0000_0000_0000_0000) as i128
    }
}

pub open spec fn flag_byte(b: bool) -> u8 {
    if b {
        1
    } else {
        0
    }
}

/// The bytes of a value.
pub open spec fn encode_of(v: Value) -> Seq<u8>
    decreases v, 0int,
{
    match v {
        Value::Null => seq![0u8],
        Value::Bool(b) => seq![1u8, flag_byte(b)],
        Value::Int(n) => seq![2u8] + spec_u64_to_le_bytes(shifted(n)),
        Value::Real(n) => seq![3u8] + spec_u128_to_le_bytes(shifted_wide(n)),
        Value::Str(s) => seq![4u8] + spec_u64_to_le_bytes(encode_utf8(s).len() as u64)
            + encode_utf8(s),
        Value::Bytes(b) => seq![5u8] + spec_u64_to_le_bytes(b.len() as u64) + b,
        Value::Uuid(u) => seq![6u8] + spec_u128_to_le_bytes(u),
        Value::List(l) => seq![7u8] + spec_u64_to_le_bytes(l.len() as u64) + encode_all_from(l, 0),
        Value::Json(l) => seq![8u8] + spec_u64_to_le_bytes(l.len() as u64) + encode_all_from(l, 0),
        Value::Validity(t, a) => seq![9u8] + spec_u64_to_le_bytes(shifted(t)) + seq![flag_byte(a)],
        Value::Bot => seq![10u8],
    }
}

/// The bytes of the values from place `i` on.
pub open spec fn encode_all_from(l: Seq<Value>, i: int) -> Seq<u8>
    decreases l, l.len() - i,
{
    if i < 0 || i >= l.len() {
        Seq::empty()
    } else {
        encode_of(l[i]) + encode_all_from(l, i + 1)
    }
}

/// The bytes of a row of values.
pub open spec fn encode_row_of(l: Seq<Value>) -> Seq<u8> {
    spec_u64_to_le_bytes(l.len() as u64) + encode_all_from(l, 0)
}

fn push_bytes(out: &mut Vec<u8>, b: &[u8])
    ensures
        final(out)@ == old(out)@ + b@,
{
    let mut i: usize = 0;
    assert(out@ =~= old(out)@ + b@.take(0));
    while i < b.len()
        invariant
            i <= b@.len(),
            out@ == old(out)@ + b@.take(i as int),
        decreases b@.len() - i,
    {
        out.push(b[i]);
        assert(out@ =~= old(out)@ + b@.take(i + 1));
        i = i + 1;
    }
    assert(b@.take(i as int) =~= b@);
}

fn push_number(out: &mut Vec<u8>, n: u64)
    ensures
        final(out)@ == old(out)@ + spec_u64_to_le_bytes(n),
{
    let b = u64_to_le_bytes(n);
    push_bytes(out, b.as_slice());
}

fn push_flag(out: &mut Vec<u8>, a: bool)
    ensures
        final(out)@ == old(out)@ + seq![flag_byte(a)],
{
    out.push(
        if a {
            1
        } else {
            0
        },
    );
    assert(out@ =~= old(out)@ + seq![flag_byte(a)]);
}

fn push_tag(out: &mut Vec<u8>, t: u8)
    ensures
        final(out)@ == old(out)@ + seq![t],
{
    out.push(t);
    assert(out@ =~= old(out)@ + seq![t]);
}

/// Appends the bytes of a value.
pub fn encode_into(v: &DataValue, out: &mut Vec<u8>)
    ensures
        final(out)@ == old(out)@ + encode_of(v@),
    decreases v, 0int,
{
    match v {
        DataValue::Null => push_tag(out, 0),
        DataValue::Bool(b) => {
            push_tag(out, 1);
            push_flag(out, *b);
            assert(out@ =~= old(out)@ + encode_of(v@));
        },
        DataValue::Int(n) => {
            push_tag(out, 2);
            push_number(out, shift(*n));
            assert(out@ =~= old(out)@ + encode_of(v@));
        },
        DataValue::Real(n) => {
            push_tag(out, 3);
            let b = u128_to_le_bytes(shift_wide(*n));
            push_bytes(out, b.as_slice());
            assert(out@ =~= old(out)@ + encode_of(v@));
        },
        DataValue::Str(s) => {
            let b = s.as_str().as_bytes();
            push_tag(out, 4);
            push_number(out, b.len() as u64);
            push_bytes(out, b);
            assert(out@ =~= old(out)@ + encode_of(v@));
        },
        DataValue::Bytes(b) => {
            push_tag(out, 5);
            push_number(out, b.len() as u64);
            push_bytes(out, b.as_slice());
            assert(out@ =~= old(out)@ + encode_of(v@));
        },
        DataValue::Uuid(u) => {
            push_tag(out, 6);
            let b = u128_to_le_bytes(*u);
            push_bytes(out, b.as_slice());
            assert(out@ =~= old(out)@ + encode_of(v@));
        },
        DataValue::List(l) => {
            push_tag(out, 7);
            encode_all(l, out);
            assert(out@ =~= old(out)@ + encode_of(v@));
        },
        DataValue::Json(l) => {
            push_tag(out, 8);
            encode_all(l, out);
            assert(out@ =~= old(out)@ + encode_of(v@));
        },
        DataValue::Validity(t, a) => {
            push_tag(out, 9);
            push_number(out, shift(*t));
            push_flag(out, *a);
            assert(out@ =~= old(out)@ + encode_of(v@));
        },
        DataValue::Bot => push_tag(out, 10),
    }
}

fn encode_all(l: &Vec<DataValue>, out: &mut Vec<u8>)
    ensures
        final(out)@ == old(out)@ + encode_row_of(values_of(l@)),
    decreases l, 1int,
{
    let ghost all = values_of(l@);
    push_number(out, l.len() as u64);
    let ghost head = out@;
    let mut i: usize = 0;
    while i < l.len()
        invariant
            i <= l@.len(),
            all == values_of(l@),
            out@ + encode_all_from(all, i as int) =~= head + encode_all_from(all, 0),
        decreases l@.len() - i,
    {
        let ghost before = out@;
        encode_into(&l[i], out);
        assert(before + encode_all_from(all, i as int) =~= before + encode_of(all[i as int])
            + encode_all_from(all, i + 1));
        i = i + 1;
    }
    assert(encode_all_from(all, i as int) =~= Seq::empty());
    assert(out@ =~= old(out)@ + encode_row_of(all));
}

/// The bytes of a row of values.
pub fn encode_row(l: &Tuple) -> (r: Vec<u8>)
    ensures
        r@ == encode_row_of(l@),
{
    let mut out: Vec<u8> = Vec::new();
    encode_all(&l.items, &mut out);
    assert(values_of(l.items@) =~= l@);
    assert(out@ =~= encode_row_of(l@));
    out
}

/// The first eight bytes as a number, and the bytes that follow.
pub open spec fn take_number(b: Seq<u8>) -> Option<(u64, Seq<u8>)> {
    if b.len() < 8 {
        None
    } else {
        Some((spec_u64_from_le_bytes(b.take(8)), b.skip(8)))
    }
}

fn read_number<'a>(b: &'a [u8]) -> (r: Option<(u64, &'a [u8])>)
    ensures
        opt_of(r) == take_number(b@),
{
    if b.len() < 8 {
        None
    } else {
        let head = slice_subrange(b, 0, 8);
        let rest = slice_subrange(b, 8, b.len());
        assert(head@ =~= b@.take(8));
        assert(rest@ =~= b@.skip(8));
        Some((u64_from_le_bytes(head), rest))
    }
}

/// As many bytes as the number at the front says, and those that follow.
pub open spec fn take_bytes(b: Seq<u8>) -> Option<(Seq<u8>, Seq<u8>)> {
    match take_number(b) {
        Some((n, rest)) => if rest.len() < n {
            None
        } else {
            Some((rest.take(n as int), rest.skip(n as int)))
        },
        None => None,
    }
}

fn read_bytes<'a>(b: &'a [u8]) -> (r: Option<(&'a [u8], &'a [u8])>)
    ensures
        opt_of(r) == take_bytes(b@),
{
    match read_number(b) {
        Some((n, rest)) => {
            if (rest.len() as u64) < n {
                None
            } else {
                let k: usize = n as usize;
                let head = slice_subrange(rest, 0, k);
                let tail = slice_subrange(rest, k, rest.len());
                assert(head@ =~= rest@.take(n as int));
                assert(tail@ =~= rest@.skip(n as int));
                Some((head, tail))
            }
        },
        None => None,
    }
}

/// Wraps `String::from_utf8`: a string is given exactly where the bytes are
/// valid UTF-8, and its characters are those that the bytes encode.
#[verifier::external_body]
fn string_of_bytes(b: Vec<u8>) -> (r: Option<String>)
    ensures
        r is Some <==> valid_utf8(b@),
        r is Some ==> r->0@ == decode_utf8(b@),
{
    String::from_utf8(b).ok()
}

/// The value at the front of the bytes, and the bytes that follow; nothing
/// where the bytes do not begin with a value.
pub open spec fn decode_of(b: Seq<u8>) -> Option<(Value, Seq<u8>)>
    decreases b.len(), 0int,
{
    if b.len() == 0 {
        None
    } else {
        let rest = b.skip(1);
        if b[0] == 0 {
            Some((Value::Null, rest))
        } else if b[0] == 1 {
            match take_flag(rest) {
                Some((f, r)) => Some((Value::Bool(f), r)),
                None => None,
            }
        } else if b[0] == 2 {
            match take_number(rest) {
                Some((n, r)) => Some((Value::Int(unshifted(n)), r)),
                None => None,
            }
        } else if b[0] == 3 {
            if rest.len() < 16 {
                None
            } else {
                let n = spec_u128_from_le_bytes(rest.take(16));
                Some((Value::Real(unshifted_wide(n)), rest.skip(16)))
            }
        } else if b[0] == 4 {
            match take_bytes(rest) {
                Some((s, r)) => if valid_utf8(s) {
                    Some((Value::Str(decode_utf8(s)), r))
                } else {
                    None
                },
                None => None,
            }
        } else if b[0] == 5 {
            match take_bytes(rest) {
                Some((s, r)) => Some((Value::Bytes(s), r)),
                None => None,
            }
        } else if b[0] == 6 {
            if rest.len() < 16 {
                None
            } else {
                Some((Value::Uuid(spec_u128_from_le_bytes(rest.take(16))), rest.skip(16)))
            }
        } else if b[0] == 7 || b[0] == 8 {
            match take_number(rest) {
                Some((n, r)) => match decode_many(r, n as nat, Seq::empty()) {
                    Some((l, t)) => Some(
                        (
                            if b[0] == 7 {
                                Value::List(l)
                            } else {
                                Value::Json(l)
                            },
                            t,
                        ),
                    ),
                    None => None,
                },
                None => None,
            }
        } else if b[0] == 9 {
            match take_number(rest) {
                Some((n, r)) => match take_flag(r) {
                    Some((f, t)) => Some((Value::Validity(unshifted(n), f), t)),
                    None => None,
                },
                None => None,
            }
        } else if b[0] == 10 {
            Some((Value::Bot, rest))
        } else {
            None
        }
    }
}

/// `n` values at the front of the bytes, after those in `acc`.
pub open spec fn decode_many(b: Seq<u8>, n: nat, acc: Seq<Value>) -> Option<(Seq<Value>, Seq<u8>)>
    decreases b.len(), 1int,
{
    if n == 0 {
        Some((acc, b))
    } else {
        match decode_of(b) {
            Some((v, r)) => if r.len() < b.len() {
                decode_many(r, (n - 1) as nat, acc.push(v))
            } else {
                None
            },
            None => None,
        }
    }
}

pub open spec fn take_flag(b: Seq<u8>) -> Option<(bool, Seq<u8>)> {
    if b.len() == 0 || b[0] > 1 {
        None
    } else {
        Some((b[0] == 1, b.skip(1)))
    }
}

fn read_flag<'a>(b: &'a [u8]) -> (r: Option<(bool, &'a [u8])>)
    ensures
        opt_of(r) == take_flag(b@),
{
    if b.len() == 0 || b[0] > 1 {
        None
    } else {
        let rest = slice_subrange(b, 1, b.len());
        assert(rest@ =~= b@.skip(1));
        Some((b[0] == 1, rest))
    }
}

/// The values of a row; nothing where the bytes are not those of a row.
pub open spec fn decode_row_of(b: Seq<u8>) -> Option<Seq<Value>> {
    match take_number(b) {
        Some((n, r)) => match decode_many(r, n as nat, Seq::empty()) {
            Some((l, t)) => if t.len() == 0 {
                Some(l)
            } else {
                None
            },
            None => None,
        },
        None => None,
    }
}

fn decode<'a>(b: &'a [u8]) -> (r: Option<(DataValue, &'a [u8])>)
    ensures
        opt_of(r) == decode_of(b@),
    decreases b@.len(), 0int,
{
    if b.len() == 0 {
        return None;
    }
    let tag: u8 = b[0];
    let rest = slice_subrange(b, 1, b.len());
    assert(rest@ =~= b@.skip(1));
    if tag == 0 {
        Some((DataValue::Null, rest))
    } else if tag == 1 {
        match read_flag(rest) {
            Some((f, r)) => Some((DataValue::Bool(f), r)),
            None => None,
        }
    } else if tag == 2 {
        match read_number(rest) {
            Some((n, r)) => Some((DataValue::Int(unshift(n)), r)),
            None => None,
        }
    } else if tag == 3 {
        if rest.len() < 16 {
            None
        } else {
            let head = slice_subrange(rest, 0, 16);
            let tail = slice_subrange(rest, 16, rest.len());
            assert(head@ =~= rest@.take(16));
            assert(tail@ =~= rest@.skip(16));
            Some((DataValue::Real(unshift_wide(u128_from_le_bytes(head))), tail))
        }
    } else if tag == 4 {
        match read_bytes(rest) {
            Some((s, r)) => {
                let mut bytes: Vec<u8> = Vec::new();
                push_bytes(&mut bytes, s);
                assert(bytes@ =~= s@);
                match string_of_bytes(bytes) {
                    Some(t) => Some((DataValue::Str(t), r)),
                    None => None,
                }
            },
            None => None,
        }
    } else if tag == 5 {
        match read_bytes(rest) {
            Some((s, r)) => {
                let mut bytes: Vec<u8> = Vec::new();
                push_bytes(&mut bytes, s);
                assert(bytes@ =~= s@);
                Some((DataValue::Bytes(bytes), r))
            },
            None => None,
        }
    } else if tag == 6 {
        if rest.len() < 16 {
            None
        } else {
            let head = slice_subrange(rest, 0, 16);
            let tail = slice_subrange(rest, 16, rest.len());
            assert(head@ =~= rest@.take(16));
            assert(tail@ =~= rest@.skip(16));
            Some((DataValue::Uuid(u128_from_le_bytes(head)), tail))
        }
    } else if tag == 7 || tag == 8 {
        match read_number(rest) {
            Some((n, r)) => match decode_values(r, n) {
                Some((l, t)) => Some(
                    (
                        if tag == 7 {
                            list_value(l)
                        } else {
                            json_value(l)
                        },
                        t,
                    ),
                ),
                None => None,
            },
            None => None,
        }
    } else if tag == 9 {
        match read_number(rest) {
            Some((n, r)) => match read_flag(r) {
                Some((f, t)) => Some((DataValue::Validity(unshift(n), f), t)),
                None => None,
            },
            None => None,
        }
    } else if tag == 10 {
        Some((DataValue::Bot, rest))
    } else {
        None
    }
}

fn decode_values<'a>(b: &'a [u8], n: u64) -> (r: Option<(Tuple, &'a [u8])>)
    ensures
        opt_of(r) == decode_many(b@, n as nat, Seq::empty()),
    decreases b@.len(), 1int,
{
    let mut acc: Tuple = List::new();
    let mut left: u64 = n;
    let mut rest: &'a [u8] = b;
    while left > 0
        invariant
            rest@.len() <= b@.len(),
            decode_many(b@, n as nat, Seq::empty()) == decode_many(rest@, left as nat, acc@),
        decreases left,
    {
        match decode(rest) {
            Some((v, r)) => {
                if r.len() < rest.len() {
                    acc.push(v);
                    rest = r;
                } else {
                    return None;
                }
            },
            None => {
                return None;
            },
        }
        left = left - 1;
    }
    Some((acc, rest))
}

/// The values of a row; nothing where the bytes are not those of a row.
pub fn decode_row(b: &Vec<u8>) -> (r: Option<Tuple>)
    ensures
        opt_of(r) == decode_row_of(b@),
{
    match read_number(b.as_slice()) {
        Some((n, r)) => match decode_values(r, n) {
            Some((l, t)) => if t.len() == 0 {
                Some(l)
            } else {
                None
            },
            None => None,
        },
        None => None,
    }
}

/// Whether every length inside a value can be written in eight bytes.
pub open spec fn sized(v: Value) -> bool
    decreases v, 0int,
{
    match v {
        Value::Str(s) => encode_utf8(s).len() <= u64::MAX,
        Value::Bytes(b) => b.len() <= u64::MAX,
        Value::List(l) => l.len() <= u64::MAX && all_sized_from(l, 0),
        Value::Json(l) => l.len() <= u64::MAX && all_sized_from(l, 0),
        _ => true,
    }
}

pub open spec fn all_sized_from(l: Seq<Value>, i: int) -> bool
    decreases l, l.len() - i,
{
    if i < 0 || i >= l.len() {
        true
    } else {
        sized(l[i]) && all_sized_from(l, i + 1)
    }
}

/// Decoding gives back the value that was encoded, and what follows it.
pub proof fn law_value_round_trip(v: Value, rest: Seq<u8>)
    requires
        sized(v),
    ensures
        decode_of(encode_of(v) + rest) == Some((v, rest)),
        encode_of(v).len() > 0,
    decreases v, 0int,
{
    lemma_auto_spec_u64_to_from_le_bytes();
    lemma_auto_spec_u128_to_from_le_bytes();
    let b = encode_of(v) + rest;
    match v {
        Value::Null => {
            assert(b.skip(1) =~= rest);
        },
        Value::Bool(f) => {
            assert(b.skip(1).skip(1) =~= rest);
        },
        Value::Int(n) => {
            assert(b.skip(1).take(8) =~= spec_u64_to_le_bytes(shifted(n)));
            assert(b.skip(1).skip(8) =~= rest);
        },
        Value::Real(n) => {
            assert(b.skip(1).take(16) =~= spec_u128_to_le_bytes(shifted_wide(n)));
            assert(b.skip(1).skip(16) =~= rest);
        },
        Value::Str(s) => {
            let e = encode_utf8(s);
            assert(b.skip(1).take(8) =~= spec_u64_to_le_bytes(e.len() as u64));
            assert(b.skip(1).skip(8).take(e.len() as int) =~= e);
            assert(b.skip(1).skip(8).skip(e.len() as int) =~= rest);
            encode_utf8_valid_utf8(s);
            encode_utf8_decode_utf8(s);
        },
        Value::Bytes(e) => {
            assert(b.skip(1).take(8) =~= spec_u64_to_le_bytes(e.len() as u64));
            assert(b.skip(1).skip(8).take(e.len() as int) =~= e);
            assert(b.skip(1).skip(8).skip(e.len() as int) =~= rest);
        },
        Value::Uuid(u) => {
            assert(b.skip(1).take(16) =~= spec_u128_to_le_bytes(u));
            assert(b.skip(1).skip(16) =~= rest);
        },
        Value::List(l) => {
            assert(b.skip(1).take(8) =~= spec_u64_to_le_bytes(l.len() as u64));
            assert(b.skip(1).skip(8) =~= encode_all_from(l, 0) + rest);
            lemma_many_round_trip(l, 0, rest, Seq::empty());
            assert(l.skip(0) =~= l);
        },
        Value::Json(l) => {
            assert(b.skip(1).take(8) =~= spec_u64_to_le_bytes(l.len() as u64));
            assert(b.skip(1).skip(8) =~= encode_all_from(l, 0) + rest);
            lemma_many_round_trip(l, 0, rest, Seq::empty());
            assert(l.skip(0) =~= l);
        },
        Value::Validity(t, a) => {
            assert(b.skip(1).take(8) =~= spec_u64_to_le_bytes(shifted(t)));
            assert(b.skip(1).skip(8) =~= seq![flag_byte(a)] + rest);
            assert(b.skip(1).skip(8).skip(1) =~= rest);
        },
        Value::Bot => {
            assert(b.skip(1) =~= rest);
        },
    }
}

proof fn lemma_many_round_trip(l: Seq<Value>, i: int, rest: Seq<u8>, acc: Seq<Value>)
    requires
        0 <= i <= l.len(),
        all_sized_from(l, i),
    ensures
        decode_many(encode_all_from(l, i) + rest, (l.len() - i) as nat, acc) == Some(
            (acc + l.skip(i), rest),
        ),
    decreases l, l.len() - i,
{
    if i == l.len() {
        assert(encode_all_from(l, i) + rest =~= rest);
        assert(acc + l.skip(i) =~= acc);
    } else {
        let tail = encode_all_from(l, i + 1) + rest;
        law_value_round_trip(l[i], tail);
        assert(encode_all_from(l, i) + rest =~= encode_of(l[i]) + tail);
        lemma_many_round_trip(l, i + 1, rest, acc.push(l[i]));
        assert(acc.push(l[i]) + l.skip(i + 1) =~= acc + l.skip(i));
    }
}

/// Decoding gives back the row that was encoded.
pub proof fn law_row_round_trip(l: Seq<Value>)
    requires
        l.len() <= u64::MAX,
        all_sized_from(l, 0),
    ensures
        decode_row_of(encode_row_of(l)) == Some(l),
{
    lemma_auto_spec_u64_to_from_le_bytes();
    let b = encode_row_of(l);
    assert(b.take(8) =~= spec_u64_to_le_bytes(l.len() as u64));
    assert(b.skip(8) =~= encode_all_from(l, 0) + Seq::<u8>::empty());
    lemma_many_round_trip(l, 0, Seq::empty(), Seq::empty());
    assert(Seq::<Value>::empty() + l.skip(0) =~= l);
}

} // verus!
