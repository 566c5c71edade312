//! What the order of values means.
use vstd::prelude::*;

use crate::expr::loose_order;
use crate::value::{
    Sign, Value, law_order_flips, lemma_order_same, order, order_bytes, order_chars, order_rows,
};

verus! {

/// Whether a number is less than another, by its worth.
pub open spec fn is_less(a: Value, b: Value) -> bool {
    match (a, b) {
        (Value::Int(x), Value::Int(y)) => x < y,
        (Value::Int(x), Value::Real(y)) => x * 1_000_000 < y,
        (Value::Real(x), Value::Int(y)) => x < y * 1_000_000,
        (Value::Real(x), Value::Real(y)) => x < y,
        _ => false,
    }
}

/// Numbers are ordered by what they are worth; where two are worth the same, an
/// integer comes before a real, which comparisons in expressions do not tell
/// apart.
pub proof fn law_numbers_by_worth(a: Value, b: Value)
    requires
        a is Int || a is Real,
        b is Int || b is Real,
    ensures
        loose_order(a, b) == Sign::Less <==> is_less(a, b),
        loose_order(a, b) == Sign::More <==> is_less(b, a),
        order(a, b) == Sign::Less <==> is_less(a, b) || (!is_less(b, a) && a is Int && b is Real),
        order(a, b) == Sign::More <==> is_less(b, a) || (!is_less(a, b) && a is Real && b is Int),
{
}

/// Values that are not both numbers compare alike everywhere.
pub proof fn law_comparisons_agree(a: Value, b: Value)
    requires
        !(a is Int || a is Real) || !(b is Int || b is Real),
    ensures
        loose_order(a, b) == order(a, b),
{
}

/// Null comes first; then truth values, of which false is the first, numbers,
/// texts, byte strings, identifiers, lists, objects and points in time; and what
/// is greater than every other value comes last.
pub proof fn law_kinds_in_order(a: Value, b: Value)
    ensures
        a is Null && !(b is Null) ==> order(a, b) == Sign::Less,
        a is Bool && !(b is Null || b is Bool) ==> order(a, b) == Sign::Less,
        a == Value::Bool(false) && b == Value::Bool(true) ==> order(a, b) == Sign::Less,
        (a is Int || a is Real) && (b is Str || b is Bytes || b is Uuid || b is List || b is Json
            || b is Validity || b is Bot) ==> order(a, b) == Sign::Less,
        a is Str && (b is Bytes || b is Uuid || b is List || b is Json || b is Validity || b is Bot)
            ==> order(a, b) == Sign::Less,
        a is Bytes && (b is Uuid || b is List || b is Json || b is Validity || b is Bot) ==> order(
            a,
            b,
        ) == Sign::Less,
        a is Uuid && (b is List || b is Json || b is Validity || b is Bot) ==> order(a, b)
            == Sign::Less,
        a is List && (b is Json || b is Validity || b is Bot) ==> order(a, b) == Sign::Less,
        a is Json && (b is Validity || b is Bot) ==> order(a, b) == Sign::Less,
        a is Validity && b is Bot ==> order(a, b) == Sign::Less,
{
}

/// Points in time run from the latest to the earliest; at one instant the
/// assertion comes before the retraction.
pub proof fn law_latest_first(t: i64, p: bool, u: i64, q: bool)
    ensures
        order(Value::Validity(t, p), Value::Validity(u, q)) == Sign::Less <==> t > u || (t == u && p
            && !q),
{
}

/// Identifiers are ordered as numbers.
pub proof fn law_identifiers_as_numbers(x: u128, y: u128)
    ensures
        order(Value::Uuid(x), Value::Uuid(y)) == Sign::Less <==> x < y,
{
}

/// Whether two texts are the same up to a place, at which the first one ends or has
/// what comes first.
pub open spec fn texts_part(s: Seq<char>, t: Seq<char>, k: int) -> bool {
    &&& 0 <= k <= s.len()
    &&& k <= t.len()
    &&& s.take(k) == t.take(k)
    &&& (k == s.len() && k < t.len()) || (k < s.len() && k < t.len() && s[k] < t[k])
}

proof fn lemma_texts(s: Seq<char>, t: Seq<char>, i: int) -> (k: int)
    requires
        0 <= i <= s.len(),
        i <= t.len(),
        s.take(i) == t.take(i),
    ensures
        order_chars(s, t, i) == Sign::Less ==> texts_part(s, t, k),
        order_chars(s, t, i) == Sign::More ==> texts_part(t, s, k),
        order_chars(s, t, i) == Sign::Same ==> s == t,
    decreases s.len() - i,
{
    if i < s.len() && i < t.len() && s[i] == t[i] {
        assert(s.take(i + 1) =~= s.take(i).push(s[i]));
        assert(t.take(i + 1) =~= t.take(i).push(t[i]));
        lemma_texts(s, t, i + 1)
    } else {
        if i == s.len() && i == t.len() {
            assert(s.take(i) =~= s);
            assert(t.take(i) =~= t);
        }
        i
    }
}

/// Texts are ordered like words in a dictionary, character by character.
pub proof fn law_texts_in_order(s: Seq<char>, t: Seq<char>)
    ensures
        order(Value::Str(s), Value::Str(t)) == Sign::Less <==> exists|k: int| #[trigger]
            texts_part(s, t, k),
        order(Value::Str(s), Value::Str(t)) == Sign::Same <==> s == t,
{
    assert(s.take(0) =~= t.take(0));
    let k = lemma_texts(s, t, 0);
    lemma_order_same(Value::Str(s), Value::Str(t));
    assert(order(Value::Str(s), Value::Str(t)) == order_chars(s, t, 0));
    if exists|m: int| #[trigger] texts_part(s, t, m) {
        let m = choose|m: int| #[trigger] texts_part(s, t, m);
        if order_chars(s, t, 0) == Sign::More {
            if m < k {
                assert(t.take(k)[m] == s.take(k)[m]);
            }
            if k < m {
                assert(t.take(m)[k] == s.take(m)[k]);
            }
        } else if order_chars(s, t, 0) == Sign::Same {
            assert(s == t);
        }
    }
}

/// Whether two byte strings are the same up to a place, at which the first one ends or has
/// what comes first.
pub open spec fn bytes_part(s: Seq<u8>, t: Seq<u8>, k: int) -> bool {
    &&& 0 <= k <= s.len()
    &&& k <= t.len()
    &&& s.take(k) == t.take(k)
    &&& (k == s.len() && k < t.len()) || (k < s.len() && k < t.len() && s[k] < t[k])
}

proof fn lemma_bytes(s: Seq<u8>, t: Seq<u8>, i: int) -> (k: int)
    requires
        0 <= i <= s.len(),
        i <= t.len(),
        s.take(i) == t.take(i),
    ensures
        order_bytes(s, t, i) == Sign::Less ==> bytes_part(s, t, k),
        order_bytes(s, t, i) == Sign::More ==> bytes_part(t, s, k),
        order_bytes(s, t, i) == Sign::Same ==> s == t,
    decreases s.len() - i,
{
    if i < s.len() && i < t.len() && s[i] == t[i] {
        assert(s.take(i + 1) =~= s.take(i).push(s[i]));
        assert(t.take(i + 1) =~= t.take(i).push(t[i]));
        lemma_bytes(s, t, i + 1)
    } else {
        if i == s.len() && i == t.len() {
            assert(s.take(i) =~= s);
            assert(t.take(i) =~= t);
        }
        i
    }
}

/// Byte strings are ordered byte by byte.
pub proof fn law_bytes_in_order(s: Seq<u8>, t: Seq<u8>)
    ensures
        order(Value::Bytes(s), Value::Bytes(t)) == Sign::Less <==> exists|k: int| #[trigger]
            bytes_part(s, t, k),
        order(Value::Bytes(s), Value::Bytes(t)) == Sign::Same <==> s == t,
{
    assert(s.take(0) =~= t.take(0));
    let k = lemma_bytes(s, t, 0);
    lemma_order_same(Value::Bytes(s), Value::Bytes(t));
    assert(order(Value::Bytes(s), Value::Bytes(t)) == order_bytes(s, t, 0));
    if exists|m: int| #[trigger] bytes_part(s, t, m) {
        let m = choose|m: int| #[trigger] bytes_part(s, t, m);
        if order_bytes(s, t, 0) == Sign::More {
            if m < k {
                assert(t.take(k)[m] == s.take(k)[m]);
            }
            if k < m {
                assert(t.take(m)[k] == s.take(m)[k]);
            }
        } else if order_bytes(s, t, 0) == Sign::Same {
            assert(s == t);
        }
    }
}

/// Whether two lists are the same up to a place, at which the first one ends or has
/// what comes first.
pub open spec fn lists_part(s: Seq<Value>, t: Seq<Value>, k: int) -> bool {
    &&& 0 <= k <= s.len()
    &&& k <= t.len()
    &&& s.take(k) == t.take(k)
    &&& (k == s.len() && k < t.len()) || (k < s.len() && k < t.len() && order(s[k], t[k]) == Sign::Less)
}

proof fn lemma_lists(s: Seq<Value>, t: Seq<Value>, i: int) -> (k: int)
    requires
        0 <= i <= s.len(),
        i <= t.len(),
        s.take(i) == t.take(i),
    ensures
        order_rows(s, t, i) == Sign::Less ==> lists_part(s, t, k),
        order_rows(s, t, i) == Sign::More ==> lists_part(t, s, k),
        order_rows(s, t, i) == Sign::Same ==> s == t,
    decreases s.len() - i,
{
    if i < s.len() && i < t.len() {
        lemma_order_same(s[i], t[i]);
        law_order_flips(s[i], t[i]);
    }
    if i < s.len() && i < t.len() && s[i] == t[i] {
        assert(s.take(i + 1) =~= s.take(i).push(s[i]));
        assert(t.take(i + 1) =~= t.take(i).push(t[i]));
        lemma_lists(s, t, i + 1)
    } else {
        if i == s.len() && i == t.len() {
            assert(s.take(i) =~= s);
            assert(t.take(i) =~= t);
        }
        i
    }
}

/// Lists are ordered element by element.
pub proof fn law_lists_in_order(s: Seq<Value>, t: Seq<Value>)
    ensures
        order(Value::List(s), Value::List(t)) == Sign::Less <==> exists|k: int| #[trigger]
            lists_part(s, t, k),
        order(Value::List(s), Value::List(t)) == Sign::Same <==> s == t,
{
    assert(s.take(0) =~= t.take(0));
    let k = lemma_lists(s, t, 0);
    lemma_order_same(Value::List(s), Value::List(t));
    assert(order(Value::List(s), Value::List(t)) == order_rows(s, t, 0));
    if exists|m: int| #[trigger] lists_part(s, t, m) {
        let m = choose|m: int| #[trigger] lists_part(s, t, m);
        if order_rows(s, t, 0) == Sign::More {
            if m < k {
                assert(t.take(k)[m] == s.take(k)[m]);
            }
            if k < m {
                assert(t.take(m)[k] == s.take(m)[k]);
            }
            if m < s.len() && m < t.len() {
                lemma_order_same(s[m], t[m]);
                law_order_flips(s[m], t[m]);
            }
            if k < s.len() && k < t.len() {
                lemma_order_same(s[k], t[k]);
                law_order_flips(s[k], t[k]);
            }
        } else if order_rows(s, t, 0) == Sign::Same {
            if m < s.len() {
                lemma_order_same(s[m], s[m]);
            }
            assert(s == t);
        }
    }
}

} // verus!
