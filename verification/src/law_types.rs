//! What columns hold of the values that are written to them.
use vstd::prelude::*;

use crate::law_columns::worth;
use crate::schema::{ColType, all_coerced, coerced};
use crate::value::Value;

verus! {

/// A column of integers and one of reals take numbers, and what they hold is worth
/// what was written; a number that is not whole does not fit among integers.
pub proof fn law_numbers_keep_their_worth(v: Value, now: i64)
    ensures
        coerced(v, ColType::Int, now) matches Some(w) ==> w is Int && (v is Int || v is Real)
            && worth(w) == worth(v),
        coerced(v, ColType::Float, now) matches Some(w) ==> w is Real && (v is Int || v is Real)
            && worth(w) == worth(v),
        v is Int ==> coerced(v, ColType::Int, now) == Some(v),
        v is Int || v is Real ==> coerced(v, ColType::Float, now) is Some,
        v is Real && worth(v) % 1_000_000 != 0 ==> coerced(v, ColType::Int, now) is None,
{
}

/// Every other column of a kind holds a value of that kind as it is, and takes no
/// value of another; null is taken only where it may be.
pub proof fn law_kinds_are_held(v: Value, t: ColType, now: i64)
    ensures
        coerced(v, ColType::Any, now) == Some(v),
        coerced(v, ColType::Bool, now) == (if v is Bool {
            Some(v)
        } else {
            None
        }),
        coerced(v, ColType::Str, now) == (if v is Str {
            Some(v)
        } else {
            None
        }),
        coerced(v, ColType::Bytes, now) == (if v is Bytes {
            Some(v)
        } else {
            None
        }),
        coerced(v, ColType::Uuid, now) == (if v is Uuid {
            Some(v)
        } else {
            None
        }),
        coerced(v, ColType::TxTime, now) is None,
        v is Null && (t is Int || t is Float || t is Bool || t is Str || t is Bytes || t is Uuid
            || t is Validity || t is ListOf || t is Vector) ==> coerced(v, t, now) is None,
        coerced(Value::Null, ColType::Nullable(Box::new(t)), now) == Some(Value::Null),
        !(v is Null) ==> coerced(v, ColType::Nullable(Box::new(t)), now) == coerced(v, t, now),
{
}

/// A point of valid time is written as a pair of an instant and whether the fact
/// holds from there on, or by a word for the instant of the write.
pub proof fn law_valid_times_are_written(t: i64, holds: bool, now: i64)
    ensures
        coerced(Value::List(seq![Value::Int(t), Value::Bool(holds)]), ColType::Validity, now)
            == Some(Value::Validity(t, holds)),
        coerced(Value::Validity(t, holds), ColType::Validity, now) == Some(
            Value::Validity(t, holds),
        ),
        coerced(Value::Str("ASSERT"@), ColType::Validity, now) == Some(Value::Validity(now, true)),
        coerced(Value::Str("RETRACT"@), ColType::Validity, now) == Some(
            Value::Validity(now, false),
        ),
{
    reveal_strlit("ASSERT");
    reveal_strlit("RETRACT");
    assert("ASSERT"@.len() == 6 && "RETRACT"@.len() == 7);
    let l = seq![Value::Int(t), Value::Bool(holds)];
    assert(l.len() == 2 && l[0] == Value::Int(t) && l[1] == Value::Bool(holds));
}

proof fn lemma_all(l: Seq<Value>, u: ColType, i: int, now: i64, acc: Seq<Value>)
    requires
        0 <= i <= l.len(),
        acc.len() == i,
        forall|k: int| 0 <= k < i ==> coerced(l[k], u, now) == Some(#[trigger] acc[k]),
    ensures
        all_coerced(l, u, i, now, acc) matches Some(s) ==> s.len() == l.len() && forall|k: int|
            0 <= k < l.len() ==> coerced(l[k], u, now) == Some(#[trigger] s[k]),
        all_coerced(l, u, i, now, acc) is None ==> exists|k: int|
            i <= k < l.len() && coerced(#[trigger] l[k], u, now) is None,
    decreases l.len() - i,
{
    if i < l.len() {
        assert(l[i] == l[i]);
        match coerced(l[i], u, now) {
            Some(w) => {
                lemma_all(l, u, i + 1, now, acc.push(w));
            },
            None => {},
        }
    }
}

/// A column of lists holds every element of a list as a column of the elements'
/// type would, and takes the list if and only if each of them fits.
pub proof fn law_lists_hold_elements(l: Seq<Value>, u: ColType, now: i64)
    ensures
        coerced(Value::List(l), ColType::ListOf(Box::new(u)), now) matches Some(w)
            ==> (w matches Value::List(s) && s.len() == l.len() && forall|k: int|
            0 <= k < l.len() ==> coerced(l[k], u, now) == Some(#[trigger] s[k])),
        coerced(Value::List(l), ColType::ListOf(Box::new(u)), now) is None ==> exists|k: int|
            0 <= k < l.len() && coerced(#[trigger] l[k], u, now) is None,
{
    lemma_all(l, u, 0, now, Seq::empty());
    let t = ColType::ListOf(Box::new(u));
    assert(coerced(Value::List(l), t, now) == match all_coerced(l, u, 0, now, Seq::empty()) {
        Some(s) => Some(Value::List(s)),
        None => None,
    });
}

} // verus!
