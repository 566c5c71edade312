//! Sets of rows, kept sorted and without repetition.
use vstd::prelude::*;

use crate::list::{Dup, List};
use crate::value::{
    Sign, Tuple, Value, compare_rows, law_rows_chain, law_rows_flip, lemma_rows_same, order_rows,
    same_row,
};

verus! {

/// The rows of a relation or a rule.
pub type Rows = List<Tuple>;

/// Whether rows are in ascending order and none occurs twice.
pub open spec fn ascending(rows: Seq<Seq<Value>>) -> bool {
    forall|i: int, j: int|
        0 <= i < j < rows.len() ==> order_rows(#[trigger] rows[i], #[trigger] rows[j], 0)
            == Sign::Less
}

/// The place behind the last of the first `i` rows that is not greater.
pub open spec fn slot_from(rows: Seq<Seq<Value>>, row: Seq<Value>, i: int) -> int
    decreases i,
{
    if i <= 0 || i > rows.len() {
        0
    } else if order_rows(rows[i - 1], row, 0) == Sign::More {
        slot_from(rows, row, i - 1)
    } else {
        i
    }
}

/// Rows with one more row among them.
pub open spec fn with_row(rows: Seq<Seq<Value>>, row: Seq<Value>) -> Seq<Seq<Value>> {
    let i = slot_from(rows, row, rows.len() as int);
    if i > 0 && rows[i - 1] == row {
        rows
    } else {
        rows.insert(i, row)
    }
}

pub proof fn lemma_slot(rows: Seq<Seq<Value>>, row: Seq<Value>, i: int)
    requires
        0 <= i <= rows.len(),
    ensures
        0 <= slot_from(rows, row, i) <= i,
        forall|k: int|
            slot_from(rows, row, i) <= k < i ==> order_rows(#[trigger] rows[k], row, 0)
                == Sign::More,
        slot_from(rows, row, i) > 0 ==> order_rows(rows[slot_from(rows, row, i) - 1], row, 0)
            != Sign::More,
    decreases i,
{
    if i > 0 && order_rows(rows[i - 1], row, 0) == Sign::More {
        lemma_slot(rows, row, i - 1);
    }
}

/// Adding a row keeps the order, and the rows are then those there were and
/// the new one.
pub proof fn law_with_row(rows: Seq<Seq<Value>>, row: Seq<Value>)
    requires
        ascending(rows),
    ensures
        ascending(with_row(rows, row)),
        forall|x: Seq<Value>| #[trigger]
            with_row(rows, row).contains(x) <==> rows.contains(x) || x == row,
{
    let n = rows.len() as int;
    let i = slot_from(rows, row, n);
    lemma_slot(rows, row, n);
    let out = with_row(rows, row);
    if i > 0 && rows[i - 1] == row {
        assert(rows.contains(row));
    } else {
        assert forall|a: int, b: int| 0 <= a < b < out.len() implies order_rows(
            #[trigger] out[a],
            #[trigger] out[b],
            0,
        ) == Sign::Less by {
            if b == i {
                lemma_rows_same(rows[i - 1], row);
                assert(order_rows(rows[i - 1], row, 0) == Sign::Less);
                if a < i - 1 {
                    law_rows_chain(rows[a], rows[i - 1], row, 0);
                }
            } else if a == i {
                law_rows_flip(rows[b - 1], row, 0);
                assert(order_rows(rows[b - 1], row, 0) == Sign::More);
            } else {
                let x = if a < i { a } else { a - 1 };
                let y = if b < i { b } else { b - 1 };
                assert(order_rows(rows[x], rows[y], 0) == Sign::Less);
            }
        }
        assert forall|x: Seq<Value>| #[trigger] out.contains(x) implies rows.contains(x) || x
            == row by {
            let k = choose|k: int| 0 <= k < out.len() && out[k] == x;
            if k < i {
                assert(rows[k] == x);
            } else if k > i {
                assert(rows[k - 1] == x);
            }
        }
        assert forall|x: Seq<Value>| rows.contains(x) || x == row implies #[trigger] out.contains(
            x,
        ) by {
            if x == row {
                assert(out[i] == x);
            } else {
                let k = choose|k: int| 0 <= k < rows.len() && rows[k] == x;
                if k < i {
                    assert(out[k] == x);
                } else {
                    assert(out[k + 1] == x);
                }
            }
        }
    }
}

/// Adds a row; tells whether it was new.
pub fn add_row(rows: &mut Rows, row: Tuple) -> (fresh: bool)
    ensures
        final(rows)@ == with_row(old(rows)@, row@),
        fresh == (final(rows)@.len() > old(rows)@.len()),
{
    let mut i: usize = rows.len();
    while i > 0 && compare_rows(rows.get(i - 1), &row) == Sign::More
        invariant
            i <= rows@.len(),
            rows@ == old(rows)@,
            slot_from(rows@, row@, rows@.len() as int) == slot_from(rows@, row@, i as int),
        decreases i,
    {
        i = i - 1;
    }
    assert(slot_from(rows@, row@, i as int) == i);
    if i > 0 && same_row(rows.get(i - 1), &row) {
        false
    } else {
        rows.insert(i, row);
        true
    }
}

/// Rows with those of `more` from place `i` on among them.
pub open spec fn with_rows_from(
    rows: Seq<Seq<Value>>,
    more: Seq<Seq<Value>>,
    i: int,
) -> Seq<Seq<Value>>
    decreases more.len() - i,
{
    if i < 0 || i >= more.len() {
        rows
    } else {
        with_rows_from(with_row(rows, more[i]), more, i + 1)
    }
}

/// The rows of a list, sorted and without repetition.
pub open spec fn sorted_of(rows: Seq<Seq<Value>>) -> Seq<Seq<Value>> {
    with_rows_from(Seq::empty(), rows, 0)
}

/// The rows of a list, sorted and without repetition.
pub fn sorted(rows: &Rows) -> (r: Rows)
    ensures
        r@ == sorted_of(rows@),
{
    let mut r: Rows = List::new();
    let mut i: usize = 0;
    while i < rows.len()
        invariant
            i <= rows@.len(),
            sorted_of(rows@) == with_rows_from(r@, rows@, i as int),
        decreases rows@.len() - i,
    {
        add_row(&mut r, rows.get(i).dup());
        i = i + 1;
    }
    r
}

pub proof fn lemma_with_rows(rows: Seq<Seq<Value>>, more: Seq<Seq<Value>>, i: int)
    requires
        ascending(rows),
        0 <= i <= more.len(),
    ensures
        ascending(with_rows_from(rows, more, i)),
        forall|x: Seq<Value>| #[trigger]
            with_rows_from(rows, more, i).contains(x) <==> rows.contains(x) || exists|k: int|
                i <= k < more.len() && #[trigger] more[k] == x,
    decreases more.len() - i,
{
    if i < more.len() {
        law_with_row(rows, more[i]);
        lemma_with_rows(with_row(rows, more[i]), more, i + 1);
        assert forall|x: Seq<Value>| #[trigger]
            with_rows_from(rows, more, i).contains(x) implies rows.contains(x) || exists|k: int|
            i <= k < more.len() && #[trigger] more[k] == x by {
            if !rows.contains(x) && x == more[i] {
                assert(more[i] == x);
            }
        }
        assert forall|x: Seq<Value>|
            rows.contains(x) || (exists|k: int| i <= k < more.len() && #[trigger] more[k]
                == x) implies #[trigger] with_rows_from(rows, more, i).contains(x) by {
            assert(with_row(rows, more[i]).contains(x) <==> rows.contains(x) || x == more[i]);
            if !with_row(rows, more[i]).contains(x) {
                let k = choose|k: int| i <= k < more.len() && #[trigger] more[k] == x;
                assert(k > i);
            }
        }
    }
}

/// Sorting gives the rows of the list in ascending order, each once.
pub proof fn law_sorted(rows: Seq<Seq<Value>>)
    ensures
        ascending(sorted_of(rows)),
        forall|x: Seq<Value>| #[trigger] sorted_of(rows).contains(x) <==> rows.contains(x),
{
    lemma_with_rows(Seq::empty(), rows, 0);
    assert forall|x: Seq<Value>| #[trigger] sorted_of(rows).contains(x) <==> rows.contains(x) by {
        if rows.contains(x) {
            let k = choose|k: int| 0 <= k < rows.len() && rows[k] == x;
            assert(0 <= k < rows.len() && rows[k] == x);
        }
    }
}

/// The first `n` values of a row.
pub fn prefix(row: &Tuple, n: usize) -> (r: Tuple)
    requires
        n <= row@.len(),
    ensures
        r@ == row@.take(n as int),
{
    let mut r: Tuple = List::new();
    let mut i: usize = 0;
    while i < n
        invariant
            i <= n <= row@.len(),
            r@ == row@.take(i as int),
        decreases n - i,
    {
        r.push(row.get(i).dup());
        assert(row@.take(i + 1) =~= row@.take(i as int).push(row@[i as int]));
        i = i + 1;
    }
    r
}

/// The values of two rows, one after the other.
pub fn joined(a: &Tuple, b: &Tuple) -> (r: Tuple)
    ensures
        r@ == a@ + b@,
{
    let mut r: Tuple = a.dup();
    let mut i: usize = 0;
    assert(r@ =~= a@ + b@.take(0));
    while i < b.len()
        invariant
            i <= b@.len(),
            r@ == a@ + b@.take(i as int),
        decreases b@.len() - i,
    {
        r.push(b.get(i).dup());
        assert(a@ + b@.take(i + 1) =~= (a@ + b@.take(i as int)).push(b@[i as int]));
        i = i + 1;
    }
    assert(b@.take(i as int) =~= b@);
    r
}

/// Whether two lists hold the same rows in the same order.
pub fn same_rows(a: &Rows, b: &Rows) -> (r: bool)
    ensures
        r == (a@ == b@),
{
    if a.len() != b.len() {
        return false;
    }
    let mut i: usize = 0;
    while i < a.len()
        invariant
            i <= a@.len(),
            a@.len() == b@.len(),
            a@.take(i as int) =~= b@.take(i as int),
        decreases a@.len() - i,
    {
        if !same_row(a.get(i), b.get(i)) {
            assert(a@[i as int] != b@[i as int]);
            return false;
        }
        assert(a@.take(i + 1) =~= a@.take(i as int).push(a@[i as int]));
        assert(b@.take(i + 1) =~= b@.take(i as int).push(b@[i as int]));
        i = i + 1;
    }
    assert(a@.take(i as int) =~= a@);
    assert(b@.take(i as int) =~= b@);
    true
}

} // verus!
