//! What holds of the best few packs of each group.
use vstd::prelude::*;

use crate::error::Fault;
use crate::law_columns::{is_pack, price};
use crate::law_order::{is_less, law_numbers_by_worth};
use crate::topk::{
    all_packs, best_from, has_pack, pack_order, pack_slot_from, run_end_from, run_start_from,
    with_pack,
};
use crate::value::{
    Sign, Value, flip, law_order_chains, law_order_flips, law_rows_chain, law_rows_flip,
    lemma_order_same, lemma_rows_same, order, order_rows,
};

verus! {

/// The group of a row: everything but its pack.
pub open spec fn group_of(row: Seq<Value>) -> Seq<Value> {
    row.drop_last()
}

/// Whether rows are in the order of groups and costs, none twice.
pub open spec fn by_cost(rows: Seq<Seq<Value>>) -> bool {
    forall|i: int, j: int|
        0 <= i < j < rows.len() ==> pack_order(#[trigger] rows[i], #[trigger] rows[j]) == Sign::Less
}

/// Whether no group has more than `k` rows: where two rows are `k` or more
/// places apart, they are of different groups.
pub open spec fn capped(rows: Seq<Seq<Value>>, k: u64) -> bool {
    forall|i: int, j: int|
        0 <= i && i + k <= j < rows.len() ==> group_of(#[trigger] rows[i]) != group_of(
            #[trigger] rows[j],
        )
}

proof fn lemma_pack_flip(a: Seq<Value>, b: Seq<Value>)
    requires
        has_pack(a),
        has_pack(b),
    ensures
        pack_order(b, a) == flip(pack_order(a, b)),
{
    reveal(pack_order);
    law_rows_flip(a.drop_last(), b.drop_last(), 0);
    law_order_flips(a.last(), b.last());
}

proof fn lemma_pack_same(a: Seq<Value>, b: Seq<Value>)
    requires
        has_pack(a),
        has_pack(b),
    ensures
        pack_order(a, b) == Sign::Same <==> a == b,
{
    reveal(pack_order);
    lemma_rows_same(a.drop_last(), b.drop_last());
    lemma_order_same(a.last(), b.last());
    if a.drop_last() == b.drop_last() && a.last() == b.last() {
        assert(a =~= a.drop_last().push(a.last()));
        assert(b =~= b.drop_last().push(b.last()));
    }
}

proof fn lemma_pack_chain(a: Seq<Value>, b: Seq<Value>, c: Seq<Value>)
    requires
        has_pack(a),
        has_pack(b),
        has_pack(c),
        pack_order(a, b) == Sign::Less,
        pack_order(b, c) == Sign::Less,
    ensures
        pack_order(a, c) == Sign::Less,
{
    reveal(pack_order);
    let p = a.drop_last();
    let q = b.drop_last();
    let r = c.drop_last();
    lemma_rows_same(p, q);
    lemma_rows_same(q, r);
    lemma_rows_same(p, r);
    if order_rows(p, q, 0) == Sign::Less && order_rows(q, r, 0) == Sign::Less {
        law_rows_chain(p, q, r, 0);
    }
    lemma_order_same(a.last(), b.last());
    lemma_order_same(b.last(), c.last());
    if order(a.last(), b.last()) == Sign::Less && order(b.last(), c.last()) == Sign::Less {
        law_order_chains(a.last(), b.last(), c.last());
    }
}

proof fn lemma_slot(rows: Seq<Seq<Value>>, row: Seq<Value>, i: int)
    requires
        0 <= i <= rows.len(),
    ensures
        0 <= pack_slot_from(rows, row, i) <= i,
        forall|k: int|
            pack_slot_from(rows, row, i) <= k < i ==> pack_order(#[trigger] rows[k], row)
                == Sign::More,
        pack_slot_from(rows, row, i) > 0 ==> pack_order(
            rows[pack_slot_from(rows, row, i) - 1],
            row,
        ) != Sign::More,
    decreases i,
{
    if i > 0 && pack_order(rows[i - 1], row) == Sign::More {
        lemma_slot(rows, row, i - 1);
    }
}

proof fn lemma_run_end(rows: Seq<Seq<Value>>, row: Seq<Value>, i: int)
    requires
        0 <= i <= rows.len(),
        all_packs(rows),
    ensures
        i <= run_end_from(rows, row, i) <= rows.len(),
        forall|j: int|
            i <= j < run_end_from(rows, row, i) ==> group_of(#[trigger] rows[j]) == group_of(row),
        run_end_from(rows, row, i) < rows.len() ==> group_of(rows[run_end_from(rows, row, i)])
            != group_of(row),
    decreases rows.len() - i,
{
    if i < rows.len() {
        assert(has_pack(rows[i]));
        if rows[i].drop_last() == row.drop_last() {
            lemma_run_end(rows, row, i + 1);
        }
    }
}

proof fn lemma_run_start(rows: Seq<Seq<Value>>, row: Seq<Value>, i: int)
    requires
        0 <= i <= rows.len(),
        all_packs(rows),
    ensures
        0 <= run_start_from(rows, row, i) <= i,
        forall|j: int|
            run_start_from(rows, row, i) <= j < i ==> group_of(#[trigger] rows[j]) == group_of(row),
        run_start_from(rows, row, i) > 0 ==> group_of(rows[run_start_from(rows, row, i) - 1])
            != group_of(row),
    decreases i,
{
    if i > 0 {
        assert(has_pack(rows[i - 1]));
        if rows[i - 1].drop_last() == row.drop_last() {
            lemma_run_start(rows, row, i - 1);
        }
    }
}

proof fn lemma_between(rows: Seq<Seq<Value>>, i: int, m: int, j: int)
    requires
        all_packs(rows),
        by_cost(rows),
        0 <= i <= m <= j < rows.len(),
        group_of(rows[i]) == group_of(rows[j]),
    ensures
        group_of(rows[m]) == group_of(rows[i]),
{
    reveal(pack_order);
    if i < m && m < j {
        let a = rows[i].drop_last();
        let b = rows[m].drop_last();
        assert(pack_order(rows[i], rows[m]) == Sign::Less);
        assert(pack_order(rows[m], rows[j]) == Sign::Less);
        lemma_rows_same(a, b);
        law_rows_flip(a, b, 0);
    }
}

proof fn lemma_insert(rows: Seq<Seq<Value>>, row: Seq<Value>, i: int)
    requires
        all_packs(rows),
        by_cost(rows),
        has_pack(row),
        i == pack_slot_from(rows, row, rows.len() as int),
        !(i > 0 && rows[i - 1] == row),
    ensures
        0 <= i <= rows.len(),
        all_packs(rows.insert(i, row)),
        by_cost(rows.insert(i, row)),
{
    let more = rows.insert(i, row);
    lemma_slot(rows, row, rows.len() as int);
    assert forall|a: int| 0 <= a < more.len() implies has_pack(#[trigger] more[a]) by {
        if a < i {
            assert(more[a] == rows[a]);
        } else if a > i {
            assert(more[a] == rows[a - 1]);
        }
    }
    assert forall|a: int, b: int| 0 <= a < b < more.len() implies pack_order(
        #[trigger] more[a],
        #[trigger] more[b],
    ) == Sign::Less by {
        if b == i {
            lemma_pack_same(rows[i - 1], row);
            assert(pack_order(rows[i - 1], row) == Sign::Less);
            if a < i - 1 {
                assert(pack_order(rows[a], rows[i - 1]) == Sign::Less);
                lemma_pack_chain(rows[a], rows[i - 1], row);
            }
        } else if a == i {
            assert(more[b] == rows[b - 1]);
            assert(pack_order(rows[b - 1], row) == Sign::More);
            lemma_pack_flip(rows[b - 1], row);
        } else {
            let x = if a < i { a } else { a - 1 };
            let y = if b < i { b } else { b - 1 };
            assert(more[a] == rows[x] && more[b] == rows[y]);
        }
    }
}

proof fn lemma_with_pack(rows: Seq<Seq<Value>>, row: Seq<Value>, k: u64)
    requires
        all_packs(rows),
        by_cost(rows),
        capped(rows, k),
        has_pack(row),
        k > 0,
    ensures
        all_packs(with_pack(rows, row, k)),
        by_cost(with_pack(rows, row, k)),
        capped(with_pack(rows, row, k), k),
{
    let i = pack_slot_from(rows, row, rows.len() as int);
    if !(i > 0 && rows[i - 1] == row) {
        let more = rows.insert(i, row);
        lemma_insert(rows, row, i);
        let end = run_end_from(more, row, i);
        let start = run_start_from(more, row, i);
        lemma_run_end(more, row, i);
        lemma_run_start(more, row, i);
        assert(more[i] == row);
        assert(end > i) by {
            if end == i {
                assert(group_of(more[i]) == group_of(row));
            }
        }
        // Every row of the group stands between the start and the end.
        assert forall|j: int|
            0 <= j < more.len() && group_of(#[trigger] more[j]) == group_of(row) implies start <= j
            < end by {
            if j < start {
                lemma_between(more, j, start - 1, i);
            } else if j >= end {
                lemma_between(more, i, end, j);
            }
        }
        assert(end - start <= k + 1) by {
            if end - start >= 2 {
                let x = if start == i { start + 1 } else { start };
                let y = if end - 1 == i { end - 2 } else { end - 1 };
                let a = if x < i { x } else { x - 1 };
                let b = if y < i { y } else { y - 1 };
                assert(more[x] == rows[a]);
                assert(more[y] == rows[b]);
                assert(group_of(more[x]) == group_of(row) && group_of(more[y]) == group_of(row));
                assert(group_of(rows[a]) == group_of(rows[b]));
                if a + k <= b {
                    assert(false);
                }
            }
        }
        let cut = end - start > k && end > 0 && end <= more.len();
        let out = if cut { more.remove(end - 1) } else { more };
        assert(out == with_pack(rows, row, k));
        assert forall|a: int| 0 <= a < out.len() implies has_pack(#[trigger] out[a]) by {
            let x = if !cut || a < end - 1 { a } else { a + 1 };
            assert(out[a] == more[x]);
        }
        assert forall|a: int, b: int| 0 <= a < b < out.len() implies pack_order(
            #[trigger] out[a],
            #[trigger] out[b],
        ) == Sign::Less by {
            let x = if !cut || a < end - 1 { a } else { a + 1 };
            let y = if !cut || b < end - 1 { b } else { b + 1 };
            assert(out[a] == more[x] && out[b] == more[y]);
        }
        assert forall|a: int, b: int| 0 <= a && a + k <= b < out.len() implies group_of(
            #[trigger] out[a],
        ) != group_of(#[trigger] out[b]) by {
            let x = if !cut || a < end - 1 { a } else { a + 1 };
            let y = if !cut || b < end - 1 { b } else { b + 1 };
            assert(out[a] == more[x] && out[b] == more[y]);
            if group_of(more[x]) == group_of(more[y]) {
                if group_of(more[x]) == group_of(row) {
                    assert(start <= x && y < end);
                    assert(!cut || (x < end - 1 && y < end - 1) || x == a + 1 || y == b + 1);
                } else {
                    lemma_between(more, x, if x <= i && i <= y { i } else { x }, y);
                    assert(!(x <= i && i <= y));
                    let p = if x < i { x } else { x - 1 };
                    let q = if y < i { y } else { y - 1 };
                    assert(more[x] == rows[p] && more[y] == rows[q]);
                    if cut && x < end - 1 && y >= end - 1 {
                        lemma_between(more, x, end - 1, y);
                    }
                    assert(group_of(rows[p]) == group_of(rows[q]));
                    assert(p + k <= q);
                }
            }
        }
    }
}

/// Whether some place begins `k` rows of the group of a row, all of which come
/// before it.
pub open spec fn beaten_at(out: Seq<Seq<Value>>, r: Seq<Value>, k: u64, at: int) -> bool {
    &&& 0 <= at
    &&& at + k <= out.len()
    &&& forall|j: int|
        at <= j < at + k ==> group_of(#[trigger] out[j]) == group_of(r) && pack_order(out[j], r)
            == Sign::Less
}

/// Whether a row is among the best, or `k` rows of its group are better.
pub open spec fn judged(out: Seq<Seq<Value>>, r: Seq<Value>, k: u64) -> bool {
    out.contains(r) || exists|at: int| #[trigger] beaten_at(out, r, k, at)
}

#[verifier::spinoff_prover]
#[verifier::rlimit(40)]
proof fn lemma_judged(rows: Seq<Seq<Value>>, row: Seq<Value>, k: u64, r: Seq<Value>)
    requires
        all_packs(rows),
        by_cost(rows),
        capped(rows, k),
        has_pack(row),
        has_pack(r),
        k > 0,
        judged(rows, r, k) || r == row,
    ensures
        judged(with_pack(rows, row, k), r, k),
{
    let i = pack_slot_from(rows, row, rows.len() as int);
    let out = with_pack(rows, row, k);
    lemma_slot(rows, row, rows.len() as int);
    if i > 0 && rows[i - 1] == row {
        assert(rows.contains(row));
    } else {
        let more = rows.insert(i, row);
        lemma_insert(rows, row, i);
        let end = run_end_from(more, row, i);
        let start = run_start_from(more, row, i);
        lemma_run_end(more, row, i);
        lemma_run_start(more, row, i);
        assert(more[i] == row);
        assert(end > i) by {
            if end == i {
                assert(group_of(more[i]) == group_of(row));
            }
        }
        let cut = end - start > k;
        if !cut {
            assert(out == more);
            lemma_judged_insert(rows, row, k, r, i, start, end);
        } else {
            assert(out == more.remove(end - 1));
            let gone = more[end - 1];
            lemma_beats_gone(more, k, start, end, row, i);
            assert forall|j: int| 0 <= j < end - 1 implies out[j] == #[trigger] more[j] by {}
            if r == gone {
                assert(beaten_at(out, gone, k, start)) by {
                    assert forall|j: int| start <= j < start + k implies group_of(
                        #[trigger] out[j],
                    ) == group_of(gone) && pack_order(out[j], gone) == Sign::Less by {
                        assert(out[j] == more[j]);
                    }
                }
            } else if r == row {
                let x = i;
                assert(x < end - 1);
                assert(out[x] == row);
            } else if rows.contains(r) {
                let a = choose|a: int| 0 <= a < rows.len() && rows[a] == r;
                let x = if a < i { a } else { a + 1 };
                assert(more[x] == r);
                assert(x != end - 1);
                let y = if x < end - 1 { x } else { x - 1 };
                assert(out[y] == r);
            } else {
                let at = choose|at: int| #[trigger] beaten_at(rows, r, k, at);
                lemma_judged_cut(rows, row, k, r, i, start, end, at);
            }
        }
    }
}

/// The rows before the last of a group come before it.
proof fn lemma_beats_gone(
    more: Seq<Seq<Value>>,
    k: u64,
    start: int,
    end: int,
    row: Seq<Value>,
    i: int,
)
    requires
        by_cost(more),
        0 <= start <= i < end <= more.len(),
        end - start > k,
        k > 0,
        forall|j: int| start <= j < end ==> group_of(#[trigger] more[j]) == group_of(row),
    ensures
        forall|j: int|
            start <= j < start + k ==> group_of(#[trigger] more[j]) == group_of(more[end - 1])
                && pack_order(more[j], more[end - 1]) == Sign::Less,
{
    assert forall|j: int| start <= j < start + k implies group_of(#[trigger] more[j]) == group_of(
        more[end - 1],
    ) && pack_order(more[j], more[end - 1]) == Sign::Less by {
        assert(j < end - 1);
        assert(group_of(more[end - 1]) == group_of(row));
    }
}

proof fn lemma_judged_insert(
    rows: Seq<Seq<Value>>,
    row: Seq<Value>,
    k: u64,
    r: Seq<Value>,
    i: int,
    start: int,
    end: int,
)
    requires
        all_packs(rows),
        by_cost(rows),
        has_pack(row),
        has_pack(r),
        k > 0,
        0 <= i <= rows.len(),
        0 <= start <= i < end <= rows.len() + 1,
        end - start <= k,
        all_packs(rows.insert(i, row)),
        by_cost(rows.insert(i, row)),
        forall|j: int|
            start <= j < end ==> group_of(#[trigger] rows.insert(i, row)[j]) == group_of(row),
        start > 0 ==> group_of(rows.insert(i, row)[start - 1]) != group_of(row),
        end < rows.len() + 1 ==> group_of(rows.insert(i, row)[end]) != group_of(row),
        judged(rows, r, k) || r == row,
    ensures
        judged(rows.insert(i, row), r, k),
{
    let more = rows.insert(i, row);
    if r == row {
        assert(more[i] == row);
    } else if rows.contains(r) {
        let a = choose|a: int| 0 <= a < rows.len() && rows[a] == r;
        let x = if a < i { a } else { a + 1 };
        assert(more[x] == r);
    } else {
        let at = choose|at: int| #[trigger] beaten_at(rows, r, k, at);
        let first = if at < i { at } else { at + 1 };
        let last = if at + k - 1 < i { at + k - 1 } else { at + k };
        assert(more[first] == rows[at]);
        assert(more[last] == rows[at + k - 1]);
        assert(group_of(more[first]) == group_of(more[last]));
        if first < i && i < last {
            lemma_between(more, first, i, last);
            assert(more[i] == row);
            // The group of the new row then has more rows than fit.
            if first < start {
                lemma_between(more, first, start - 1, i);
            }
            if last >= end {
                lemma_between(more, i, end, last);
            }
            assert(last - first == k);
            assert(false);
        }
        assert(beaten_at(more, r, k, first)) by {
            assert forall|j: int| first <= j < first + k implies group_of(#[trigger] more[j])
                == group_of(r) && pack_order(more[j], r) == Sign::Less by {
                let y = if j < i { j } else { j - 1 };
                assert(more[j] == rows[y]);
            }
        }
    }
}

proof fn lemma_judged_cut(
    rows: Seq<Seq<Value>>,
    row: Seq<Value>,
    k: u64,
    r: Seq<Value>,
    i: int,
    start: int,
    end: int,
    at: int,
)
    requires
        all_packs(rows),
        by_cost(rows),
        capped(rows, k),
        has_pack(row),
        has_pack(r),
        k > 0,
        0 <= i <= rows.len(),
        0 <= start <= i < end <= rows.len() + 1,
        end - start > k,
        all_packs(rows.insert(i, row)),
        by_cost(rows.insert(i, row)),
        forall|j: int|
            start <= j < end ==> group_of(#[trigger] rows.insert(i, row)[j]) == group_of(row),
        start > 0 ==> group_of(rows.insert(i, row)[start - 1]) != group_of(row),
        end < rows.len() + 1 ==> group_of(rows.insert(i, row)[end]) != group_of(row),
        beaten_at(rows, r, k, at),
    ensures
        judged(rows.insert(i, row).remove(end - 1), r, k),
{
    let more = rows.insert(i, row);
    let out = more.remove(end - 1);
    let first = if at < i { at } else { at + 1 };
    let last = if at + k - 1 < i { at + k - 1 } else { at + k };
    assert(more[first] == rows[at]);
    assert(more[last] == rows[at + k - 1]);
    assert(more[i] == row);
    if group_of(r) == group_of(row) {
        if first < start {
            lemma_between(more, first, start - 1, i);
        }
        if last >= end {
            lemma_between(more, i, end, last);
        }
        assert(beaten_at(out, r, k, start)) by {
            assert forall|j: int| start <= j < start + k implies group_of(#[trigger] out[j])
                == group_of(r) && pack_order(out[j], r) == Sign::Less by {
                assert(out[j] == more[j]);
                if j != i {
                    let y = if j < i { j } else { j - 1 };
                    assert(more[j] == rows[y]);
                    if y < at {
                        assert(group_of(rows[y]) == group_of(rows[at + k - 1]));
                        if at + k - 1 - y >= k {
                            assert(false);
                        }
                    }
                    if y >= at + k {
                        assert(group_of(rows[at]) == group_of(rows[y]));
                        assert(false);
                    }
                } else {
                    let e = end - 1;
                    assert(i < e);
                    assert(more[e] == rows[e - 1]);
                    assert(pack_order(more[i], more[e]) == Sign::Less);
                    if e - 1 >= at + k {
                        assert(group_of(rows[at]) == group_of(rows[e - 1]));
                        assert(false);
                    }
                    if e - 1 < at {
                        assert(group_of(rows[e - 1]) == group_of(rows[at + k - 1]));
                        assert(at + k - 1 - (e - 1) >= k);
                        assert(false);
                    }
                    lemma_pack_chain(row, rows[e - 1], r);
                }
            }
        }
    } else {
        assert(!(first < i && i < last)) by {
            if first < i && i < last {
                lemma_between(more, first, i, last);
            }
        }
        assert(!(first <= end - 1 && end - 1 <= last)) by {
            if first <= end - 1 && end - 1 <= last {
                lemma_between(more, first, end - 1, last);
            }
        }
        let to = if first < end - 1 { first } else { first - 1 };
        assert(beaten_at(out, r, k, to)) by {
            assert forall|j: int| to <= j < to + k implies group_of(#[trigger] out[j]) == group_of(
                r,
            ) && pack_order(out[j], r) == Sign::Less by {
                let x = if j < end - 1 { j } else { j + 1 };
                assert(out[j] == more[x]);
                assert(first <= x && x < first + k);
                let y = if x < i { x } else { x - 1 };
                assert(more[x] == rows[y]);
            }
        }
    }
}

proof fn lemma_best(rows: Seq<Seq<Value>>, i: int, k: u64, acc: Seq<Seq<Value>>)
    requires
        0 <= i <= rows.len(),
        k > 0,
        all_packs(acc),
        by_cost(acc),
        capped(acc, k),
        forall|j: int| 0 <= j < i ==> has_pack(#[trigger] rows[j]) && judged(acc, rows[j], k),
    ensures
        best_from(rows, i, k, acc) matches Ok(out) ==> all_packs(out) && by_cost(out) && capped(
            out,
            k,
        ) && forall|j: int| 0 <= j < rows.len() ==> judged(out, #[trigger] rows[j], k),
    decreases rows.len() - i,
{
    if i < rows.len() && has_pack(rows[i]) {
        lemma_with_pack(acc, rows[i], k);
        let next = with_pack(acc, rows[i], k);
        assert forall|j: int| 0 <= j < i + 1 implies has_pack(#[trigger] rows[j]) && judged(
            next,
            rows[j],
            k,
        ) by {
            lemma_judged(acc, rows[i], k, rows[j]);
        }
        lemma_best(rows, i + 1, k, next);
    }
}

proof fn lemma_kept_were_given(rows: Seq<Seq<Value>>, i: int, k: u64, acc: Seq<Seq<Value>>)
    requires
        0 <= i <= rows.len(),
        forall|x: Seq<Value>| #[trigger] acc.contains(x) ==> rows.contains(x),
    ensures
        best_from(rows, i, k, acc) matches Ok(out) ==> forall|x: Seq<Value>| #[trigger]
            out.contains(x) ==> rows.contains(x),
    decreases rows.len() - i,
{
    if i < rows.len() && has_pack(rows[i]) {
        let row = rows[i];
        let next = with_pack(acc, row, k);
        let s = pack_slot_from(acc, row, acc.len() as int);
        lemma_slot_in_range(acc, row, acc.len() as int);
        let more = acc.insert(s, row);
        assert forall|x: Seq<Value>| #[trigger] next.contains(x) implies rows.contains(x) by {
            let j = choose|j: int| 0 <= j < next.len() && next[j] == x;
            if next != acc {
                let end = run_end_from(more, row, s);
                let m = if next.len() == more.len() || j < end - 1 {
                    j
                } else {
                    j + 1
                };
                assert(more[m] == x);
                if m < s {
                    assert(acc[m] == x && acc.contains(x));
                } else if m > s {
                    assert(acc[m - 1] == x && acc.contains(x));
                } else {
                    assert(rows[i] == x);
                }
            } else {
                assert(acc.contains(x));
            }
        }
        lemma_kept_were_given(rows, i + 1, k, next);
    }
}

proof fn lemma_slot_in_range(rows: Seq<Seq<Value>>, row: Seq<Value>, i: int)
    requires
        0 <= i <= rows.len(),
    ensures
        0 <= pack_slot_from(rows, row, i) <= rows.len(),
    decreases i,
{
    if i > 0 {
        lemma_slot_in_range(rows, row, i - 1);
    }
}

/// The best packs are among the rows that were given, in the order of groups and
/// costs, none twice; no group has more than the limit; and of every row that is
/// not among them there are, up to the limit, better ones of its group.
pub proof fn law_best_are_few(rows: Seq<Seq<Value>>, k: u64, out: Seq<Seq<Value>>)
    requires
        k > 0,
        best_from(rows, 0, k, Seq::empty()) == Ok::<Seq<Seq<Value>>, Fault>(out),
    ensures
        by_cost(out),
        capped(out, k),
        forall|j: int| 0 <= j < rows.len() ==> judged(out, #[trigger] rows[j], k),
        forall|x: Seq<Value>| #[trigger] out.contains(x) ==> rows.contains(x),
{
    lemma_best(rows, 0, k, Seq::empty());
    assert forall|x: Seq<Value>| #[trigger]
        Seq::<Seq<Value>>::empty().contains(x) implies rows.contains(x) by {}
    lemma_kept_were_given(rows, 0, k, Seq::empty());
}

proof fn lemma_pack_prices(a: Seq<Value>, b: Seq<Value>)
    requires
        has_pack(a),
        has_pack(b),
        group_of(a) == group_of(b),
        pack_order(a, b) == Sign::Less,
    ensures
        !is_less(price(b.last()), price(a.last())),
{
    reveal(pack_order);
    lemma_rows_same(group_of(a), group_of(b));
    law_numbers_by_worth(price(a.last()), price(b.last()));
}

/// The best packs are the cheapest: in a group the cheaper ones come first, and
/// what is not among them costs no less than any of its group that is.
pub proof fn law_best_are_cheapest(rows: Seq<Seq<Value>>, k: u64, out: Seq<Seq<Value>>)
    requires
        k > 0,
        best_from(rows, 0, k, Seq::empty()) == Ok::<Seq<Seq<Value>>, Fault>(out),
    ensures
        forall|j: int| 0 <= j < rows.len() ==> is_pack((#[trigger] rows[j]).last()),
        forall|i: int, j: int|
            0 <= i < j < out.len() && group_of(#[trigger] out[i]) == group_of(#[trigger] out[j])
                ==> !is_less(price(out[j].last()), price(out[i].last())),
        forall|j: int, m: int|
            0 <= j < rows.len() && 0 <= m < out.len() && !out.contains(#[trigger] rows[j])
                && group_of(rows[j]) == group_of(#[trigger] out[m]) ==> !is_less(
                price(rows[j].last()),
                price(out[m].last()),
            ),
{
    lemma_best(rows, 0, k, Seq::empty());
    lemma_all_have_packs(rows, 0, k, Seq::empty());
    assert forall|j: int| 0 <= j < rows.len() implies is_pack((#[trigger] rows[j]).last()) by {
        assert(has_pack(rows[j]));
    }
    assert forall|i: int, j: int|
        0 <= i < j < out.len() && group_of(#[trigger] out[i]) == group_of(
            #[trigger] out[j],
        ) implies !is_less(price(out[j].last()), price(out[i].last())) by {
        assert(has_pack(out[i]) && has_pack(out[j]));
        assert(pack_order(out[i], out[j]) == Sign::Less);
        lemma_pack_prices(out[i], out[j]);
    }
    assert forall|j: int, m: int|
        0 <= j < rows.len() && 0 <= m < out.len() && !out.contains(#[trigger] rows[j]) && group_of(
            rows[j],
        ) == group_of(#[trigger] out[m]) implies !is_less(
        price(rows[j].last()),
        price(out[m].last()),
    ) by {
        let r = rows[j];
        assert(judged(out, r, k));
        let at = choose|at: int| #[trigger] beaten_at(out, r, k, at);
        assert(has_pack(r) && has_pack(out[m]));
        if m < at {
            assert(group_of(out[at + k - 1]) == group_of(r));
            assert(m + k <= at + k - 1);
        }
        if m >= at + k {
            assert(group_of(out[at]) == group_of(r));
        }
        assert(at <= m < at + k);
        lemma_pack_prices(out[m], r);
    }
}

proof fn lemma_all_have_packs(rows: Seq<Seq<Value>>, i: int, k: u64, acc: Seq<Seq<Value>>)
    requires
        0 <= i <= rows.len(),
        best_from(rows, i, k, acc) is Ok,
    ensures
        forall|j: int| i <= j < rows.len() ==> has_pack(#[trigger] rows[j]),
    decreases rows.len() - i,
{
    if i < rows.len() {
        lemma_all_have_packs(rows, i + 1, k, with_pack(acc, rows[i], k));
    }
}

} // verus!
