//! The best few packs of each group.
use vstd::prelude::*;

use crate::aggr::{cost, cost_of};
use crate::error::{DbError, ErrKind, Fault, err_on, fault_on, outcome};
use crate::expr::{compare_loose, loose_order};
use crate::list::{Dup, List};
use crate::table::{Rows, prefix};
use crate::value::{Sign, Tuple, Value, compare, compare_rows, order, order_rows, same_row};

verus! {

/// Whether a row ends in a pack.
pub open spec fn has_pack(row: Seq<Value>) -> bool {
    row.len() > 0 && cost_of(row.last()) is Some
}

/// The order of rows that end in packs: by group, then by cost.
#[verifier::opaque]
pub open spec fn pack_order(a: Seq<Value>, b: Seq<Value>) -> Sign {
    match order_rows(a.drop_last(), b.drop_last(), 0) {
        Sign::Same => match loose_order(cost_of(a.last())->0, cost_of(b.last())->0) {
            Sign::Same => order(a.last(), b.last()),
            s => s,
        },
        s => s,
    }
}

fn compare_packs(a: &Tuple, b: &Tuple) -> (r: Sign)
    requires
        has_pack(a@),
        has_pack(b@),
    ensures
        r == pack_order(a@, b@),
{
    reveal(pack_order);
    let p = prefix(a, a.len() - 1);
    let q = prefix(b, b.len() - 1);
    assert(p@ =~= a@.drop_last());
    assert(q@ =~= b@.drop_last());
    match compare_rows(&p, &q) {
        Sign::Same => {
            let x = a.get(a.len() - 1);
            let y = b.get(b.len() - 1);
            match (cost(x), cost(y)) {
                (Some(c), Some(d)) => match compare_loose(&c, &d) {
                    Sign::Same => compare(x, y),
                    s => s,
                },
                _ => Sign::Same,
            }
        },
        s => s,
    }
}

/// The place behind the last of the first `i` rows that is not greater.
pub open spec fn pack_slot_from(rows: Seq<Seq<Value>>, row: Seq<Value>, i: int) -> int
    decreases i,
{
    if i <= 0 || i > rows.len() {
        0
    } else if pack_order(rows[i - 1], row) == Sign::More {
        pack_slot_from(rows, row, i - 1)
    } else {
        i
    }
}

/// The end of the run of rows from place `i` on that are in the group of a row.
pub open spec fn run_end_from(rows: Seq<Seq<Value>>, row: Seq<Value>, i: int) -> int
    decreases rows.len() - i,
{
    if i < 0 || i >= rows.len() || rows[i].len() == 0 || rows[i].drop_last() != row.drop_last() {
        i
    } else {
        run_end_from(rows, row, i + 1)
    }
}

/// The start of the run of rows before place `i` that are in the group of a row.
pub open spec fn run_start_from(rows: Seq<Seq<Value>>, row: Seq<Value>, i: int) -> int
    decreases i,
{
    if i <= 0 || i > rows.len() || rows[i - 1].len() == 0 || rows[i - 1].drop_last()
        != row.drop_last() {
        i
    } else {
        run_start_from(rows, row, i - 1)
    }
}

/// Rows with one more row among them, of which the worst of its group leaves
/// where the group then has more than `k`.
pub open spec fn with_pack(rows: Seq<Seq<Value>>, row: Seq<Value>, k: u64) -> Seq<Seq<Value>> {
    let i = pack_slot_from(rows, row, rows.len() as int);
    if i > 0 && rows[i - 1] == row {
        rows
    } else {
        let more = rows.insert(i, row);
        let end = run_end_from(more, row, i);
        let start = run_start_from(more, row, i);
        if end - start > k && end > 0 && end <= more.len() {
            more.remove(end - 1)
        } else {
            more
        }
    }
}

/// Whether two rows are in one group.
fn same_prefix(a: &Tuple, b: &Tuple) -> (r: bool)
    requires
        b@.len() > 0,
    ensures
        r == (a@.len() > 0 && a@.drop_last() == b@.drop_last()),
{
    if a.len() == 0 {
        return false;
    }
    let p = prefix(a, a.len() - 1);
    let q = prefix(b, b.len() - 1);
    assert(p@ =~= a@.drop_last());
    assert(q@ =~= b@.drop_last());
    same_row(&p, &q)
}

/// Whether every row ends in a pack.
pub open spec fn all_packs(rows: Seq<Seq<Value>>) -> bool {
    forall|i: int| 0 <= i < rows.len() ==> has_pack(#[trigger] rows[i])
}

fn add_pack(rows: &mut Rows, row: Tuple, k: u64)
    requires
        all_packs(old(rows)@),
        has_pack(row@),
    ensures
        final(rows)@ == with_pack(old(rows)@, row@, k),
        all_packs(final(rows)@),
{
    let n = rows.len();
    let mut i: usize = n;
    let ghost start_rows = rows@;
    while i > 0 && compare_packs(rows.get(i - 1), &row) == Sign::More
        invariant
            i <= rows@.len(),
            rows@ == start_rows,
            all_packs(rows@),
            has_pack(row@),
            pack_slot_from(rows@, row@, rows@.len() as int) == pack_slot_from(
                rows@,
                row@,
                i as int,
            ),
        decreases i,
    {
        i = i - 1;
    }
    assert(pack_slot_from(rows@, row@, i as int) == i);
    if i > 0 && same_row(rows.get(i - 1), &row) {
        return ;
    }
    rows.insert(i, row.dup());
    let ghost more = rows@;
    assert(more == start_rows.insert(i as int, row@));
    assert(all_packs(more)) by {
        assert forall|j: int| 0 <= j < more.len() implies has_pack(#[trigger] more[j]) by {
            if j < i {
                assert(more[j] == start_rows[j]);
            } else if j > i {
                assert(more[j] == start_rows[j - 1]);
            }
        }
    }
    let mut end: usize = i;
    while end < rows.len() && same_prefix(rows.get(end), &row)
        invariant
            i <= end <= rows@.len(),
            rows@ == more,
            row@.len() > 0,
            run_end_from(more, row@, i as int) == run_end_from(more, row@, end as int),
        decreases rows@.len() - end,
    {
        end = end + 1;
    }
    let mut start: usize = i;
    while start > 0 && same_prefix(rows.get(start - 1), &row)
        invariant
            start <= i <= rows@.len(),
            rows@ == more,
            row@.len() > 0,
            run_start_from(more, row@, i as int) == run_start_from(more, row@, start as int),
        decreases start,
    {
        start = start - 1;
    }
    if (end - start) as u64 > k && end > 0 {
        let gone = rows.remove(end - 1);
        assert(all_packs(rows@)) by {
            assert forall|j: int| 0 <= j < rows@.len() implies has_pack(#[trigger] rows@[j]) by {
                if j < end - 1 {
                    assert(rows@[j] == more[j]);
                } else {
                    assert(rows@[j] == more[j + 1]);
                }
            }
        }
    }
}

/// The best packs after the rows from place `i` on.
pub open spec fn best_from(
    rows: Seq<Seq<Value>>,
    i: int,
    k: u64,
    acc: Seq<Seq<Value>>,
) -> Result<Seq<Seq<Value>>, Fault>
    decreases rows.len() - i,
{
    if i < 0 || i >= rows.len() {
        Ok(acc)
    } else if !has_pack(rows[i]) {
        Err(fault_on(ErrKind::BoundedPack, "min_cost_k"@))
    } else {
        best_from(rows, i + 1, k, with_pack(acc, rows[i], k))
    }
}

/// Whether a row ends in a pack.
fn ends_in_pack(row: &Tuple) -> (r: bool)
    ensures
        r == has_pack(row@),
{
    row.len() > 0 && cost(row.get(row.len() - 1)).is_some()
}

/// The best `k` packs of each group.
pub fn best(rows: &Rows, k: u64) -> (r: Result<Rows, DbError>)
    ensures
        outcome(r) == best_from(rows@, 0, k, Seq::empty()),
{
    let mut acc: Rows = List::new();
    let mut i: usize = 0;
    while i < rows.len()
        invariant
            i <= rows@.len(),
            all_packs(acc@),
            best_from(rows@, 0, k, Seq::empty()) == best_from(rows@, i as int, k, acc@),
        decreases rows@.len() - i,
    {
        if !ends_in_pack(rows.get(i)) {
            return Err(err_on(ErrKind::BoundedPack, "min_cost_k"));
        }
        add_pack(&mut acc, rows.get(i).dup(), k);
        i = i + 1;
    }
    Ok(acc)
}

} // verus!
