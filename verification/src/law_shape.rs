//! What the options of a query make of its answer.
use vstd::prelude::*;

use crate::aggr::CustomV;
use crate::bind::TableV;
use crate::error::Fault;
use crate::eval::{
    answer_of, arranged_from, distinct_from, shown_rows, sort_order, sort_slot, windowed,
};
use crate::expr::{Ctx, place, place_from};
use crate::query::{ProgramV, SortKeyV};
use crate::scan::SourceV;
use crate::store::RelationV;
use crate::table::{ascending, law_sorted, law_with_row, lemma_slot, slot_from, sorted_of, with_row};
use crate::value::{
    Sign, Value, flip, law_order_flips, lemma_order_same, lemma_rows_same, order, order_rows,
};

verus! {

proof fn lemma_place(names: Seq<Seq<char>>, name: Seq<char>, i: int)
    requires
        0 <= i <= names.len(),
    ensures
        i <= place_from(names, name, i) <= names.len(),
        place_from(names, name, i) < names.len() ==> names[place_from(names, name, i)] == name,
        forall|k: int|
            i <= k < place_from(names, name, i) ==> #[trigger] names[k] != name,
    decreases names.len() - i,
{
    if i < names.len() {
        lemma_place(names, name, i + 1);
    }
}

/// A name stands for the first column that has it, and for none where no column
/// has it.
pub proof fn law_names_find_columns(names: Seq<Seq<char>>, name: Seq<char>)
    ensures
        0 <= place(names, name) <= names.len(),
        place(names, name) < names.len() <==> names.contains(name),
        names.contains(name) ==> names[place(names, name)] == name,
        forall|k: int| 0 <= k < place(names, name) ==> #[trigger] names[k] != name,
{
    lemma_place(names, name, 0);
    if names.contains(name) {
        let k = choose|k: int| 0 <= k < names.len() && names[k] == name;
        assert(!(k < place(names, name)));
    }
}

/// Whether two rows have the same value in the column of a sort key, or one of
/// them has no such column.
pub open spec fn ties(a: Seq<Value>, b: Seq<Value>, key: SortKeyV, cols: Seq<Seq<char>>) -> bool {
    let p = place(cols, key.var);
    p >= a.len() || p >= b.len() || a[p] == b[p]
}

/// Whether two rows tie in the first `m` sort keys.
pub open spec fn ties_before(
    a: Seq<Value>,
    b: Seq<Value>,
    keys: Seq<SortKeyV>,
    cols: Seq<Seq<char>>,
    m: int,
) -> bool {
    forall|n: int| 0 <= n < m ==> ties(a, b, #[trigger] keys[n], cols)
}

/// Whether a row may come before another by sort keys: in the first key in which
/// they differ it has the lesser value where the key is ascending, and the
/// greater one where it is descending.
pub open spec fn in_key_order(
    a: Seq<Value>,
    b: Seq<Value>,
    keys: Seq<SortKeyV>,
    cols: Seq<Seq<char>>,
) -> bool {
    forall|m: int|
        0 <= m < keys.len() && ties_before(a, b, keys, cols, m) && !ties(
            a,
            b,
            #[trigger] keys[m],
            cols,
        ) ==> order(a[place(cols, keys[m].var)], b[place(cols, keys[m].var)]) == if keys[m].down {
            Sign::More
        } else {
            Sign::Less
        }
}

proof fn lemma_sort_order(
    a: Seq<Value>,
    b: Seq<Value>,
    keys: Seq<SortKeyV>,
    cols: Seq<Seq<char>>,
    i: int,
)
    requires
        0 <= i <= keys.len(),
        ties_before(a, b, keys, cols, i),
        sort_order(a, b, keys, cols, i) != Sign::More,
    ensures
        in_key_order(a, b, keys, cols),
    decreases keys.len() - i,
{
    if i == keys.len() {
        assert forall|m: int|
            0 <= m < keys.len() && ties_before(a, b, keys, cols, m) && !ties(
                a,
                b,
                #[trigger] keys[m],
                cols,
            ) implies false by {
            assert(ties(a, b, keys[m], cols));
        }
    } else {
        let p = place(cols, keys[i].var);
        if p < a.len() && p < b.len() {
            law_names_find_columns(cols, keys[i].var);
            lemma_order_same(a[p], b[p]);
        }
        if ties(a, b, keys[i], cols) {
            assert forall|n: int| 0 <= n < i + 1 implies ties(a, b, #[trigger] keys[n], cols) by {}
            lemma_sort_order(a, b, keys, cols, i + 1);
        } else {
            assert forall|m: int|
                0 <= m < keys.len() && ties_before(a, b, keys, cols, m) && !ties(
                    a,
                    b,
                    #[trigger] keys[m],
                    cols,
                ) implies m == i by {
                if m < i {
                    assert(ties(a, b, keys[m], cols));
                } else if m > i {
                    assert(ties(a, b, keys[i], cols));
                }
            }
        }
    }
}

proof fn lemma_sort_flips(
    a: Seq<Value>,
    b: Seq<Value>,
    keys: Seq<SortKeyV>,
    cols: Seq<Seq<char>>,
    i: int,
)
    requires
        0 <= i,
    ensures
        sort_order(b, a, keys, cols, i) == flip(sort_order(a, b, keys, cols, i)),
    decreases keys.len() - i,
{
    if i < keys.len() {
        let p = place(cols, keys[i].var);
        lemma_sort_flips(a, b, keys, cols, i + 1);
        if p < a.len() && p < b.len() {
            law_order_flips(a[p], b[p]);
        }
    }
}

proof fn lemma_sort_slot(
    rows: Seq<Seq<Value>>,
    row: Seq<Value>,
    keys: Seq<SortKeyV>,
    cols: Seq<Seq<char>>,
    i: int,
)
    requires
        0 <= i <= rows.len(),
        i < rows.len() ==> sort_order(rows[i], row, keys, cols, 0) == Sign::More,
    ensures
        ({
            let k = sort_slot(rows, row, keys, cols, i);
            &&& 0 <= k <= i
            &&& k > 0 ==> sort_order(rows[k - 1], row, keys, cols, 0) != Sign::More
            &&& k < rows.len() ==> sort_order(rows[k], row, keys, cols, 0) == Sign::More
        }),
    decreases i,
{
    if i > 0 && sort_order(rows[i - 1], row, keys, cols, 0) == Sign::More {
        lemma_sort_slot(rows, row, keys, cols, i - 1);
    }
}

/// Whether a row may stand before the next.
pub open spec fn step_at(
    rows: Seq<Seq<Value>>,
    i: int,
    keys: Seq<SortKeyV>,
    cols: Seq<Seq<char>>,
) -> bool {
    in_key_order(rows[i], rows[i + 1], keys, cols)
}

/// Whether each row may stand before the next.
pub open spec fn steps_in_order(
    rows: Seq<Seq<Value>>,
    keys: Seq<SortKeyV>,
    cols: Seq<Seq<char>>,
) -> bool {
    forall|i: int| 0 <= i && i + 1 < rows.len() ==> #[trigger] step_at(rows, i, keys, cols)
}

/// Whether a row is not later than the next.
spec fn not_later(
    rows: Seq<Seq<Value>>,
    i: int,
    keys: Seq<SortKeyV>,
    cols: Seq<Seq<char>>,
) -> bool {
    sort_order(rows[i], rows[i + 1], keys, cols, 0) != Sign::More
}

/// Whether each row is not later than the next.
spec fn steps(rows: Seq<Seq<Value>>, keys: Seq<SortKeyV>, cols: Seq<Seq<char>>) -> bool {
    forall|i: int| 0 <= i && i + 1 < rows.len() ==> #[trigger] not_later(rows, i, keys, cols)
}

proof fn lemma_put_in(
    acc: Seq<Seq<Value>>,
    row: Seq<Value>,
    keys: Seq<SortKeyV>,
    cols: Seq<Seq<char>>,
)
    requires
        steps(acc, keys, cols),
    ensures
        ({
            let k = sort_slot(acc, row, keys, cols, acc.len() as int);
            0 <= k <= acc.len() && steps(acc.insert(k, row), keys, cols)
        }),
{
    let k = sort_slot(acc, row, keys, cols, acc.len() as int);
    lemma_sort_slot(acc, row, keys, cols, acc.len() as int);
    let next = acc.insert(k, row);
    assert forall|m: int| 0 <= m && m + 1 < next.len() implies #[trigger] not_later(
        next,
        m,
        keys,
        cols,
    ) by {
        if m + 1 < k {
            assert(not_later(acc, m, keys, cols));
        } else if m + 1 == k {
            assert(next[m] == acc[k - 1] && next[m + 1] == row);
        } else if m == k {
            assert(next[m] == row && next[m + 1] == acc[k]);
            lemma_sort_flips(acc[k], row, keys, cols, 0);
        } else {
            assert(next[m] == acc[m - 1] && next[m + 1] == acc[m]);
            assert(not_later(acc, m - 1, keys, cols));
        }
    }
}

proof fn lemma_arranged(
    rows: Seq<Seq<Value>>,
    keys: Seq<SortKeyV>,
    cols: Seq<Seq<char>>,
    i: int,
    acc: Seq<Seq<Value>>,
)
    requires
        0 <= i <= rows.len(),
        steps(acc, keys, cols),
        acc.to_multiset() == rows.take(i).to_multiset(),
    ensures
        steps(arranged_from(rows, keys, cols, i, acc), keys, cols),
        arranged_from(rows, keys, cols, i, acc).to_multiset() == rows.to_multiset(),
    decreases rows.len() - i,
{
    broadcast use vstd::seq_lib::group_to_multiset_ensures;

    if i == rows.len() {
        assert(rows.take(i) =~= rows);
    } else {
        let row = rows[i];
        let k = sort_slot(acc, row, keys, cols, acc.len() as int);
        let next = acc.insert(k, row);
        lemma_put_in(acc, row, keys, cols);
        assert(rows.take(i + 1) =~= rows.take(i).push(row));
        assert(next.to_multiset() =~= acc.to_multiset().insert(row));
        lemma_arranged(rows, keys, cols, i + 1, next);
    }
}

/// Rows that are arranged by sort keys are the same rows, each as often as
/// before; and of two neighbours that differ in a key, the earlier one has in the
/// first such key the lesser value where the key is ascending, and the greater
/// one where it is descending.
pub proof fn law_rows_follow_keys(
    rows: Seq<Seq<Value>>,
    keys: Seq<SortKeyV>,
    cols: Seq<Seq<char>>,
)
    ensures
        arranged_from(rows, keys, cols, 0, Seq::empty()).to_multiset() == rows.to_multiset(),
        steps_in_order(arranged_from(rows, keys, cols, 0, Seq::empty()), keys, cols),
{
    assert(rows.take(0) =~= Seq::empty());
    lemma_arranged(rows, keys, cols, 0, Seq::empty());
    let out = arranged_from(rows, keys, cols, 0, Seq::empty());
    assert forall|i: int| 0 <= i && i + 1 < out.len() implies #[trigger] step_at(
        out,
        i,
        keys,
        cols,
    ) by {
        assert(not_later(out, i, keys, cols));
        lemma_sort_order(out[i], out[i + 1], keys, cols, 0);
    }
}

/// Of rows, what an offset and a limit leave: those behind the offset in their
/// order, up to the limit, and all of them where there are fewer.
pub proof fn law_window_shows_a_part(rows: Seq<Seq<Value>>, offset: u64, limit: Option<u64>)
    ensures
        forall|i: int|
            0 <= i < windowed(rows, offset, limit).len() ==> offset + i < rows.len()
                && #[trigger] windowed(rows, offset, limit)[i] == rows[offset + i],
        limit is Some ==> windowed(rows, offset, limit).len() <= limit->0,
        limit is None || windowed(rows, offset, limit).len() < limit->0 ==> offset + windowed(
            rows,
            offset,
            limit,
        ).len() >= rows.len(),
{
}

/// The answer of a query with sort keys follows them, row by row; without a limit
/// and an offset it has the rows of its entry, each as often as there.
pub proof fn law_answer_follows_keys(
    p: ProgramV,
    plain: bool,
    labels: Seq<Seq<char>>,
    table: Seq<Seq<Value>>,
    bag: Seq<Seq<Value>>,
)
    requires
        p.sort.len() > 0,
    ensures
        steps_in_order(shown_rows(p, plain, labels, table, bag), p.sort, labels),
        p.offset == 0 && p.limit is None ==> shown_rows(
            p,
            plain,
            labels,
            table,
            bag,
        ).to_multiset() == table.to_multiset(),
{
    let all = arranged_from(table, p.sort, labels, 0, Seq::empty());
    let out = shown_rows(p, plain, labels, table, bag);
    law_rows_follow_keys(table, p.sort, labels);
    law_window_shows_a_part(all, p.offset, p.limit);
    assert forall|i: int| 0 <= i && i + 1 < out.len() implies #[trigger] step_at(
        out,
        i,
        p.sort,
        labels,
    ) by {
        assert(out[i] == all[p.offset + i]);
        assert(out[i + 1] == all[p.offset + (i + 1)]);
        assert(step_at(all, p.offset + i, p.sort, labels));
    }
    if p.offset == 0 && p.limit is None {
        assert(out =~= all);
    }
}

/// The answer that a query gives follows its sort keys, and has no more rows than
/// its limit.
pub proof fn law_query_follows_keys(
    rels: Seq<RelationV>,
    given: Seq<TableV>,
    p: ProgramV,
    customs: Seq<CustomV>,
    ctx: Ctx,
    src: SourceV,
)
    requires
        answer_of(rels, given, p, customs, ctx) == Ok::<SourceV, Fault>(src),
    ensures
        p.sort.len() > 0 ==> steps_in_order(src.rows, p.sort, src.cols),
        p.limit is Some ==> src.rows.len() <= p.limit->0,
{
    reveal(answer_of);
    assert forall|plain: bool, labels: Seq<Seq<char>>, table: Seq<Seq<Value>>, bag: Seq<Seq<Value>>|
        (p.sort.len() > 0 ==> steps_in_order(
            #[trigger] shown_rows(p, plain, labels, table, bag),
            p.sort,
            labels,
        )) && (p.limit is Some ==> shown_rows(p, plain, labels, table, bag).len() <= p.limit->0) by {
        if p.sort.len() > 0 {
            law_answer_follows_keys(p, plain, labels, table, bag);
        } else if plain {
            lemma_sorted_is_no_longer(
                windowed(distinct_from(bag, 0, Seq::empty(), Seq::empty()), p.offset, p.limit),
            );
        }
    }
}

proof fn lemma_no_repeats(rows: Seq<Seq<Value>>)
    requires
        ascending(rows),
    ensures
        rows.no_duplicates(),
{
    assert forall|i: int, j: int| 0 <= i < rows.len() && 0 <= j < rows.len() && i != j implies
        rows[i] != rows[j] by {
        lemma_rows_same(rows[i], rows[j]);
        if i < j {
            assert(order_rows(rows[i], rows[j], 0) == Sign::Less);
        } else {
            assert(order_rows(rows[j], rows[i], 0) == Sign::Less);
            lemma_rows_same(rows[j], rows[i]);
        }
    }
}

proof fn lemma_sorted_is_no_longer(rows: Seq<Seq<Value>>)
    ensures
        sorted_of(rows).len() <= rows.len(),
        rows.no_duplicates() ==> sorted_of(rows).len() == rows.len(),
{
    law_sorted(rows);
    let out = sorted_of(rows);
    lemma_no_repeats(out);
    out.unique_seq_to_set();
    rows.lemma_cardinality_of_set();
    assert(out.to_set() =~= rows.to_set());
    if rows.no_duplicates() {
        rows.unique_seq_to_set();
    }
}

proof fn lemma_distinct(
    rows: Seq<Seq<Value>>,
    i: int,
    seen: Seq<Seq<Value>>,
    acc: Seq<Seq<Value>>,
)
    requires
        0 <= i <= rows.len(),
        ascending(seen),
        acc.no_duplicates(),
        forall|x: Seq<Value>| #[trigger] seen.contains(x) <==> acc.contains(x),
    ensures
        ({
            let r = distinct_from(rows, i, seen, acc);
            &&& r.no_duplicates()
            &&& acc.is_prefix_of(r)
            &&& forall|x: Seq<Value>| #[trigger]
                r.contains(x) <==> acc.contains(x) || rows.skip(i).contains(x)
        }),
    decreases rows.len() - i,
{
    let r = distinct_from(rows, i, seen, acc);
    if i == rows.len() {
        assert(rows.skip(i).len() == 0);
    } else {
        let row = rows[i];
        let rest = rows.skip(i);
        let less = rows.skip(i + 1);
        assert(rest =~= seq![row] + less);
        assert forall|x: Seq<Value>| #[trigger] rest.contains(x) <==> x == row || less.contains(
            x,
        ) by {
            if less.contains(x) {
                let k = choose|k: int| 0 <= k < less.len() && less[k] == x;
                assert(rest[k + 1] == x);
            }
            if x == row {
                assert(rest[0] == x);
            }
            if rest.contains(x) {
                let k = choose|k: int| 0 <= k < rest.len() && rest[k] == x;
                if k > 0 {
                    assert(less[k - 1] == x);
                }
            }
        }
        law_with_row(seen, row);
        lemma_grows_where_new(seen, row);
        if with_row(seen, row).len() > seen.len() {
            let more = acc.push(row);
            assert forall|x: Seq<Value>| #[trigger] more.contains(x) <==> acc.contains(x) || x
                == row by {
                if acc.contains(x) {
                    let k = choose|k: int| 0 <= k < acc.len() && acc[k] == x;
                    assert(more[k] == x);
                }
                if x == row {
                    assert(more[acc.len() as int] == x);
                }
            }
            lemma_distinct(rows, i + 1, with_row(seen, row), more);
        } else {
            lemma_distinct(rows, i + 1, with_row(seen, row), acc);
        }
    }
}

proof fn lemma_grows_where_new(rows: Seq<Seq<Value>>, row: Seq<Value>)
    requires
        ascending(rows),
    ensures
        with_row(rows, row).len() > rows.len() <==> !rows.contains(row),
{
    law_with_row(rows, row);
    lemma_slot(rows, row, rows.len() as int);
    let out = with_row(rows, row);
    let i = slot_from(rows, row, rows.len() as int);
    if i > 0 && rows[i - 1] == row {
        assert(rows.contains(row));
    } else if rows.contains(row) {
        let k = choose|k: int| 0 <= k < rows.len() && rows[k] == row;
        assert(out == rows.insert(i, row));
        let at = if k < i {
            k
        } else {
            k + 1
        };
        assert(out[at] == row && out[i] == row);
        lemma_rows_same(row, row);
        if at < i {
            assert(order_rows(out[at], out[i], 0) == Sign::Less);
        } else {
            assert(order_rows(out[i], out[at], 0) == Sign::Less);
        }
    }
}

/// A query without sort keys and without a window shows each row that was found,
/// and no other, once, and in the order of rows.
pub proof fn law_plain_rows_are_shown(
    p: ProgramV,
    labels: Seq<Seq<char>>,
    table: Seq<Seq<Value>>,
    bag: Seq<Seq<Value>>,
    row: Seq<Value>,
)
    requires
        p.sort.len() == 0,
        p.offset == 0,
        p.limit is None,
    ensures
        ({
            let r = shown_rows(p, true, labels, table, bag);
            &&& r.contains(row) <==> bag.contains(row)
            &&& ascending(r)
        }),
{
    let d = distinct_from(bag, 0, Seq::empty(), Seq::empty());
    lemma_distinct(bag, 0, Seq::empty(), Seq::empty());
    assert(bag.skip(0) =~= bag);
    assert(d.subrange(0, d.len() as int) =~= d);
    law_sorted(d);
}

/// A limit on the rows of a query that has no sort keys counts different rows: so
/// many are shown where so many were found.
pub proof fn law_limit_counts_rows(bag: Seq<Seq<Value>>, n: u64, row: Seq<Value>)
    ensures
        distinct_from(bag, 0, Seq::empty(), Seq::empty()).no_duplicates(),
        distinct_from(bag, 0, Seq::empty(), Seq::empty()).contains(row) <==> bag.contains(row),
        ({
            let d = distinct_from(bag, 0, Seq::empty(), Seq::empty());
            let r = windowed(d, 0, Some(n));
            &&& r.no_duplicates()
            &&& r.contains(row) ==> d.contains(row)
            &&& n <= d.len() ==> r.len() == n
            &&& n > d.len() ==> r.len() == d.len()
        }),
{
    let d = distinct_from(bag, 0, Seq::empty(), Seq::empty());
    let r = windowed(d, 0, Some(n));
    lemma_distinct(bag, 0, Seq::empty(), Seq::empty());
    assert(bag.skip(0) =~= bag);
    let end = if n < d.len() {
        n as int
    } else {
        d.len() as int
    };
    assert(r == d.subrange(0, end));
    assert forall|a: int, b: int| 0 <= a < r.len() && 0 <= b < r.len() && a != b implies r[a]
        != r[b] by {
        assert(r[a] == d[a] && r[b] == d[b]);
    }
    if r.contains(row) {
        let k = choose|k: int| 0 <= k < r.len() && r[k] == row;
        assert(d[k] == row);
    }
}

} // verus!
