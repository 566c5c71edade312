//! What the aggregations of a rule's head give.
use vstd::prelude::*;

use crate::aggr::{CustomV, MeetAggrObj};
use crate::error::Fault;
use crate::fold::{
    AggOp, absorb_from, aggregated, group_from, init_of, merge_from, same_group_from, seed_of,
    start_from, step_of, ungrouped_from,
};
use crate::table::{ascending, law_sorted};
use crate::value::{Sign, Value, lemma_rows_same, order_rows};

verus! {

/// Whether two rows have the same values in the columns by which rows are
/// grouped.
#[verifier::opaque]
pub open spec fn agree(ops: Seq<AggOp>, a: Seq<Value>, b: Seq<Value>) -> bool {
    forall|i: int| 0 <= i < ops.len() && ops[i] == AggOp::Group ==> #[trigger] a[i] == b[i]
}

/// What the first `n` rows have in a column, of those in a group.
pub open spec fn column_to(
    ops: Seq<AggOp>,
    rows: Seq<Seq<Value>>,
    g: Seq<Value>,
    c: int,
    n: nat,
) -> Seq<Value>
    decreases n,
{
    if n == 0 {
        Seq::empty()
    } else {
        let less = column_to(ops, rows, g, c, (n - 1) as nat);
        if agree(ops, rows[n - 1], g) {
            less.push(rows[n - 1][c])
        } else {
            less
        }
    }
}

/// What the rows have in a column, of those in a group and in their order.
pub open spec fn column(
    ops: Seq<AggOp>,
    rows: Seq<Seq<Value>>,
    g: Seq<Value>,
    c: int,
) -> Seq<Value> {
    column_to(ops, rows, g, c, rows.len())
}

/// What an aggregation makes of values, one after the other.
pub open spec fn folded(op: AggOp, customs: Seq<CustomV>, vals: Seq<Value>) -> Result<Value, Fault>
    decreases vals.len(),
{
    if vals.len() == 0 {
        Ok(init_of(op, customs))
    } else {
        match folded(op, customs, vals.drop_last()) {
            Err(f) => Err(f),
            Ok(acc) => step_of(op, customs, acc, vals.last()),
        }
    }
}

proof fn lemma_same_group(ops: Seq<AggOp>, a: Seq<Value>, b: Seq<Value>, i: int)
    requires
        0 <= i <= ops.len(),
    ensures
        same_group_from(ops, a, b, i) <==> (i == ops.len() || (a.len() >= ops.len() && b.len()
            >= ops.len())) && forall|j: int|
            i <= j < ops.len() && ops[j] == AggOp::Group ==> #[trigger] a[j] == b[j],
    decreases ops.len() - i,
{
    if i < ops.len() {
        lemma_same_group(ops, a, b, i + 1);
        if same_group_from(ops, a, b, i) {
            assert(i + 1 == ops.len() ==> a.len() >= ops.len() && b.len() >= ops.len());
        }
    }
}

proof fn lemma_group(ops: Seq<AggOp>, groups: Seq<Seq<Value>>, row: Seq<Value>, i: int)
    requires
        0 <= i <= groups.len(),
        row.len() >= ops.len(),
        forall|k: int| 0 <= k < groups.len() ==> (#[trigger] groups[k]).len() == ops.len(),
    ensures
        i <= group_from(ops, groups, row, i) <= groups.len(),
        group_from(ops, groups, row, i) < groups.len() ==> agree(
            ops,
            groups[group_from(ops, groups, row, i)],
            row,
        ),
        forall|k: int|
            i <= k < group_from(ops, groups, row, i) ==> !agree(ops, #[trigger] groups[k], row),
    decreases groups.len() - i,
{
    reveal(agree);
    if i < groups.len() {
        lemma_same_group(ops, groups[i], row, 0);
        lemma_group(ops, groups, row, i + 1);
    }
}

proof fn lemma_start(
    ops: Seq<AggOp>,
    customs: Seq<CustomV>,
    row: Seq<Value>,
    i: int,
    acc: Seq<Value>,
)
    requires
        0 <= i <= ops.len(),
        acc.len() == i,
        row.len() >= ops.len() || ungrouped_from(ops, i),
    ensures
        ({
            let s = start_from(ops, customs, row, i, acc);
            &&& s.len() == ops.len()
            &&& forall|j: int| 0 <= j < i ==> s[j] == acc[j]
            &&& forall|j: int|
                i <= j < ops.len() ==> #[trigger] s[j] == if ops[j] == AggOp::Group {
                    row[j]
                } else {
                    init_of(ops[j], customs)
                }
        }),
    decreases ops.len() - i,
{
    if i < ops.len() {
        let v = if ops[i] == AggOp::Group && i < row.len() {
            row[i]
        } else {
            init_of(ops[i], customs)
        };
        lemma_start(ops, customs, row, i + 1, acc.push(v));
        let s = start_from(ops, customs, row, i, acc);
        assert(s[i] == acc.push(v)[i]);
        assert forall|j: int| 0 <= j < i implies s[j] == acc[j] by {
            assert(s[j] == acc.push(v)[j]);
        }
    }
}

proof fn lemma_merge(
    ops: Seq<AggOp>,
    customs: Seq<CustomV>,
    state: Seq<Value>,
    row: Seq<Value>,
    i: int,
    acc: Seq<Value>,
    s: Seq<Value>,
)
    requires
        0 <= i <= ops.len(),
        acc.len() == i,
        merge_from(ops, customs, state, row, i, acc) == Ok::<Seq<Value>, Fault>(s),
        ops.len() > 0 ==> i < ops.len() || row.len() >= ops.len(),
    ensures
        s.len() == ops.len(),
        ops.len() > 0 ==> row.len() >= ops.len(),
        forall|j: int| 0 <= j < i ==> #[trigger] s[j] == acc[j],
        forall|j: int|
            i <= j < ops.len() ==> step_of(ops[j], customs, state[j], row[j]) == Ok::<Value, Fault>(
                #[trigger] s[j],
            ),
    decreases ops.len() - i,
{
    if i < ops.len() {
        let v = step_of(ops[i], customs, state[i], row[i])->Ok_0;
        let more = acc.push(v);
        lemma_merge(ops, customs, state, row, i + 1, more, s);
        assert(s[i] == more[i]);
        assert forall|j: int| 0 <= j < i implies #[trigger] s[j] == acc[j] by {
            assert(s[j] == more[j]);
        }
        assert forall|j: int| i <= j < ops.len() implies step_of(
            ops[j],
            customs,
            state[j],
            row[j],
        ) == Ok::<Value, Fault>(#[trigger] s[j]) by {
            if j == i {
                assert(s[j] == v);
            }
        }
    }
}

/// Whether a row belongs to one of some groups.
#[verifier::opaque]
spec fn belongs(ops: Seq<AggOp>, groups: Seq<Seq<Value>>, row: Seq<Value>) -> bool {
    exists|k: int| 0 <= k < groups.len() && agree(ops, #[trigger] groups[k], row)
}

/// Whether one of the first `n` rows is in a group.
#[verifier::opaque]
spec fn inhabited(ops: Seq<AggOp>, rows: Seq<Seq<Value>>, n: nat, g: Seq<Value>) -> bool {
    exists|j: int| 0 <= j < n && agree(ops, g, #[trigger] rows[j])
}

/// Whether a group has made of the first `n` rows what its aggregations do.
#[verifier::opaque]
spec fn filled(
    ops: Seq<AggOp>,
    customs: Seq<CustomV>,
    rows: Seq<Seq<Value>>,
    n: nat,
    g: Seq<Value>,
) -> bool {
    forall|c: int|
        0 <= c < ops.len() && ops[c] != AggOp::Group ==> folded(
            ops[c],
            customs,
            column_to(ops, rows, g, c, n),
        ) == Ok::<Value, Fault>(#[trigger] g[c])
}

/// Whether groups are those of the first `n` rows.
spec fn sorted_out(
    ops: Seq<AggOp>,
    customs: Seq<CustomV>,
    rows: Seq<Seq<Value>>,
    n: nat,
    groups: Seq<Seq<Value>>,
) -> bool {
    &&& forall|k: int| 0 <= k < groups.len() ==> (#[trigger] groups[k]).len() == ops.len()
    &&& forall|k: int, l: int|
        0 <= k < l < groups.len() ==> !agree(ops, #[trigger] groups[k], #[trigger] groups[l])
    &&& forall|j: int| 0 <= j < n ==> belongs(ops, groups, #[trigger] rows[j])
    &&& forall|k: int|
        0 <= k < groups.len() ==> ungrouped_from(ops, 0) || inhabited(
            ops,
            rows,
            n,
            #[trigger] groups[k],
        )
    &&& ungrouped_from(ops, 0) ==> groups.len() == 1
    &&& forall|k: int|
        0 <= k < groups.len() ==> filled(ops, customs, rows, n, #[trigger] groups[k])
}

proof fn lemma_column_same(
    ops: Seq<AggOp>,
    rows: Seq<Seq<Value>>,
    a: Seq<Value>,
    b: Seq<Value>,
    c: int,
    n: nat,
)
    requires
        agree(ops, a, b),
    ensures
        column_to(ops, rows, a, c, n) == column_to(ops, rows, b, c, n),
    decreases n,
{
    reveal(agree);
    if n > 0 {
        lemma_column_same(ops, rows, a, b, c, (n - 1) as nat);
        let r = rows[n - 1];
        assert(agree(ops, r, a) == agree(ops, r, b)) by {
            if agree(ops, r, a) {
                assert forall|i: int| 0 <= i < ops.len() && ops[i] == AggOp::Group implies
                    #[trigger] r[i] == b[i] by {
                    assert(a[i] == b[i]);
                }
            }
            if agree(ops, r, b) {
                assert forall|i: int| 0 <= i < ops.len() && ops[i] == AggOp::Group implies
                    #[trigger] r[i] == a[i] by {
                    assert(a[i] == b[i]);
                }
            }
        }
    }
}

proof fn lemma_agree(ops: Seq<AggOp>, a: Seq<Value>, b: Seq<Value>, c: Seq<Value>)
    ensures
        agree(ops, a, b) <==> agree(ops, b, a),
        agree(ops, a, b) && agree(ops, b, c) ==> agree(ops, a, c),
{
    reveal(agree);
    if agree(ops, a, b) {
        assert forall|i: int| 0 <= i < ops.len() && ops[i] == AggOp::Group implies #[trigger] b[i]
            == a[i] by {
            assert(a[i] == b[i]);
        }
    }
    if agree(ops, b, a) {
        assert forall|i: int| 0 <= i < ops.len() && ops[i] == AggOp::Group implies #[trigger] a[i]
            == b[i] by {
            assert(b[i] == a[i]);
        }
    }
    if agree(ops, a, b) && agree(ops, b, c) {
        assert forall|i: int| 0 <= i < ops.len() && ops[i] == AggOp::Group implies #[trigger] a[i]
            == c[i] by {
            assert(a[i] == b[i]);
            assert(b[i] == c[i]);
        }
    }
}

pub proof fn lemma_folded_push(op: AggOp, customs: Seq<CustomV>, vals: Seq<Value>, v: Value)
    ensures
        folded(op, customs, vals.push(v)) == match folded(op, customs, vals) {
            Err(f) => Err(f),
            Ok(acc) => step_of(op, customs, acc, v),
        },
{
    assert(vals.push(v).drop_last() =~= vals);
}

proof fn lemma_column_absent(
    ops: Seq<AggOp>,
    rows: Seq<Seq<Value>>,
    g: Seq<Value>,
    c: int,
    n: nat,
)
    requires
        forall|j: int| 0 <= j < n ==> !agree(ops, #[trigger] rows[j], g),
    ensures
        column_to(ops, rows, g, c, n) == Seq::<Value>::empty(),
    decreases n,
{
    if n > 0 {
        assert(!agree(ops, rows[n - 1], g));
        lemma_column_absent(ops, rows, g, c, (n - 1) as nat);
    }
}

/// The state of a group after one more row of it.
proof fn lemma_next_state(
    ops: Seq<AggOp>,
    customs: Seq<CustomV>,
    rows: Seq<Seq<Value>>,
    n: nat,
    state: Seq<Value>,
    s: Seq<Value>,
)
    requires
        n < rows.len(),
        state.len() == ops.len(),
        agree(ops, state, rows[n as int]),
        merge_from(ops, customs, state, rows[n as int], 0, Seq::empty()) == Ok::<
            Seq<Value>,
            Fault,
        >(s),
        filled(ops, customs, rows, n, state),
    ensures
        s.len() == ops.len(),
        agree(ops, s, state),
        agree(ops, s, rows[n as int]),
        filled(ops, customs, rows, n + 1, s),
{
    let row = rows[n as int];
    lemma_merge(ops, customs, state, row, 0, Seq::empty(), s);
    assert(agree(ops, s, state)) by {
        reveal(agree);
        reveal(step_of);
        assert forall|i: int| 0 <= i < ops.len() && ops[i] == AggOp::Group implies #[trigger] s[i]
            == state[i] by {
            assert(step_of(ops[i], customs, state[i], row[i]) == Ok::<Value, Fault>(s[i]));
        }
    }
    lemma_agree(ops, s, state, row);
    lemma_agree(ops, row, s, s);
    assert(filled(ops, customs, rows, n + 1, s)) by {
        reveal(filled);
        assert forall|c: int| 0 <= c < ops.len() && ops[c] != AggOp::Group implies folded(
            ops[c],
            customs,
            column_to(ops, rows, s, c, n + 1),
        ) == Ok::<Value, Fault>(#[trigger] s[c]) by {
            lemma_column_same(ops, rows, s, state, c, n);
            let before = column_to(ops, rows, s, c, n);
            assert(folded(ops[c], customs, before) == Ok::<Value, Fault>(state[c]));
            assert(column_to(ops, rows, s, c, n + 1) == before.push(row[c])) by {
                assert(agree(ops, rows[(n + 1) - 1], s));
            }
            lemma_folded_push(ops[c], customs, before, row[c]);
            assert(step_of(ops[c], customs, state[c], row[c]) == Ok::<Value, Fault>(s[c]));
        }
    }
}

proof fn lemma_filled_stays(
    ops: Seq<AggOp>,
    customs: Seq<CustomV>,
    rows: Seq<Seq<Value>>,
    n: nat,
    g: Seq<Value>,
)
    requires
        filled(ops, customs, rows, n, g),
        !agree(ops, rows[n as int], g),
    ensures
        filled(ops, customs, rows, n + 1, g),
{
    reveal(filled);
    assert forall|c: int| 0 <= c < ops.len() && ops[c] != AggOp::Group implies folded(
        ops[c],
        customs,
        column_to(ops, rows, g, c, n + 1),
    ) == Ok::<Value, Fault>(#[trigger] g[c]) by {
        assert(column_to(ops, rows, g, c, n + 1) == column_to(ops, rows, g, c, n));
    }
}

proof fn lemma_old_group(
    ops: Seq<AggOp>,
    customs: Seq<CustomV>,
    rows: Seq<Seq<Value>>,
    n: nat,
    groups: Seq<Seq<Value>>,
    g: int,
    s: Seq<Value>,
)
    requires
        n < rows.len(),
        sorted_out(ops, customs, rows, n, groups),
        0 <= g < groups.len(),
        agree(ops, groups[g], rows[n as int]),
        merge_from(ops, customs, groups[g], rows[n as int], 0, Seq::empty()) == Ok::<
            Seq<Value>,
            Fault,
        >(s),
    ensures
        sorted_out(ops, customs, rows, n + 1, groups.update(g, s)),
{
    let row = rows[n as int];
    let next = groups.update(g, s);
    lemma_next_state(ops, customs, rows, n, groups[g], s);
    assert forall|k: int, l: int| 0 <= k < l < next.len() implies !agree(
        ops,
        #[trigger] next[k],
        #[trigger] next[l],
    ) by {
        assert(!agree(ops, groups[k], groups[l]));
        if k == g {
            lemma_agree(ops, groups[g], s, groups[l]);
            lemma_agree(ops, s, groups[g], groups[g]);
        } else if l == g {
            lemma_agree(ops, groups[k], s, groups[g]);
        }
    }
    assert forall|j: int| 0 <= j < n + 1 implies belongs(ops, next, #[trigger] rows[j]) by {
        reveal(belongs);
        if j == n {
            assert(agree(ops, next[g], rows[j]));
        } else {
            assert(belongs(ops, groups, rows[j]));
            let k = choose|k: int|
                0 <= k < groups.len() && agree(ops, #[trigger] groups[k], rows[j]);
            if k == g {
                lemma_agree(ops, s, groups[g], rows[j]);
            }
            assert(agree(ops, next[k], rows[j]));
        }
    }
    assert forall|k: int| 0 <= k < next.len() implies ungrouped_from(ops, 0) || inhabited(
        ops,
        rows,
        n + 1,
        #[trigger] next[k],
    ) by {
        reveal(inhabited);
        if k == g {
            assert(agree(ops, next[k], rows[n as int]));
        } else {
            assert(next[k] == groups[k]);
        }
    }
    assert forall|k: int| 0 <= k < next.len() implies filled(
        ops,
        customs,
        rows,
        n + 1,
        #[trigger] next[k],
    ) by {
        if k != g {
            assert(next[k] == groups[k]);
            if agree(ops, row, groups[k]) {
                lemma_agree(ops, groups[g], row, groups[k]);
                lemma_agree(ops, groups[k], groups[g], groups[g]);
                assert(!agree(ops, groups[k], groups[g]) || !agree(ops, groups[g], groups[k]));
            }
            lemma_filled_stays(ops, customs, rows, n, groups[k]);
        }
    }
}

proof fn lemma_new_group(
    ops: Seq<AggOp>,
    customs: Seq<CustomV>,
    rows: Seq<Seq<Value>>,
    n: nat,
    groups: Seq<Seq<Value>>,
    s: Seq<Value>,
)
    requires
        n < rows.len(),
        sorted_out(ops, customs, rows, n, groups),
        rows[n as int].len() >= ops.len(),
        forall|k: int| 0 <= k < groups.len() ==> !agree(ops, #[trigger] groups[k], rows[n as int]),
        merge_from(
            ops,
            customs,
            start_from(ops, customs, rows[n as int], 0, Seq::empty()),
            rows[n as int],
            0,
            Seq::empty(),
        ) == Ok::<Seq<Value>, Fault>(s),
    ensures
        sorted_out(ops, customs, rows, n + 1, groups.push(s)),
{
    let row = rows[n as int];
    let next = groups.push(s);
    let first = start_from(ops, customs, row, 0, Seq::empty());
    lemma_start(ops, customs, row, 0, Seq::empty());
    assert(agree(ops, first, row)) by {
        reveal(agree);
    }
    assert(!ungrouped_from(ops, 0)) by {
        if ungrouped_from(ops, 0) {
            lemma_ungrouped(ops, 0);
            assert(agree(ops, groups[0], row)) by {
                reveal(agree);
            }
        }
    }
    assert(filled(ops, customs, rows, n, first)) by {
        assert forall|j: int| 0 <= j < n implies !agree(ops, #[trigger] rows[j], first) by {
            if agree(ops, rows[j], first) {
                assert(belongs(ops, groups, rows[j]));
                reveal(belongs);
                let k = choose|k: int|
                    0 <= k < groups.len() && agree(ops, #[trigger] groups[k], rows[j]);
                lemma_agree(ops, groups[k], rows[j], first);
                lemma_agree(ops, groups[k], first, row);
            }
        }
        reveal(filled);
        assert forall|c: int| 0 <= c < ops.len() && ops[c] != AggOp::Group implies folded(
            ops[c],
            customs,
            column_to(ops, rows, first, c, n),
        ) == Ok::<Value, Fault>(#[trigger] first[c]) by {
            lemma_column_absent(ops, rows, first, c, n);
        }
    }
    lemma_next_state(ops, customs, rows, n, first, s);
    assert forall|k: int, l: int| 0 <= k < l < next.len() implies !agree(
        ops,
        #[trigger] next[k],
        #[trigger] next[l],
    ) by {
        if l == groups.len() {
            assert(!agree(ops, groups[k], row));
            lemma_agree(ops, groups[k], s, row);
        } else {
            assert(!agree(ops, groups[k], groups[l]));
        }
    }
    assert forall|j: int| 0 <= j < n + 1 implies belongs(ops, next, #[trigger] rows[j]) by {
        reveal(belongs);
        if j == n {
            assert(agree(ops, next[groups.len() as int], rows[j]));
        } else {
            assert(belongs(ops, groups, rows[j]));
            let k = choose|k: int|
                0 <= k < groups.len() && agree(ops, #[trigger] groups[k], rows[j]);
            assert(agree(ops, next[k], rows[j]));
        }
    }
    assert forall|k: int| 0 <= k < next.len() implies ungrouped_from(ops, 0) || inhabited(
        ops,
        rows,
        n + 1,
        #[trigger] next[k],
    ) by {
        reveal(inhabited);
        if k == groups.len() {
            assert(agree(ops, next[k], rows[n as int]));
        } else {
            assert(next[k] == groups[k]);
        }
    }
    assert forall|k: int| 0 <= k < next.len() implies filled(
        ops,
        customs,
        rows,
        n + 1,
        #[trigger] next[k],
    ) by {
        if k < groups.len() {
            assert(next[k] == groups[k]);
            assert(!agree(ops, groups[k], row));
            lemma_agree(ops, groups[k], row, row);
            lemma_filled_stays(ops, customs, rows, n, groups[k]);
        }
    }
}

proof fn lemma_ungrouped(ops: Seq<AggOp>, i: int)
    requires
        0 <= i <= ops.len(),
    ensures
        ungrouped_from(ops, i) <==> forall|j: int|
            i <= j < ops.len() ==> #[trigger] ops[j] != AggOp::Group,
    decreases ops.len() - i,
{
    if i < ops.len() {
        lemma_ungrouped(ops, i + 1);
    }
}

proof fn lemma_absorb(
    ops: Seq<AggOp>,
    customs: Seq<CustomV>,
    rows: Seq<Seq<Value>>,
    i: nat,
    groups: Seq<Seq<Value>>,
)
    requires
        i <= rows.len(),
        sorted_out(ops, customs, rows, i, groups),
    ensures
        absorb_from(ops, customs, rows, i as int, groups) matches Ok(out) ==> sorted_out(
            ops,
            customs,
            rows,
            rows.len(),
            out,
        ),
    decreases rows.len() - i,
{
    if i < rows.len() && absorb_from(ops, customs, rows, i as int, groups) is Ok {
        let row = rows[i as int];
        let g = group_from(ops, groups, row, 0);
        let state = if g < groups.len() {
            groups[g]
        } else {
            start_from(ops, customs, row, 0, Seq::empty())
        };
        let s = merge_from(ops, customs, state, row, 0, Seq::empty())->Ok_0;
        lemma_merge(ops, customs, state, row, 0, Seq::empty(), s);
        lemma_group(ops, groups, row, 0);
        if g < groups.len() {
            lemma_old_group(ops, customs, rows, i, groups, g, s);
            lemma_absorb(ops, customs, rows, i + 1, groups.update(g, s));
        } else {
            lemma_new_group(ops, customs, rows, i, groups, s);
            lemma_absorb(ops, customs, rows, i + 1, groups.push(s));
        }
    }
}

/// The groups of rows before they are sorted.
proof fn lemma_aggregated(
    ops: Seq<AggOp>,
    customs: Seq<CustomV>,
    rows: Seq<Seq<Value>>,
    out: Seq<Seq<Value>>,
) -> (groups: Seq<Seq<Value>>)
    requires
        aggregated(ops, customs, rows) == Ok::<Seq<Seq<Value>>, Fault>(out),
    ensures
        sorted_out(ops, customs, rows, rows.len(), groups),
        forall|x: Seq<Value>| #[trigger] out.contains(x) <==> groups.contains(x),
        ascending(out),
{
    let seed = seed_of(ops, customs);
    let groups = absorb_from(ops, customs, rows, 0, seed)->Ok_0;
    if ungrouped_from(ops, 0) {
        lemma_start(ops, customs, Seq::empty(), 0, Seq::empty());
        lemma_ungrouped(ops, 0);
        assert(seed.len() == 1);
    }
    assert forall|k: int| 0 <= k < seed.len() implies filled(
        ops,
        customs,
        rows,
        0,
        #[trigger] seed[k],
    ) by {
        reveal(filled);
    }
    assert(sorted_out(ops, customs, rows, 0, seed));
    lemma_absorb(ops, customs, rows, 0, seed);
    law_sorted(groups);
    groups
}

/// Aggregated rows are the groups of the rows: every row belongs to one of them
/// and to no other, and each of them has a row; but where nothing groups the rows
/// there is one, also without any row.
pub proof fn law_groups_are_those_of_rows(
    ops: Seq<AggOp>,
    customs: Seq<CustomV>,
    rows: Seq<Seq<Value>>,
    out: Seq<Seq<Value>>,
)
    requires
        aggregated(ops, customs, rows) == Ok::<Seq<Seq<Value>>, Fault>(out),
    ensures
        forall|row: Seq<Value>| #[trigger]
            rows.contains(row) ==> exists|g: Seq<Value>| #[trigger]
                out.contains(g) && agree(ops, g, row),
        forall|k: int, l: int|
            0 <= k < l < out.len() ==> !agree(ops, #[trigger] out[k], #[trigger] out[l]),
        forall|g: Seq<Value>| #[trigger]
            out.contains(g) && (exists|c: int|
                0 <= c < ops.len() && #[trigger] ops[c] == AggOp::Group) ==> exists|
                row: Seq<Value>,
            | #[trigger]
                rows.contains(row) && agree(ops, g, row),
        (forall|c: int| 0 <= c < ops.len() ==> #[trigger] ops[c] != AggOp::Group) ==> out.len()
            == 1,
{
    let groups = lemma_aggregated(ops, customs, rows, out);
    lemma_ungrouped(ops, 0);
    assert forall|row: Seq<Value>| #[trigger] rows.contains(row) implies exists|g: Seq<Value>|
        #[trigger] out.contains(g) && agree(ops, g, row) by {
        let j = choose|j: int| 0 <= j < rows.len() && rows[j] == row;
        assert(belongs(ops, groups, rows[j]));
        reveal(belongs);
        let k = choose|k: int| 0 <= k < groups.len() && agree(ops, #[trigger] groups[k], rows[j]);
        assert(groups.contains(groups[k]));
        assert(out.contains(groups[k]) && agree(ops, groups[k], row));
    }
    assert forall|k: int, l: int| 0 <= k < l < out.len() implies !agree(
        ops,
        #[trigger] out[k],
        #[trigger] out[l],
    ) by {
        assert(out.contains(out[k]) && out.contains(out[l]));
        let a = choose|a: int| 0 <= a < groups.len() && groups[a] == out[k];
        let b = choose|b: int| 0 <= b < groups.len() && groups[b] == out[l];
        assert(order_rows(out[k], out[l], 0) == Sign::Less);
        lemma_rows_same(out[k], out[l]);
        if a < b {
            assert(!agree(ops, groups[a], groups[b]));
        } else {
            assert(!agree(ops, groups[b], groups[a]));
            lemma_agree(ops, groups[a], groups[b], groups[b]);
        }
    }
    assert forall|g: Seq<Value>| #[trigger]
        out.contains(g) && (exists|c: int|
            0 <= c < ops.len() && #[trigger] ops[c] == AggOp::Group) implies exists|
        row: Seq<Value>,
    | #[trigger] rows.contains(row) && agree(ops, g, row) by {
        assert(groups.contains(g));
        let a = choose|a: int| 0 <= a < groups.len() && groups[a] == g;
        assert(inhabited(ops, rows, rows.len(), groups[a]));
        reveal(inhabited);
        let j = choose|j: int| 0 <= j < rows.len() && agree(ops, groups[a], #[trigger] rows[j]);
        assert(rows.contains(rows[j]) && agree(ops, g, rows[j]));
    }
    if forall|c: int| 0 <= c < ops.len() ==> #[trigger] ops[c] != AggOp::Group {
        assert(groups.contains(groups[0]));
        assert(out.contains(groups[0]));
        if out.len() > 1 {
            assert(out.contains(out[0]) && out.contains(out[1]));
            assert(order_rows(out[0], out[1], 0) == Sign::Less);
            lemma_rows_same(out[0], out[1]);
        }
    }
}

/// What a column of a group is made of.
pub proof fn lemma_cell(
    ops: Seq<AggOp>,
    customs: Seq<CustomV>,
    rows: Seq<Seq<Value>>,
    out: Seq<Seq<Value>>,
    g: Seq<Value>,
    c: int,
)
    requires
        aggregated(ops, customs, rows) == Ok::<Seq<Seq<Value>>, Fault>(out),
        out.contains(g),
        0 <= c < ops.len(),
        ops[c] != AggOp::Group,
    ensures
        folded(ops[c], customs, column(ops, rows, g, c)) == Ok::<Value, Fault>(g[c]),
{
    let groups = lemma_aggregated(ops, customs, rows, out);
    assert(groups.contains(g));
    let k = choose|k: int| 0 <= k < groups.len() && groups[k] == g;
    assert(filled(ops, customs, rows, rows.len(), groups[k]));
    reveal(filled);
}

} // verus!
