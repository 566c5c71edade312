//! What each aggregation of a rule's head gives for a group of rows.
use vstd::prelude::*;

use crate::aggr::{CustomV, MeetAggrObj, TestMaxi, cost_of};
use crate::error::Fault;
use crate::expr::{is_number, loose_order};
use crate::fold::{AggOp, aggregated, builtin_of, resolved, resolved_from, step_of};
use crate::law_aggregate::{agree, column, column_to, folded, lemma_cell};
use crate::law_order::{is_less, law_comparisons_agree, law_numbers_by_worth};
use crate::query::{AggrV, HeadItemV};
use crate::value::{
    Sign, Value, flip, law_order_chains, law_order_flips, lemma_order_same, micros_of, order,
};

verus! {

/// Whether a row of a group has a value in a column.
pub open spec fn given(
    ops: Seq<AggOp>,
    rows: Seq<Seq<Value>>,
    g: Seq<Value>,
    c: int,
    x: Value,
) -> bool {
    exists|row: Seq<Value>| #[trigger] rows.contains(row) && agree(ops, row, g) && row[c] == x
}

/// Whether a column of a head is aggregated by what a name stands for.
pub open spec fn aggregates(
    head: Seq<HeadItemV>,
    customs: Seq<CustomV>,
    ops: Seq<AggOp>,
    c: int,
    name: Seq<char>,
) -> bool {
    &&& resolved_from(head, customs, 0, Seq::empty()) == Ok::<Seq<AggOp>, Fault>(ops)
    &&& 0 <= c < head.len()
    &&& head[c].aggr == Some(AggrV { name, args: Seq::empty() })
}

/// Whether a row is the group that aggregating rows gives, and has this column
/// aggregated by what a name stands for.
pub open spec fn gathers(
    head: Seq<HeadItemV>,
    customs: Seq<CustomV>,
    ops: Seq<AggOp>,
    rows: Seq<Seq<Value>>,
    out: Seq<Seq<Value>>,
    g: Seq<Value>,
    c: int,
    name: Seq<char>,
) -> bool {
    &&& aggregates(head, customs, ops, c, name)
    &&& aggregated(ops, customs, rows) == Ok::<Seq<Seq<Value>>, Fault>(out)
    &&& out.contains(g)
}

proof fn lemma_column_given(
    ops: Seq<AggOp>,
    rows: Seq<Seq<Value>>,
    g: Seq<Value>,
    c: int,
    n: nat,
    x: Value,
)
    requires
        n <= rows.len(),
    ensures
        column_to(ops, rows, g, c, n).contains(x) <==> exists|j: int|
            0 <= j < n && agree(ops, #[trigger] rows[j], g) && rows[j][c] == x,
    decreases n,
{
    let all = column_to(ops, rows, g, c, n);
    if n > 0 {
        let m = (n - 1) as nat;
        let less = column_to(ops, rows, g, c, m);
        lemma_column_given(ops, rows, g, c, m, x);
        let r = rows[n - 1];
        if agree(ops, r, g) {
            if all.contains(x) {
                let k = choose|k: int| 0 <= k < all.len() && all[k] == x;
                if k < less.len() {
                    assert(less[k] == x);
                    assert(less.contains(x));
                } else {
                    assert(agree(ops, rows[n - 1], g) && rows[n - 1][c] == x);
                }
            }
            if less.contains(x) {
                let k = choose|k: int| 0 <= k < less.len() && less[k] == x;
                assert(all[k] == x);
            }
            if r[c] == x {
                assert(all[less.len() as int] == x);
            }
        }
    }
}

proof fn lemma_given(
    ops: Seq<AggOp>,
    rows: Seq<Seq<Value>>,
    g: Seq<Value>,
    c: int,
    x: Value,
)
    ensures
        column(ops, rows, g, c).contains(x) <==> given(ops, rows, g, c, x),
{
    lemma_column_given(ops, rows, g, c, rows.len(), x);
    if column(ops, rows, g, c).contains(x) {
        let j = choose|j: int|
            0 <= j < rows.len() && agree(ops, #[trigger] rows[j], g) && rows[j][c] == x;
        assert(rows.contains(rows[j]));
    }
    if given(ops, rows, g, c, x) {
        let row = choose|row: Seq<Value>| #[trigger]
            rows.contains(row) && agree(ops, row, g) && row[c] == x;
        let j = choose|j: int| 0 <= j < rows.len() && rows[j] == row;
        assert(agree(ops, rows[j], g));
    }
}

proof fn lemma_resolved_each(
    head: Seq<HeadItemV>,
    customs: Seq<CustomV>,
    i: int,
    acc: Seq<AggOp>,
    ops: Seq<AggOp>,
)
    requires
        0 <= i <= head.len(),
        acc.len() == i,
        resolved_from(head, customs, i, acc) == Ok::<Seq<AggOp>, Fault>(ops),
    ensures
        ops.len() == head.len(),
        forall|j: int| 0 <= j < i ==> #[trigger] ops[j] == acc[j],
        forall|j: int|
            i <= j < head.len() ==> resolved(head[j], customs) == Ok::<AggOp, Fault>(
                #[trigger] ops[j],
            ),
    decreases head.len() - i,
{
    if i < head.len() {
        let op = resolved(head[i], customs)->Ok_0;
        let more = acc.push(op);
        lemma_resolved_each(head, customs, i + 1, more, ops);
        assert(ops[i] == more[i]);
        assert forall|j: int| 0 <= j < i implies #[trigger] ops[j] == acc[j] by {
            assert(ops[j] == more[j]);
        }
    }
}

proof fn lemma_builtins()
    ensures
        builtin_of("count"@) == Some(AggOp::Count),
        builtin_of("sum"@) == Some(AggOp::Sum),
        builtin_of("collect"@) == Some(AggOp::Collect),
        builtin_of("and"@) == Some(AggOp::And),
        builtin_of("or"@) == Some(AggOp::Or),
        builtin_of("bit_and"@) == Some(AggOp::BitAnd),
        builtin_of("bit_or"@) == Some(AggOp::BitOr),
        builtin_of("min"@) == Some(AggOp::Min),
        builtin_of("max"@) == Some(AggOp::Max),
        builtin_of("min_cost"@) == Some(AggOp::MinCost),
        builtin_of("min_cost_k"@) is None,
{
    lemma_names_differ();
}

proof fn lemma_names_differ()
    ensures
        "count"@.len() == 5,
        "sum"@.len() == 3 && "sum"@[0] == 's',
        "collect"@.len() == 7 && "collect"@[0] == 'c',
        "and"@.len() == 3 && "and"@[0] == 'a',
        "or"@.len() == 2,
        "bit_and"@.len() == 7 && "bit_and"@[0] == 'b',
        "bit_or"@.len() == 6,
        "min"@.len() == 3 && "min"@[0] == 'm' && "min"@[1] == 'i',
        "max"@.len() == 3 && "max"@[0] == 'm' && "max"@[1] == 'a',
        "min_cost"@.len() == 8,
        "min_cost_k"@.len() == 10,
{
    reveal_strlit("count");
    reveal_strlit("sum");
    reveal_strlit("collect");
    reveal_strlit("and");
    reveal_strlit("or");
    reveal_strlit("bit_and");
    reveal_strlit("bit_or");
    reveal_strlit("min");
    reveal_strlit("max");
    reveal_strlit("min_cost");
    reveal_strlit("min_cost_k");
}

/// What a column of a group is made of, where a name stands for the aggregation.
proof fn lemma_gathered(
    head: Seq<HeadItemV>,
    customs: Seq<CustomV>,
    ops: Seq<AggOp>,
    rows: Seq<Seq<Value>>,
    out: Seq<Seq<Value>>,
    g: Seq<Value>,
    c: int,
    name: Seq<char>,
    op: AggOp,
)
    requires
        gathers(head, customs, ops, rows, out, g, c, name),
        builtin_of(name) == Some(op),
        op != AggOp::Group,
    ensures
        folded(op, customs, column(ops, rows, g, c)) == Ok::<Value, Fault>(g[c]),
{
    lemma_builtins();
    lemma_resolved_each(head, customs, 0, Seq::empty(), ops);
    assert(resolved(head[c], customs) == Ok::<AggOp, Fault>(ops[c]));
    lemma_cell(ops, customs, rows, out, g, c);
}

proof fn lemma_loose_flips(a: Value, b: Value)
    ensures
        loose_order(b, a) == flip(loose_order(a, b)),
{
    law_order_flips(a, b);
}

proof fn lemma_loose_chains(a: Value, b: Value, c: Value)
    requires
        loose_order(a, b) == Sign::Less,
        loose_order(b, c) == Sign::Less,
    ensures
        loose_order(a, c) == Sign::Less,
{
    if is_number(a) && is_number(b) {
    } else if is_number(b) && is_number(c) {
    } else if order(a, b) == Sign::Less && order(b, c) == Sign::Less {
        law_order_chains(a, b, c);
    }
}

proof fn lemma_contains_push(s: Seq<Value>, v: Value, x: Value)
    ensures
        s.push(v).contains(x) <==> s.contains(x) || x == v,
{
    let t = s.push(v);
    if s.contains(x) {
        let k = choose|k: int| 0 <= k < s.len() && s[k] == x;
        assert(t[k] == x);
    }
    if x == v {
        assert(t[s.len() as int] == x);
    }
    if t.contains(x) {
        let k = choose|k: int| 0 <= k < t.len() && t[k] == x;
        if k < s.len() {
            assert(s[k] == x);
        }
    }
}

/// Whether a value is the first of some, in an order of them; null is none.
spec fn is_first(vals: Seq<Value>, v: Value, up: bool) -> bool {
    &&& v is Null ==> forall|x: Value| #[trigger] vals.contains(x) ==> x is Null
    &&& !(v is Null) ==> vals.contains(v)
    &&& forall|x: Value| #[trigger]
        vals.contains(x) && !(x is Null) ==> loose_order(x, v) != if up {
            Sign::Less
        } else {
            Sign::More
        }
}

proof fn lemma_extreme(op: AggOp, customs: Seq<CustomV>, vals: Seq<Value>, v: Value)
    requires
        op == AggOp::Min || op == AggOp::Max,
        folded(op, customs, vals) == Ok::<Value, Fault>(v),
    ensures
        is_first(vals, v, op == AggOp::Min),
    decreases vals.len(),
{
    let up = op == AggOp::Min;
    if vals.len() > 0 {
        let less = vals.drop_last();
        let last = vals.last();
        let acc = folded(op, customs, less)->Ok_0;
        lemma_extreme(op, customs, less, acc);
        assert(vals =~= less.push(last));
        reveal(step_of);
        assert forall|x: Value| #[trigger] vals.contains(x) && !(x is Null) implies loose_order(
            x,
            v,
        ) != (if up {
            Sign::Less
        } else {
            Sign::More
        }) by {
            lemma_contains_push(less, last, x);
            lemma_loose_flips(x, v);
            lemma_loose_flips(x, acc);
            lemma_loose_flips(last, acc);
            law_order_flips(v, v);
            lemma_order_same(v, v);
            if less.contains(x) && v == last && !(acc is Null) {
                if up && loose_order(x, v) == Sign::Less {
                    lemma_loose_chains(x, last, acc);
                }
                if !up && loose_order(x, v) == Sign::More {
                    lemma_loose_chains(acc, last, x);
                }
            }
        }
        assert(vals.contains(v) || v is Null) by {
            lemma_contains_push(less, last, v);
        }
        if v is Null {
            assert forall|x: Value| #[trigger] vals.contains(x) implies x is Null by {
                lemma_contains_push(less, last, x);
            }
        }
    }
}

/// `min` gives the least of the values that are not null: one of them, and none
/// of them is less. It gives null where there is none.
pub proof fn law_min_gives_the_least(
    head: Seq<HeadItemV>,
    customs: Seq<CustomV>,
    ops: Seq<AggOp>,
    rows: Seq<Seq<Value>>,
    out: Seq<Seq<Value>>,
    g: Seq<Value>,
    c: int,
)
    requires
        gathers(head, customs, ops, rows, out, g, c, "min"@),
    ensures
        g[c] is Null ==> forall|x: Value| #[trigger] given(ops, rows, g, c, x) ==> x is Null,
        !(g[c] is Null) ==> given(ops, rows, g, c, g[c]),
        forall|x: Value| #[trigger]
            given(ops, rows, g, c, x) && !(x is Null) ==> loose_order(x, g[c]) != Sign::Less
                && !is_less(x, g[c]),
{
    lemma_builtins();
    lemma_gathered(head, customs, ops, rows, out, g, c, "min"@, AggOp::Min);
    lemma_extreme(AggOp::Min, customs, column(ops, rows, g, c), g[c]);
    lemma_given(ops, rows, g, c, g[c]);
    assert forall|x: Value| #[trigger] given(ops, rows, g, c, x) implies column(
        ops,
        rows,
        g,
        c,
    ).contains(x) && (is_less(x, g[c]) ==> loose_order(x, g[c]) == Sign::Less) by {
        lemma_given(ops, rows, g, c, x);
        if is_number(x) && is_number(g[c]) {
            law_numbers_by_worth(x, g[c]);
        }
    }
}

/// `max` gives the greatest of the values that are not null: one of them, and
/// none of them is greater. It gives null where there is none.
pub proof fn law_max_gives_the_greatest(
    head: Seq<HeadItemV>,
    customs: Seq<CustomV>,
    ops: Seq<AggOp>,
    rows: Seq<Seq<Value>>,
    out: Seq<Seq<Value>>,
    g: Seq<Value>,
    c: int,
)
    requires
        gathers(head, customs, ops, rows, out, g, c, "max"@),
    ensures
        g[c] is Null ==> forall|x: Value| #[trigger] given(ops, rows, g, c, x) ==> x is Null,
        !(g[c] is Null) ==> given(ops, rows, g, c, g[c]),
        forall|x: Value| #[trigger]
            given(ops, rows, g, c, x) && !(x is Null) ==> loose_order(x, g[c]) != Sign::More
                && !is_less(g[c], x),
{
    lemma_builtins();
    lemma_gathered(head, customs, ops, rows, out, g, c, "max"@, AggOp::Max);
    lemma_extreme(AggOp::Max, customs, column(ops, rows, g, c), g[c]);
    lemma_given(ops, rows, g, c, g[c]);
    assert forall|x: Value| #[trigger] given(ops, rows, g, c, x) implies column(
        ops,
        rows,
        g,
        c,
    ).contains(x) && (is_less(g[c], x) ==> loose_order(x, g[c]) == Sign::More) by {
        lemma_given(ops, rows, g, c, x);
        if is_number(x) && is_number(g[c]) {
            law_numbers_by_worth(x, g[c]);
        }
    }
}

proof fn lemma_count(customs: Seq<CustomV>, vals: Seq<Value>, v: Value)
    requires
        folded(AggOp::Count, customs, vals) == Ok::<Value, Fault>(v),
    ensures
        v matches Value::Int(n) && n == vals.len(),
    decreases vals.len(),
{
    if vals.len() > 0 {
        reveal(step_of);
        let acc = folded(AggOp::Count, customs, vals.drop_last())->Ok_0;
        lemma_count(customs, vals.drop_last(), acc);
    }
}

/// `count` gives the number of rows in a group.
pub proof fn law_count_counts(
    head: Seq<HeadItemV>,
    customs: Seq<CustomV>,
    ops: Seq<AggOp>,
    rows: Seq<Seq<Value>>,
    out: Seq<Seq<Value>>,
    g: Seq<Value>,
    c: int,
)
    requires
        gathers(head, customs, ops, rows, out, g, c, "count"@),
    ensures
        g[c] matches Value::Int(n) && n == column(ops, rows, g, c).len(),
{
    lemma_builtins();
    lemma_gathered(head, customs, ops, rows, out, g, c, "count"@, AggOp::Count);
    lemma_count(customs, column(ops, rows, g, c), g[c]);
}

proof fn lemma_collect(customs: Seq<CustomV>, vals: Seq<Value>, v: Value)
    requires
        folded(AggOp::Collect, customs, vals) == Ok::<Value, Fault>(v),
    ensures
        v == Value::List(vals),
    decreases vals.len(),
{
    if vals.len() > 0 {
        reveal(step_of);
        let acc = folded(AggOp::Collect, customs, vals.drop_last())->Ok_0;
        lemma_collect(customs, vals.drop_last(), acc);
        assert(vals.drop_last().push(vals.last()) =~= vals);
    } else {
        assert(vals =~= Seq::empty());
    }
}

/// `collect` gives the values of a group, in the order of its rows.
pub proof fn law_collect_keeps_all(
    head: Seq<HeadItemV>,
    customs: Seq<CustomV>,
    ops: Seq<AggOp>,
    rows: Seq<Seq<Value>>,
    out: Seq<Seq<Value>>,
    g: Seq<Value>,
    c: int,
)
    requires
        gathers(head, customs, ops, rows, out, g, c, "collect"@),
    ensures
        g[c] == Value::List(column(ops, rows, g, c)),
{
    lemma_builtins();
    lemma_gathered(head, customs, ops, rows, out, g, c, "collect"@, AggOp::Collect);
    lemma_collect(customs, column(ops, rows, g, c), g[c]);
}

/// What a number is worth, in millionths.
pub open spec fn worth(v: Value) -> int {
    match v {
        Value::Int(n) => n * 1_000_000,
        Value::Real(m) => m as int,
        _ => 0,
    }
}

/// What numbers are worth together.
pub open spec fn total(vals: Seq<Value>) -> int
    decreases vals.len(),
{
    if vals.len() == 0 {
        0
    } else {
        total(vals.drop_last()) + worth(vals.last())
    }
}

/// Whether neither the sum of some values nor that of fewer of them is more than
/// a real can hold.
pub open spec fn addable(vals: Seq<Value>) -> bool {
    forall|k: int|
        0 <= k <= vals.len() ==> i128::MIN <= total(#[trigger] vals.take(k)) <= i128::MAX
}

proof fn lemma_sum(customs: Seq<CustomV>, vals: Seq<Value>, v: Value)
    requires
        folded(AggOp::Sum, customs, vals) == Ok::<Value, Fault>(v),
    ensures
        v is Real,
        forall|x: Value| #[trigger] vals.contains(x) ==> x is Int || x is Real,
        addable(vals) ==> worth(v) == total(vals),
    decreases vals.len(),
{
    if vals.len() > 0 {
        reveal(step_of);
        let less = vals.drop_last();
        let acc = folded(AggOp::Sum, customs, less)->Ok_0;
        lemma_sum(customs, less, acc);
        assert(vals =~= less.push(vals.last()));
        assert forall|x: Value| #[trigger] vals.contains(x) implies x is Int || x is Real by {
            lemma_contains_push(less, vals.last(), x);
        }
        if addable(vals) {
            assert forall|k: int| 0 <= k <= less.len() implies i128::MIN <= total(
                #[trigger] less.take(k),
            ) <= i128::MAX by {
                assert(less.take(k) =~= vals.take(k));
                assert(i128::MIN <= total(vals.take(k)) <= i128::MAX);
            }
            assert(vals.take(vals.len() as int) =~= vals);
            assert(i128::MIN <= total(vals) <= i128::MAX);
        }
    }
}

/// `sum` gives what the numbers of a group are worth together, where a real can
/// hold it; all values are numbers.
pub proof fn law_sum_adds_up(
    head: Seq<HeadItemV>,
    customs: Seq<CustomV>,
    ops: Seq<AggOp>,
    rows: Seq<Seq<Value>>,
    out: Seq<Seq<Value>>,
    g: Seq<Value>,
    c: int,
)
    requires
        gathers(head, customs, ops, rows, out, g, c, "sum"@),
    ensures
        g[c] is Real,
        forall|x: Value| #[trigger] given(ops, rows, g, c, x) ==> x is Int || x is Real,
        addable(column(ops, rows, g, c)) ==> worth(g[c]) == total(column(ops, rows, g, c)),
{
    lemma_builtins();
    lemma_gathered(head, customs, ops, rows, out, g, c, "sum"@, AggOp::Sum);
    lemma_sum(customs, column(ops, rows, g, c), g[c]);
    assert forall|x: Value| #[trigger] given(ops, rows, g, c, x) implies x is Int || x is Real by {
        lemma_given(ops, rows, g, c, x);
    }
}

proof fn lemma_truths(op: AggOp, customs: Seq<CustomV>, vals: Seq<Value>, v: Value)
    requires
        op == AggOp::And || op == AggOp::Or,
        folded(op, customs, vals) == Ok::<Value, Fault>(v),
    ensures
        v is Bool,
        forall|x: Value| #[trigger] vals.contains(x) ==> x is Bool,
        v == Value::Bool(op == AggOp::And) <==> forall|x: Value| #[trigger]
            vals.contains(x) ==> x == Value::Bool(op == AggOp::And),
    decreases vals.len(),
{
    let all = Value::Bool(op == AggOp::And);
    if vals.len() > 0 {
        reveal(step_of);
        let less = vals.drop_last();
        let last = vals.last();
        let acc = folded(op, customs, less)->Ok_0;
        lemma_truths(op, customs, less, acc);
        assert(vals =~= less.push(last));
        assert forall|x: Value| #[trigger] vals.contains(x) implies x is Bool by {
            lemma_contains_push(less, last, x);
        }
        if v == all {
            assert forall|x: Value| #[trigger] vals.contains(x) implies x == all by {
                lemma_contains_push(less, last, x);
            }
        } else {
            lemma_contains_push(less, last, last);
            if acc != all {
                let x = choose|x: Value| #[trigger] less.contains(x) && x != all;
                lemma_contains_push(less, last, x);
            }
        }
    }
}

/// `and` gives true exactly where every value of the group is true.
pub proof fn law_and_means_all(
    head: Seq<HeadItemV>,
    customs: Seq<CustomV>,
    ops: Seq<AggOp>,
    rows: Seq<Seq<Value>>,
    out: Seq<Seq<Value>>,
    g: Seq<Value>,
    c: int,
)
    requires
        gathers(head, customs, ops, rows, out, g, c, "and"@),
    ensures
        g[c] is Bool,
        forall|x: Value| #[trigger] given(ops, rows, g, c, x) ==> x is Bool,
        g[c] == Value::Bool(true) <==> forall|x: Value| #[trigger]
            given(ops, rows, g, c, x) ==> x == Value::Bool(true),
{
    let vals = column(ops, rows, g, c);
    lemma_builtins();
    lemma_gathered(head, customs, ops, rows, out, g, c, "and"@, AggOp::And);
    lemma_truths(AggOp::And, customs, vals, g[c]);
    assert forall|x: Value| #[trigger] given(ops, rows, g, c, x) == vals.contains(x) by {
        lemma_given(ops, rows, g, c, x);
    }
    assert forall|x: Value| #[trigger] vals.contains(x) == given(ops, rows, g, c, x) by {
        lemma_given(ops, rows, g, c, x);
    }
}

/// `or` gives true exactly where some value of the group is true.
pub proof fn law_or_means_some(
    head: Seq<HeadItemV>,
    customs: Seq<CustomV>,
    ops: Seq<AggOp>,
    rows: Seq<Seq<Value>>,
    out: Seq<Seq<Value>>,
    g: Seq<Value>,
    c: int,
)
    requires
        gathers(head, customs, ops, rows, out, g, c, "or"@),
    ensures
        g[c] is Bool,
        forall|x: Value| #[trigger] given(ops, rows, g, c, x) ==> x is Bool,
        g[c] == Value::Bool(true) <==> given(ops, rows, g, c, Value::Bool(true)),
{
    let vals = column(ops, rows, g, c);
    lemma_builtins();
    lemma_gathered(head, customs, ops, rows, out, g, c, "or"@, AggOp::Or);
    lemma_truths(AggOp::Or, customs, vals, g[c]);
    lemma_given(ops, rows, g, c, Value::Bool(true));
    assert forall|x: Value| #[trigger] given(ops, rows, g, c, x) == vals.contains(x) by {
        lemma_given(ops, rows, g, c, x);
    }
    if g[c] == Value::Bool(true) {
        let x = choose|x: Value| #[trigger] vals.contains(x) && x != Value::Bool(false);
        assert(x == Value::Bool(true));
    }
}

/// Whether values are byte strings of one length, which is not zero.
pub open spec fn even_bytes(vals: Seq<Value>, n: nat) -> bool {
    n > 0 && vals.len() > 0 && forall|j: int|
        0 <= j < vals.len() ==> (#[trigger] vals[j] matches Value::Bytes(b) && b.len() == n)
}

/// The bits that a mask shows of a byte of a byte string.
pub open spec fn bits(v: Value, i: int, mask: u8) -> u8 {
    v->Bytes_0[i] & mask
}

proof fn lemma_bits(op: AggOp, customs: Seq<CustomV>, vals: Seq<Value>, v: Value, n: nat)
    requires
        op == AggOp::BitAnd || op == AggOp::BitOr,
        folded(op, customs, vals) == Ok::<Value, Fault>(v),
        even_bytes(vals, n),
    ensures
        v matches Value::Bytes(b) && b.len() == n,
        op == AggOp::BitAnd ==> forall|i: int, m: u8|
            0 <= i < n ==> (#[trigger] bits(v, i, m) == m <==> forall|j: int|
                0 <= j < vals.len() ==> bits(#[trigger] vals[j], i, m) == m),
        op == AggOp::BitOr ==> forall|i: int, m: u8|
            0 <= i < n ==> (#[trigger] bits(v, i, m) == 0 <==> forall|j: int|
                0 <= j < vals.len() ==> bits(#[trigger] vals[j], i, m) == 0),
    decreases vals.len(),
{
    reveal(step_of);
    let less = vals.drop_last();
    let last = vals.last();
    assert(vals[vals.len() - 1] == last);
    let acc = folded(op, customs, less)->Ok_0;
    if less.len() == 0 {
        assert(acc == Value::Bytes(Seq::empty()));
        assert(v == last);
    } else {
        assert forall|j: int| 0 <= j < less.len() implies (#[trigger] less[j] matches Value::Bytes(
            b,
        ) && b.len() == n) by {
            assert(less[j] == vals[j]);
        }
        lemma_bits(op, customs, less, acc, n);
        assert forall|i: int, m: u8| 0 <= i < n implies (op == AggOp::BitAnd ==> (#[trigger] bits(
            v,
            i,
            m,
        ) == m <==> bits(acc, i, m) == m && bits(last, i, m) == m)) && (op == AggOp::BitOr ==> (
        bits(v, i, m) == 0 <==> bits(acc, i, m) == 0 && bits(last, i, m) == 0)) by {
            let a = acc->Bytes_0[i];
            let b = last->Bytes_0[i];
            assert(((a & b) & m) == m <==> (a & m) == m && (b & m) == m) by (bit_vector);
            assert(((a | b) & m) == 0 <==> (a & m) == 0 && (b & m) == 0) by (bit_vector);
        }
        assert forall|i: int, m: u8| 0 <= i < n && op == AggOp::BitAnd implies (#[trigger] bits(
            v,
            i,
            m,
        ) == m <==> forall|j: int| 0 <= j < vals.len() ==> bits(#[trigger] vals[j], i, m) == m) by {
            assert forall|j: int| 0 <= j < less.len() implies less[j] == #[trigger] vals[j] by {}
            if bits(v, i, m) == m {
                assert forall|j: int| 0 <= j < vals.len() implies bits(#[trigger] vals[j], i, m)
                    == m by {
                    if j < less.len() {
                        assert(bits(less[j], i, m) == m);
                    }
                }
            } else if forall|j: int| 0 <= j < vals.len() ==> bits(#[trigger] vals[j], i, m) == m {
                assert forall|j: int| 0 <= j < less.len() implies bits(#[trigger] less[j], i, m)
                    == m by {
                    assert(bits(vals[j], i, m) == m);
                }
                assert(bits(vals[vals.len() - 1], i, m) == m);
            }
        }
        assert forall|i: int, m: u8| 0 <= i < n && op == AggOp::BitOr implies (#[trigger] bits(
            v,
            i,
            m,
        ) == 0 <==> forall|j: int| 0 <= j < vals.len() ==> bits(#[trigger] vals[j], i, m) == 0) by {
            if bits(v, i, m) == 0 {
                assert forall|j: int| 0 <= j < vals.len() implies bits(#[trigger] vals[j], i, m)
                    == 0 by {
                    if j < less.len() {
                        assert(bits(less[j], i, m) == 0);
                    }
                }
            } else if forall|j: int| 0 <= j < vals.len() ==> bits(#[trigger] vals[j], i, m) == 0 {
                assert forall|j: int| 0 <= j < less.len() implies bits(#[trigger] less[j], i, m)
                    == 0 by {
                    assert(bits(vals[j], i, m) == 0);
                }
                assert(bits(vals[vals.len() - 1], i, m) == 0);
            }
        }
    }
}

/// `bit_and` gives the bits that all byte strings of a group have.
pub proof fn law_bit_and_means_all(
    head: Seq<HeadItemV>,
    customs: Seq<CustomV>,
    ops: Seq<AggOp>,
    rows: Seq<Seq<Value>>,
    out: Seq<Seq<Value>>,
    g: Seq<Value>,
    c: int,
    n: nat,
)
    requires
        gathers(head, customs, ops, rows, out, g, c, "bit_and"@),
        even_bytes(column(ops, rows, g, c), n),
    ensures
        g[c] matches Value::Bytes(b) && b.len() == n,
        forall|i: int, m: u8|
            0 <= i < n ==> (#[trigger] bits(g[c], i, m) == m <==> forall|j: int|
                0 <= j < column(ops, rows, g, c).len() ==> bits(
                    #[trigger] column(ops, rows, g, c)[j],
                    i,
                    m,
                ) == m),
{
    lemma_builtins();
    lemma_gathered(head, customs, ops, rows, out, g, c, "bit_and"@, AggOp::BitAnd);
    lemma_bits(AggOp::BitAnd, customs, column(ops, rows, g, c), g[c], n);
}

/// `bit_or` gives the bits that some byte string of a group has.
pub proof fn law_bit_or_means_some(
    head: Seq<HeadItemV>,
    customs: Seq<CustomV>,
    ops: Seq<AggOp>,
    rows: Seq<Seq<Value>>,
    out: Seq<Seq<Value>>,
    g: Seq<Value>,
    c: int,
    n: nat,
)
    requires
        gathers(head, customs, ops, rows, out, g, c, "bit_or"@),
        even_bytes(column(ops, rows, g, c), n),
    ensures
        g[c] matches Value::Bytes(b) && b.len() == n,
        forall|i: int, m: u8|
            0 <= i < n ==> (#[trigger] bits(g[c], i, m) == 0 <==> forall|j: int|
                0 <= j < column(ops, rows, g, c).len() ==> bits(
                    #[trigger] column(ops, rows, g, c)[j],
                    i,
                    m,
                ) == 0),
{
    lemma_builtins();
    lemma_gathered(head, customs, ops, rows, out, g, c, "bit_or"@, AggOp::BitOr);
    lemma_bits(AggOp::BitOr, customs, column(ops, rows, g, c), g[c], n);
}

/// Whether a value is a pack: a list that ends in a number.
pub open spec fn is_pack(v: Value) -> bool {
    v matches Value::List(l) && l.len() >= 2 && (l.last() is Int || l.last() is Real)
}

/// The number at the end of a pack.
pub open spec fn price(v: Value) -> Value {
    v->List_0.last()
}

proof fn lemma_cheapest(customs: Seq<CustomV>, vals: Seq<Value>, v: Value)
    requires
        folded(AggOp::MinCost, customs, vals) == Ok::<Value, Fault>(v),
    ensures
        forall|x: Value| #[trigger] vals.contains(x) ==> x is Null || is_pack(x),
        v is Null ==> forall|x: Value| #[trigger] vals.contains(x) ==> x is Null,
        !(v is Null) ==> vals.contains(v),
        forall|x: Value| #[trigger]
            vals.contains(x) && !(x is Null) ==> !is_less(price(x), price(v)),
    decreases vals.len(),
{
    if vals.len() > 0 {
        reveal(step_of);
        let less = vals.drop_last();
        let last = vals.last();
        let acc = folded(AggOp::MinCost, customs, less)->Ok_0;
        lemma_cheapest(customs, less, acc);
        assert(vals =~= less.push(last));
        lemma_contains_push(less, last, v);
        if is_pack(last) && is_pack(acc) {
            law_numbers_by_worth(price(last), price(acc));
        }
        assert forall|x: Value| #[trigger] vals.contains(x) implies (x is Null || is_pack(x)) && (
        v is Null ==> x is Null) && (!(x is Null) ==> !is_less(price(x), price(v))) by {
            lemma_contains_push(less, last, x);
        }
    }
}

/// `min_cost` gives the cheapest pack: one of the group, and none of the group
/// costs less. It gives null where there is none.
pub proof fn law_min_cost_gives_the_cheapest(
    head: Seq<HeadItemV>,
    customs: Seq<CustomV>,
    ops: Seq<AggOp>,
    rows: Seq<Seq<Value>>,
    out: Seq<Seq<Value>>,
    g: Seq<Value>,
    c: int,
)
    requires
        gathers(head, customs, ops, rows, out, g, c, "min_cost"@),
    ensures
        forall|x: Value| #[trigger] given(ops, rows, g, c, x) ==> x is Null || is_pack(x),
        g[c] is Null ==> forall|x: Value| #[trigger] given(ops, rows, g, c, x) ==> x is Null,
        !(g[c] is Null) ==> given(ops, rows, g, c, g[c]),
        forall|x: Value| #[trigger]
            given(ops, rows, g, c, x) && !(x is Null) ==> !is_less(price(x), price(g[c])),
{
    let vals = column(ops, rows, g, c);
    lemma_builtins();
    lemma_gathered(head, customs, ops, rows, out, g, c, "min_cost"@, AggOp::MinCost);
    lemma_cheapest(customs, vals, g[c]);
    lemma_given(ops, rows, g, c, g[c]);
    assert forall|x: Value| #[trigger] given(ops, rows, g, c, x) implies vals.contains(x) by {
        lemma_given(ops, rows, g, c, x);
    }
}

/// The maximum of two values is one of them, and neither of them is greater; it
/// is told whether the first one gave way. Null stands for a value not yet known.
pub proof fn law_maxi_keeps_the_greater(left: Value, right: Value)
    ensures
        TestMaxi.update_view(left, right) matches Ok((v, changed)) && {
            &&& v == left || v == right
            &&& changed <==> v != left
            &&& order(v, left) != Sign::Less && order(v, right) != Sign::Less
            &&& left is Int && right is Int ==> !is_less(v, left) && !is_less(v, right)
        },
        TestMaxi.init_view() is Null,
{
    lemma_order_same(left, left);
    lemma_order_same(right, right);
    law_order_flips(left, right);
    if left is Int && right is Int {
        law_numbers_by_worth(left, right);
        law_numbers_by_worth(right, left);
    }
}

} // verus!
