//! The rules of a query derive what follows from them, and nothing else.
use vstd::prelude::*;

use crate::aggr::CustomV;
use crate::bind::{
    PlanV, TableV, clause_from, combined, filter_from, head_places_from, input_of, join_row_from,
    known_at, match_from, member_from, narrowed, plan_of, sought, sought_from, spread_from,
    table_from, terms_of, told_terms, unify_from, unit,
};
use crate::error::Fault;
use crate::eval::{
    MOST_MOVES, MOST_STEPS, bag_from, bounded_moved_from, clauses_from, fixed_rows, level_from,
    level_result, rows_named, rule_rows, settled, step_from, width_of, with_table,
};
use crate::expr::{Ctx, ExprV, Op, branched, eval_args_from, eval_of, place};
use crate::fold::{Shape, resolved_from, shape_of};
use crate::law_query::{law_join, law_negation, lemma_contains_push, lemma_join_row, unmatched};
use crate::order::{arranged, law_arranged_is_same};
use crate::query::{AtomV, BodyV, FieldV, FieldsV, HeadItemV, RuleV};
use crate::rules::raw_rows;
use crate::scan::{SourceV, all_picked, rel_rows};
use crate::search::{asked, found, search_from};
use crate::store::{RelationV, SearchV, columns_of, names_of, rel_place};
use crate::strata::{UnitV, content, law_strata, rule_content, strata_of, unit_from, units_from};
use crate::table::{law_sorted, sorted_of};
use crate::value::Value;

verus! {

/// Whether every row of the one list is in the other.
pub open spec fn among(a: Seq<Seq<Value>>, b: Seq<Seq<Value>>) -> bool {
    forall|x: Seq<Value>| #[trigger] a.contains(x) ==> b.contains(x)
}

/// Whether an expression has the same value however often it is computed.
pub open spec fn steady(e: ExprV) -> bool
    decreases e,
{
    match e {
        ExprV::Call(op, args) => op != Op::RandUuid && op != Op::RandVec && forall|i: int|
            0 <= i < args.len() ==> steady(#[trigger] args[i]),
        _ => true,
    }
}

proof fn lemma_steady(e: ExprV, cols: Seq<Seq<char>>, row: Seq<Value>, c: Ctx, d: Ctx)
    requires
        steady(e),
        c.now == d.now,
    ensures
        eval_of(e, cols, row, c) == eval_of(e, cols, row, d),
    decreases e, 0int,
{
    if let ExprV::Call(op, args) = e {
        lemma_steady_args(args, 0, cols, row, c, d, Seq::empty());
    }
}

proof fn lemma_steady_args(
    args: Seq<ExprV>,
    i: int,
    cols: Seq<Seq<char>>,
    row: Seq<Value>,
    c: Ctx,
    d: Ctx,
    acc: Seq<Value>,
)
    requires
        0 <= i,
        forall|k: int| 0 <= k < args.len() ==> steady(#[trigger] args[k]),
        c.now == d.now,
    ensures
        eval_args_from(args, i, cols, row, c, acc) == eval_args_from(args, i, cols, row, d, acc),
    decreases args, args.len() - i,
{
    if i < args.len() {
        lemma_steady(args[i], cols, row, branched(c, i), branched(d, i));
        if let Ok(v) = eval_of(args[i], cols, row, branched(c, i)) {
            lemma_steady_args(args, i + 1, cols, row, c, d, acc.push(v));
        }
    }
}

/// The row that a row becomes where a variable takes the value of an expression.
spec fn unified(
    cols: Seq<Seq<char>>,
    var: Seq<char>,
    e: ExprV,
    row: Seq<Value>,
    ctx: Ctx,
) -> Option<Seq<Value>> {
    match eval_of(e, cols, row, ctx) {
        Err(_) => None,
        Ok(v) => if var == "_"@ {
            Some(row)
        } else if place(cols, var) < cols.len() {
            if place(cols, var) < row.len() && row[place(cols, var)] == v {
                Some(row)
            } else {
                None
            }
        } else {
            Some(row.push(v))
        },
    }
}

proof fn lemma_unify(
    b: SourceV,
    var: Seq<char>,
    e: ExprV,
    i: int,
    ctx: Ctx,
    acc: Seq<Seq<Value>>,
)
    requires
        steady(e),
        0 <= i <= b.rows.len(),
    ensures
        unify_from(b, var, e, i, ctx, acc) matches Ok(out) ==> forall|x: Seq<Value>| #[trigger]
            out.contains(x) <==> acc.contains(x) || exists|n: int|
                i <= n < b.rows.len() && unified(b.cols, var, e, #[trigger] b.rows[n], ctx) == Some(
                    x,
                ),
    decreases b.rows.len() - i,
{
    if i < b.rows.len() {
        let row = b.rows[i];
        lemma_steady(e, b.cols, row, ctx, branched(ctx, i));
        if let Ok(v) = eval_of(e, b.cols, row, branched(ctx, i)) {
            let got = unified(b.cols, var, e, row, ctx);
            let next = match got {
                Some(r) => acc.push(r),
                None => acc,
            };
            lemma_unify(b, var, e, i + 1, ctx, next);
            if let Ok(out) = unify_from(b, var, e, i, ctx, acc) {
                assert forall|x: Seq<Value>| #[trigger]
                    out.contains(x) <==> acc.contains(x) || exists|n: int|
                        i <= n < b.rows.len() && unified(
                            b.cols,
                            var,
                            e,
                            #[trigger] b.rows[n],
                            ctx,
                        ) == Some(x) by {
                    if let Some(r) = got {
                        lemma_contains_push(acc, r, x);
                    }
                    if got == Some(x) {
                        assert(unified(b.cols, var, e, b.rows[i], ctx) == Some(x));
                    }
                }
            }
        }
    }
}

proof fn lemma_filter(b: SourceV, e: ExprV, i: int, ctx: Ctx, acc: Seq<Seq<Value>>)
    requires
        steady(e),
        0 <= i <= b.rows.len(),
    ensures
        filter_from(b, e, i, ctx, acc) matches Ok(out) ==> forall|x: Seq<Value>| #[trigger]
            out.contains(x) <==> acc.contains(x) || exists|n: int|
                i <= n < b.rows.len() && #[trigger] b.rows[n] == x && eval_of(e, b.cols, x, ctx)
                    == Ok::<Value, Fault>(Value::Bool(true)),
    decreases b.rows.len() - i,
{
    if i < b.rows.len() {
        let row = b.rows[i];
        lemma_steady(e, b.cols, row, ctx, branched(ctx, i));
        if let Ok(Value::Bool(t)) = eval_of(e, b.cols, row, branched(ctx, i)) {
            let next = if t {
                acc.push(row)
            } else {
                acc
            };
            lemma_filter(b, e, i + 1, ctx, next);
            if let Ok(out) = filter_from(b, e, i, ctx, acc) {
                assert forall|x: Seq<Value>| #[trigger]
                    out.contains(x) <==> acc.contains(x) || exists|n: int|
                        i <= n < b.rows.len() && #[trigger] b.rows[n] == x && eval_of(
                            e,
                            b.cols,
                            x,
                            ctx,
                        ) == Ok::<Value, Fault>(Value::Bool(true)) by {
                    lemma_contains_push(acc, row, x);
                    if t && x == row {
                        assert(b.rows[i] == x);
                    }
                }
            }
        }
    }
}

proof fn lemma_spread(
    row: Seq<Value>,
    at: Option<int>,
    blank: bool,
    l: Seq<Value>,
    j: int,
    acc: Seq<Seq<Value>>,
    x: Seq<Value>,
)
    requires
        0 <= j,
    ensures
        spread_from(row, at, blank, l, j, acc).contains(x) <==> acc.contains(x) || spread_from(
            row,
            at,
            blank,
            l,
            j,
            Seq::empty(),
        ).contains(x),
    decreases l.len() - j,
{
    let none = Seq::<Seq<Value>>::empty();
    assert(!none.contains(x));
    if j < l.len() {
        let r = if !blank && at is None {
            row.push(l[j])
        } else {
            row
        };
        lemma_spread(row, at, blank, l, j + 1, acc, x);
        lemma_spread(row, at, blank, l, j + 1, none, x);
        lemma_spread(row, at, blank, l, j + 1, acc.push(r), x);
        lemma_spread(row, at, blank, l, j + 1, none.push(r), x);
        lemma_contains_push(acc, r, x);
        lemma_contains_push(none, r, x);
    }
}

/// Whether a row comes of another where a variable takes each value of a list.
spec fn spread_gives(
    cols: Seq<Seq<char>>,
    var: Seq<char>,
    e: ExprV,
    row: Seq<Value>,
    ctx: Ctx,
    x: Seq<Value>,
) -> bool {
    eval_of(e, cols, row, ctx) matches Ok(Value::List(l)) && spread_from(
        row,
        known_at(cols, var),
        var == "_"@,
        l,
        0,
        Seq::empty(),
    ).contains(x)
}

proof fn lemma_member(
    b: SourceV,
    var: Seq<char>,
    e: ExprV,
    i: int,
    ctx: Ctx,
    acc: Seq<Seq<Value>>,
)
    requires
        steady(e),
        0 <= i <= b.rows.len(),
    ensures
        member_from(b, var, e, i, ctx, acc) matches Ok(out) ==> forall|x: Seq<Value>| #[trigger]
            out.contains(x) <==> acc.contains(x) || exists|n: int|
                i <= n < b.rows.len() && spread_gives(b.cols, var, e, #[trigger] b.rows[n], ctx, x),
    decreases b.rows.len() - i,
{
    if i < b.rows.len() {
        let row = b.rows[i];
        lemma_steady(e, b.cols, row, ctx, branched(ctx, i));
        if let Ok(Value::List(l)) = eval_of(e, b.cols, row, branched(ctx, i)) {
            let at = known_at(b.cols, var);
            let next = spread_from(row, at, var == "_"@, l, 0, acc);
            lemma_member(b, var, e, i + 1, ctx, next);
            if let Ok(out) = member_from(b, var, e, i, ctx, acc) {
                assert forall|x: Seq<Value>| #[trigger]
                    out.contains(x) <==> acc.contains(x) || exists|n: int|
                        i <= n < b.rows.len() && spread_gives(
                            b.cols,
                            var,
                            e,
                            #[trigger] b.rows[n],
                            ctx,
                            x,
                        ) by {
                    lemma_spread(row, at, var == "_"@, l, 0, acc, x);
                    if spread_gives(b.cols, var, e, row, ctx, x) {
                        assert(spread_gives(b.cols, var, e, b.rows[i], ctx, x));
                    }
                }
            }
        }
    }
}

/// The table of a name, where there is one.
pub open spec fn table_named(tables: Seq<TableV>, name: Seq<char>) -> Option<TableV> {
    let t = table_from(tables, name, 0);
    if t < tables.len() {
        Some(tables[t])
    } else {
        None
    }
}

/// Whether what has a name is complete before a level is evaluated.
pub open spec fn is_before(
    units: Seq<UnitV>,
    levels: Seq<u64>,
    level: u64,
    name: Seq<char>,
) -> bool {
    let h = unit_from(units, name, 0);
    h >= units.len() || h >= levels.len() || levels[h] < level
}

/// Whether a name is that of a unit of a level that aggregates nothing.
pub open spec fn is_plain(
    units: Seq<UnitV>,
    levels: Seq<u64>,
    level: u64,
    name: Seq<char>,
) -> bool {
    let h = unit_from(units, name, 0);
    h < units.len() && h < levels.len() && levels[h] == level && units[h].shape == Shape::Plain
}

/// Whether tables have what other tables have that is complete before a level,
/// and in the plain units of the level no row that those have not.
pub open spec fn within(
    units: Seq<UnitV>,
    levels: Seq<u64>,
    level: u64,
    a: Seq<TableV>,
    b: Seq<TableV>,
) -> bool {
    &&& forall|name: Seq<char>|
        is_before(units, levels, level, name) ==> #[trigger] table_named(a, name) == table_named(
            b,
            name,
        )
    &&& forall|name: Seq<char>|
        is_plain(units, levels, level, name) ==> among(
            #[trigger] rows_named(a, name),
            rows_named(b, name),
        )
}

/// Whether a condition computes nothing that differs from row to row by chance.
pub open spec fn steady_atom(a: AtomV) -> bool {
    match a {
        AtomV::Unify(_, e) => steady(e),
        AtomV::Member(_, e) => steady(e),
        AtomV::Filter(e) => steady(e),
        _ => true,
    }
}

/// Whether a condition reads no rule that a level can still take rows from.
spec fn reads_well(units: Seq<UnitV>, levels: Seq<u64>, level: u64, a: AtomV) -> bool {
    match a {
        AtomV::Rule(name, _, neg) => is_before(units, levels, level, name) || (!neg && is_plain(
            units,
            levels,
            level,
            name,
        )),
        _ => true,
    }
}

#[verifier::spinoff_prover]
#[verifier::rlimit(40)]
proof fn lemma_sought(
    s: SearchV,
    cols: Seq<Seq<char>>,
    nk: int,
    rows: Seq<Seq<Value>>,
    opts: Seq<FieldV>,
    p: PlanV,
    b: SourceV,
    i: int,
    ctx: Ctx,
    acc: Seq<Seq<Value>>,
)
    requires
        0 <= i <= b.rows.len(),
    ensures
        sought_from(s, cols, nk, rows, opts, p, b, i, ctx, acc) matches Ok(out) ==> forall|
            x: Seq<Value>,
        | #[trigger]
            out.contains(x) <==> acc.contains(x) || exists|n: int|
                i <= n < b.rows.len() && search_gives(
                    s,
                    cols,
                    nk,
                    rows,
                    opts,
                    p,
                    b.cols,
                    #[trigger] b.rows[n],
                    ctx,
                    x,
                ),
    decreases b.rows.len() - i,
{
    if i < b.rows.len() {
        let row = b.rows[i];
        if let Ok(a) = asked(opts, b.cols, row, ctx) {
            if let Ok(src) = found(s, cols, nk, rows, a, ctx) {
                lemma_join_row(p, row, src, 0, ctx, acc);
                if let Ok(next) = join_row_from(p, row, src, 0, ctx, acc) {
                    lemma_sought(s, cols, nk, rows, opts, p, b, i + 1, ctx, next);
                    if let Ok(out) = sought_from(s, cols, nk, rows, opts, p, b, i, ctx, acc) {
                        assert forall|x: Seq<Value>| #[trigger]
                            out.contains(x) <==> acc.contains(x) || exists|n: int|
                                i <= n < b.rows.len() && search_gives(
                                    s,
                                    cols,
                                    nk,
                                    rows,
                                    opts,
                                    p,
                                    b.cols,
                                    #[trigger] b.rows[n],
                                    ctx,
                                    x,
                                ) by {
                            assert(next.contains(x) <==> acc.contains(x) || search_gives(
                                s,
                                cols,
                                nk,
                                rows,
                                opts,
                                p,
                                b.cols,
                                b.rows[i],
                                ctx,
                                x,
                            ));
                        }
                    }
                }
            }
        }
    }
}

/// Whether a row comes of another with what an index finds for it.
spec fn search_gives(
    s: SearchV,
    cols: Seq<Seq<char>>,
    nk: int,
    rows: Seq<Seq<Value>>,
    opts: Seq<FieldV>,
    p: PlanV,
    names: Seq<Seq<char>>,
    row: Seq<Value>,
    ctx: Ctx,
    x: Seq<Value>,
) -> bool {
    match asked(opts, names, row, ctx) {
        Err(_) => false,
        Ok(a) => match found(s, cols, nk, rows, a, ctx) {
            Err(_) => false,
            Ok(src) => exists|m: int|
                0 <= m < src.len() && match_from(p, #[trigger] src[m], 0, row, ctx) == Ok::<
                    Option<Seq<Value>>,
                    Fault,
                >(Some(x)),
        },
    }
}

#[verifier::spinoff_prover]
#[verifier::rlimit(40)]
proof fn lemma_sought_grows(
    rels: Seq<RelationV>,
    a: SourceV,
    b: SourceV,
    base: Seq<char>,
    index: Seq<char>,
    fields: Seq<FieldV>,
    opts: Seq<FieldV>,
    ctx: Ctx,
)
    requires
        a.cols == b.cols,
        among(a.rows, b.rows),
    ensures
        sought(rels, a, base, index, fields, opts, ctx) matches Ok(x) ==> (sought(
            rels,
            b,
            base,
            index,
            fields,
            opts,
            ctx,
        ) matches Ok(y) ==> x.cols == y.cols && among(x.rows, y.rows)),
{
    if let Ok(x) = sought(rels, a, base, index, fields, opts, ctx) {
        if let Ok(y) = sought(rels, b, base, index, fields, opts, ctx) {
            let rel = rels[rel_place(rels, base)];
            let cols = names_of(columns_of(rel));
            let rows = rel_rows(rel, None, None, None)->Ok_0;
            let s = rel.searches[search_from(rel.searches, index, 0)];
            let terms = terms_of(FieldsV::Names(fields), cols)->Ok_0;
            let plan = plan_of(terms + told_terms(opts), a.cols);
            let nk = rel.keys.len() as int;
            lemma_sought(s, cols, nk, rows, opts, plan, a, 0, ctx, Seq::empty());
            lemma_sought(s, cols, nk, rows, opts, plan, b, 0, ctx, Seq::empty());
            assert forall|r: Seq<Value>| #[trigger] x.rows.contains(r) implies y.rows.contains(
                r,
            ) by {
                assert(!Seq::<Seq<Value>>::empty().contains(r));
                let n = choose|n: int|
                    0 <= n < a.rows.len() && search_gives(
                        s,
                        cols,
                        nk,
                        rows,
                        opts,
                        plan,
                        a.cols,
                        #[trigger] a.rows[n],
                        ctx,
                        r,
                    );
                assert(a.rows.contains(a.rows[n]));
                let m = choose|m: int| 0 <= m < b.rows.len() && b.rows[m] == a.rows[n];
                assert(search_gives(s, cols, nk, rows, opts, plan, b.cols, b.rows[m], ctx, r));
            }
        }
    }
}

proof fn lemma_combined_grows(
    a: SourceV,
    b: SourceV,
    terms: Seq<ExprV>,
    x: Seq<Seq<Value>>,
    y: Seq<Seq<Value>>,
    neg: bool,
    ctx: Ctx,
)
    requires
        a.cols == b.cols,
        among(a.rows, b.rows),
        if neg {
            x == y
        } else {
            among(x, y)
        },
    ensures
        combined(a, terms, x, neg, ctx) matches Ok(p) ==> (combined(
            b,
            terms,
            y,
            neg,
            ctx,
        ) matches Ok(q) ==> p.cols == q.cols && among(p.rows, q.rows)),
{
    let plan = plan_of(terms, a.cols);
    if let Ok(p) = combined(a, terms, x, neg, ctx) {
        if let Ok(q) = combined(b, terms, y, neg, ctx) {
            if neg {
                law_negation(plan, a.rows, x, ctx, p.rows);
                law_negation(plan, b.rows, y, ctx, q.rows);
                assert forall|r: Seq<Value>| #[trigger] p.rows.contains(r) implies q.rows.contains(
                    r,
                ) by {
                    let n = choose|n: int|
                        0 <= n < a.rows.len() && #[trigger] a.rows[n] == r && unmatched(
                            plan,
                            r,
                            x,
                            ctx,
                        );
                    assert(a.rows.contains(a.rows[n]));
                    let m = choose|m: int| 0 <= m < b.rows.len() && b.rows[m] == a.rows[n];
                    assert(b.rows[m] == r && unmatched(plan, r, y, ctx));
                }
            } else {
                law_join(plan, a.rows, x, ctx, p.rows);
                law_join(plan, b.rows, y, ctx, q.rows);
                assert forall|r: Seq<Value>| #[trigger] p.rows.contains(r) implies q.rows.contains(
                    r,
                ) by {
                    let (n, m) = choose|n: int, m: int|
                        0 <= n < a.rows.len() && 0 <= m < x.len() && match_from(
                            plan,
                            #[trigger] x[m],
                            0,
                            #[trigger] a.rows[n],
                            ctx,
                        ) == Ok::<Option<Seq<Value>>, Fault>(Some(r));
                    assert(a.rows.contains(a.rows[n]));
                    assert(x.contains(x[m]));
                    let k = choose|k: int| 0 <= k < b.rows.len() && b.rows[k] == a.rows[n];
                    let l = choose|l: int| 0 <= l < y.len() && y[l] == x[m];
                    assert(match_from(plan, y[l], 0, b.rows[k], ctx) == Ok::<
                        Option<Seq<Value>>,
                        Fault,
                    >(Some(r)));
                }
            }
        }
    }
}

#[verifier::spinoff_prover]
#[verifier::rlimit(40)]
proof fn lemma_narrowed_grows(
    units: Seq<UnitV>,
    levels: Seq<u64>,
    level: u64,
    rels: Seq<RelationV>,
    t: Seq<TableV>,
    s: Seq<TableV>,
    as_of: Option<i64>,
    a: SourceV,
    b: SourceV,
    atom: AtomV,
    ctx: Ctx,
)
    requires
        within(units, levels, level, t, s),
        steady_atom(atom),
        reads_well(units, levels, level, atom),
        a.cols == b.cols,
        among(a.rows, b.rows),
    ensures
        narrowed(rels, t, as_of, a, atom, ctx) matches Ok(p) ==> (narrowed(
            rels,
            s,
            as_of,
            b,
            atom,
            ctx,
        ) matches Ok(q) ==> p.cols == q.cols && among(p.rows, q.rows)),
{
    if let Ok(p) = narrowed(rels, t, as_of, a, atom, ctx) {
        if let Ok(q) = narrowed(rels, s, as_of, b, atom, ctx) {
            match atom {
                AtomV::Unify(var, e) => {
                    lemma_unify(a, var, e, 0, ctx, Seq::empty());
                    lemma_unify(b, var, e, 0, ctx, Seq::empty());
                    assert forall|r: Seq<Value>| #[trigger]
                        p.rows.contains(r) implies q.rows.contains(r) by {
                        assert(!Seq::<Seq<Value>>::empty().contains(r));
                        let n = choose|n: int|
                            0 <= n < a.rows.len() && unified(
                                a.cols,
                                var,
                                e,
                                #[trigger] a.rows[n],
                                ctx,
                            ) == Some(r);
                        assert(a.rows.contains(a.rows[n]));
                        let m = choose|m: int| 0 <= m < b.rows.len() && b.rows[m] == a.rows[n];
                        assert(unified(b.cols, var, e, b.rows[m], ctx) == Some(r));
                    }
                },
                AtomV::Member(var, e) => {
                    lemma_member(a, var, e, 0, ctx, Seq::empty());
                    lemma_member(b, var, e, 0, ctx, Seq::empty());
                    assert forall|r: Seq<Value>| #[trigger]
                        p.rows.contains(r) implies q.rows.contains(r) by {
                        assert(!Seq::<Seq<Value>>::empty().contains(r));
                        let n = choose|n: int|
                            0 <= n < a.rows.len() && spread_gives(
                                a.cols,
                                var,
                                e,
                                #[trigger] a.rows[n],
                                ctx,
                                r,
                            );
                        assert(a.rows.contains(a.rows[n]));
                        let m = choose|m: int| 0 <= m < b.rows.len() && b.rows[m] == a.rows[n];
                        assert(spread_gives(b.cols, var, e, b.rows[m], ctx, r));
                    }
                },
                AtomV::Filter(e) => {
                    lemma_filter(a, e, 0, ctx, Seq::empty());
                    lemma_filter(b, e, 0, ctx, Seq::empty());
                    assert forall|r: Seq<Value>| #[trigger]
                        p.rows.contains(r) implies q.rows.contains(r) by {
                        assert(!Seq::<Seq<Value>>::empty().contains(r));
                        let n = choose|n: int|
                            0 <= n < a.rows.len() && #[trigger] a.rows[n] == r && eval_of(
                                e,
                                a.cols,
                                r,
                                ctx,
                            ) == Ok::<Value, Fault>(Value::Bool(true));
                        assert(a.rows.contains(a.rows[n]));
                        let m = choose|m: int| 0 <= m < b.rows.len() && b.rows[m] == a.rows[n];
                        assert(b.rows[m] == r);
                    }
                },
                AtomV::Search(base, index, fields, opts) => {
                    lemma_sought_grows(rels, a, b, base, index, fields, opts, ctx);
                },
                AtomV::Stored(_, _, _, neg) => {
                    let (terms, x) = input_of(rels, t, as_of, atom, ctx)->Ok_0;
                    lemma_combined_grows(a, b, terms, x, x, neg, ctx);
                },
                AtomV::Rule(name, terms, neg) => {
                    let x = rows_named(t, name);
                    let y = rows_named(s, name);
                    if is_before(units, levels, level, name) {
                        assert(table_named(t, name) == table_named(s, name));
                    }
                    lemma_combined_grows(a, b, terms, x, y, neg, ctx);
                },
            }
        }
    }
}

proof fn lemma_clause_grows(
    units: Seq<UnitV>,
    levels: Seq<u64>,
    level: u64,
    rels: Seq<RelationV>,
    t: Seq<TableV>,
    s: Seq<TableV>,
    as_of: Option<i64>,
    atoms: Seq<AtomV>,
    i: int,
    a: SourceV,
    b: SourceV,
    ctx: Ctx,
)
    requires
        0 <= i,
        within(units, levels, level, t, s),
        forall|k: int|
            0 <= k < atoms.len() ==> steady_atom(#[trigger] atoms[k]) && reads_well(
                units,
                levels,
                level,
                atoms[k],
            ),
        a.cols == b.cols,
        among(a.rows, b.rows),
    ensures
        clause_from(rels, t, as_of, atoms, i, a, ctx) matches Ok(p) ==> (clause_from(
            rels,
            s,
            as_of,
            atoms,
            i,
            b,
            ctx,
        ) matches Ok(q) ==> p.cols == q.cols && among(p.rows, q.rows)),
    decreases atoms.len() - i,
{
    if i < atoms.len() {
        let c = branched(ctx, i);
        lemma_narrowed_grows(units, levels, level, rels, t, s, as_of, a, b, atoms[i], c);
        if let Ok(x) = narrowed(rels, t, as_of, a, atoms[i], c) {
            if let Ok(y) = narrowed(rels, s, as_of, b, atoms[i], c) {
                lemma_clause_grows(
                    units,
                    levels,
                    level,
                    rels,
                    t,
                    s,
                    as_of,
                    atoms,
                    i + 1,
                    x,
                    y,
                    ctx,
                );
            }
        }
    }
}

/// Whether a rule computes nothing that differs from row to row by chance.
pub open spec fn steady_rule(r: RuleV) -> bool {
    match r.body {
        BodyV::Clauses(cs) => forall|i: int, j: int|
            0 <= i < cs.len() && 0 <= j < cs[i].len() ==> steady_atom(#[trigger] cs[i][j]),
        _ => true,
    }
}

proof fn lemma_unit_place(units: Seq<UnitV>, name: Seq<char>, i: int)
    requires
        0 <= i <= units.len(),
    ensures
        i <= unit_from(units, name, i) <= units.len(),
        unit_from(units, name, i) < units.len() ==> units[unit_from(units, name, i)].name == name,
        forall|k: int|
            i <= k < unit_from(units, name, i) && k < units.len() ==> (#[trigger] units[k]).name
                != name,
    decreases units.len() - i,
{
    if i < units.len() && units[i].name != name {
        lemma_unit_place(units, name, i + 1);
    }
}

/// Whether no two units have the same name.
spec fn distinct(units: Seq<UnitV>) -> bool {
    forall|i: int, j: int|
        0 <= i < j < units.len() ==> (#[trigger] units[i]).name != (#[trigger] units[j]).name
}

proof fn lemma_units_distinct(
    rules: Seq<RuleV>,
    customs: Seq<CustomV>,
    i: int,
    acc: Seq<UnitV>,
)
    requires
        0 <= i,
        distinct(acc),
    ensures
        units_from(rules, customs, i, acc) matches Ok(units) ==> distinct(units),
    decreases rules.len() - i,
{
    if i < rules.len() {
        if let Ok(ops) = resolved_from(rules[i].head, customs, 0, Seq::empty()) {
            lemma_unit_place(acc, rules[i].name, 0);
            if unit_from(acc, rules[i].name, 0) < acc.len() {
                lemma_units_distinct(rules, customs, i + 1, acc);
            } else if let Ok(shape) = shape_of(ops, customs) {
                let more = acc.push(UnitV { name: rules[i].name, ops, shape });
                assert(distinct(more));
                lemma_units_distinct(rules, customs, i + 1, more);
            }
        }
    }
}

proof fn lemma_atom_reads(units: Seq<UnitV>, levels: Seq<u64>, h: int, a: AtomV, whole: bool)
    requires
        0 <= h < units.len(),
        h < levels.len(),
        units[h].shape == Shape::Plain,
        content(units, levels, h, a, whole),
    ensures
        reads_well(units, levels, levels[h], a),
        whole ==> (a matches AtomV::Rule(name, _, _) ==> is_before(units, levels, levels[h], name)),
{
    if let AtomV::Rule(name, _, _) = a {
        lemma_unit_place(units, name, 0);
    }
}

proof fn lemma_arranged(atoms: Seq<AtomV>, k: int)
    requires
        0 <= k < arranged(atoms).len(),
    ensures
        atoms.contains(arranged(atoms)[k]),
{
    broadcast use vstd::seq_lib::group_to_multiset_ensures;

    let none = Seq::<AtomV>::empty();
    law_arranged_is_same(atoms, Seq::empty(), none);
    assert(none.to_multiset() =~= vstd::multiset::Multiset::<AtomV>::empty());
    let x = arranged(atoms)[k];
    assert(arranged(atoms).contains(x));
    assert(arranged(atoms).to_multiset().count(x) > 0);
    assert(atoms.to_multiset().count(x) > 0);
}

proof fn lemma_among_sum(
    a: Seq<Seq<Value>>,
    b: Seq<Seq<Value>>,
    c: Seq<Seq<Value>>,
    d: Seq<Seq<Value>>,
)
    requires
        among(a, c),
        among(b, d),
    ensures
        among(a + b, c + d),
{
    assert forall|x: Seq<Value>| #[trigger] (a + b).contains(x) implies (c + d).contains(x) by {
        let k = choose|k: int| 0 <= k < (a + b).len() && (a + b)[k] == x;
        if k < a.len() {
            assert(a[k] == x);
            assert(a.contains(x));
            let m = choose|m: int| 0 <= m < c.len() && c[m] == x;
            assert((c + d)[m] == x);
        } else {
            assert(b[k - a.len()] == x);
            assert(b.contains(x));
            let m = choose|m: int| 0 <= m < d.len() && d[m] == x;
            assert((c + d)[m + c.len()] == x);
        }
    }
}

proof fn lemma_picked_grows(a: Seq<Seq<Value>>, b: Seq<Seq<Value>>, ps: Seq<usize>)
    requires
        among(a, b),
    ensures
        among(all_picked(a, ps), all_picked(b, ps)),
{
    let x = all_picked(a, ps);
    let y = all_picked(b, ps);
    assert forall|r: Seq<Value>| #[trigger] x.contains(r) implies y.contains(r) by {
        let k = choose|k: int| 0 <= k < x.len() && x[k] == r;
        assert(a.contains(a[k]));
        let m = choose|m: int| 0 <= m < b.len() && b[m] == a[k];
        assert(y[m] == r);
    }
}

proof fn lemma_clauses_grow(
    units: Seq<UnitV>,
    levels: Seq<u64>,
    level: u64,
    rels: Seq<RelationV>,
    t: Seq<TableV>,
    s: Seq<TableV>,
    as_of: Option<i64>,
    head: Seq<HeadItemV>,
    cs: Seq<Seq<AtomV>>,
    i: int,
    ctx: Ctx,
    a: Seq<Seq<Value>>,
    b: Seq<Seq<Value>>,
)
    requires
        0 <= i,
        within(units, levels, level, t, s),
        forall|k: int, j: int|
            0 <= k < cs.len() && 0 <= j < cs[k].len() ==> steady_atom(#[trigger] cs[k][j])
                && reads_well(units, levels, level, cs[k][j]),
        among(a, b),
    ensures
        clauses_from(rels, t, as_of, head, cs, i, ctx, a) matches Ok(p) ==> (clauses_from(
            rels,
            s,
            as_of,
            head,
            cs,
            i,
            ctx,
            b,
        ) matches Ok(q) ==> among(p, q)),
    decreases cs.len() - i,
{
    if i < cs.len() {
        let atoms = arranged(cs[i]);
        let c = branched(ctx, i);
        assert forall|k: int| 0 <= k < atoms.len() implies steady_atom(#[trigger] atoms[k])
            && reads_well(units, levels, level, atoms[k]) by {
            lemma_arranged(cs[i], k);
            let j = choose|j: int| 0 <= j < cs[i].len() && cs[i][j] == atoms[k];
            assert(steady_atom(cs[i][j]));
        }
        lemma_clause_grows(
            units,
            levels,
            level,
            rels,
            t,
            s,
            as_of,
            atoms,
            0,
            unit(),
            unit(),
            c,
        );
        if let Ok(x) = clause_from(rels, t, as_of, atoms, 0, unit(), c) {
            if let Ok(y) = clause_from(rels, s, as_of, atoms, 0, unit(), c) {
                if let Ok(ps) = head_places_from(head, x.cols, 0, Seq::empty()) {
                    lemma_picked_grows(x.rows, y.rows, ps);
                    let u = all_picked(x.rows, ps);
                    let v = all_picked(y.rows, ps);
                    lemma_among_sum(a, u, b, v);
                    lemma_clauses_grow(
                        units,
                        levels,
                        level,
                        rels,
                        t,
                        s,
                        as_of,
                        head,
                        cs,
                        i + 1,
                        ctx,
                        a + u,
                        b + v,
                    );
                }
            }
        }
    }
}

proof fn lemma_input_same(
    units: Seq<UnitV>,
    levels: Seq<u64>,
    level: u64,
    rels: Seq<RelationV>,
    t: Seq<TableV>,
    s: Seq<TableV>,
    as_of: Option<i64>,
    a: AtomV,
    ctx: Ctx,
)
    requires
        within(units, levels, level, t, s),
        a matches AtomV::Rule(name, _, _) ==> is_before(units, levels, level, name),
    ensures
        input_of(rels, t, as_of, a, ctx) == input_of(rels, s, as_of, a, ctx),
        raw_rows(rels, t, as_of, a, ctx) == raw_rows(rels, s, as_of, a, ctx),
{
    if let AtomV::Rule(name, _, _) = a {
        assert(table_named(t, name) == table_named(s, name));
    }
}

pub(crate) proof fn lemma_one_arranged(atoms: Seq<AtomV>)
    requires
        atoms.len() == 1,
    ensures
        arranged(atoms).len() == 1,
        arranged(atoms)[0] == atoms[0],
{
    broadcast use vstd::seq_lib::group_to_multiset_ensures;

    let none = Seq::<AtomV>::empty();
    law_arranged_is_same(atoms, Seq::empty(), none);
    assert(atoms.to_multiset().add(none.to_multiset()) =~= atoms.to_multiset());
    assert(arranged(atoms).to_multiset().len() == arranged(atoms).len());
    lemma_arranged(atoms, 0);
}

proof fn lemma_clause_same(
    units: Seq<UnitV>,
    levels: Seq<u64>,
    level: u64,
    rels: Seq<RelationV>,
    t: Seq<TableV>,
    s: Seq<TableV>,
    as_of: Option<i64>,
    atoms: Seq<AtomV>,
    ctx: Ctx,
)
    requires
        within(units, levels, level, t, s),
        atoms.len() == 1,
        atoms[0] matches AtomV::Rule(name, _, _) ==> is_before(units, levels, level, name),
    ensures
        clause_from(rels, t, as_of, atoms, 0, unit(), ctx) == clause_from(
            rels,
            s,
            as_of,
            atoms,
            0,
            unit(),
            ctx,
        ),
{
    let c = branched(ctx, 0);
    lemma_input_same(units, levels, level, rels, t, s, as_of, atoms[0], c);
    let x = narrowed(rels, t, as_of, unit(), atoms[0], c);
    assert(x == narrowed(rels, s, as_of, unit(), atoms[0], c));
    if let Ok(b) = x {
        assert(clause_from(rels, t, as_of, atoms, 1, b, ctx) == Ok::<SourceV, Fault>(b));
        assert(clause_from(rels, s, as_of, atoms, 1, b, ctx) == Ok::<SourceV, Fault>(b));
    }
}

#[verifier::spinoff_prover]
#[verifier::rlimit(40)]
proof fn lemma_fixed_same(
    units: Seq<UnitV>,
    levels: Seq<u64>,
    level: u64,
    rels: Seq<RelationV>,
    t: Seq<TableV>,
    s: Seq<TableV>,
    as_of: Option<i64>,
    name: Seq<char>,
    inputs: Seq<AtomV>,
    opts: Seq<FieldV>,
    customs: Seq<CustomV>,
    n: int,
    ctx: Ctx,
)
    requires
        within(units, levels, level, t, s),
        forall|j: int|
            0 <= j < inputs.len() ==> (#[trigger] inputs[j] matches AtomV::Rule(
                name,
                _,
                _,
            ) ==> is_before(units, levels, level, name)),
    ensures
        fixed_rows(rels, t, as_of, name, inputs, opts, customs, n, ctx) == fixed_rows(
            rels,
            s,
            as_of,
            name,
            inputs,
            opts,
            customs,
            n,
            ctx,
        ),
{
    if inputs.len() == 1 {
        let a = inputs[0];
        let atoms = arranged(inputs);
        lemma_input_same(units, levels, level, rels, t, s, as_of, a, ctx);
        lemma_one_arranged(inputs);
        lemma_clause_same(units, levels, level, rels, t, s, as_of, atoms, ctx);
    }
}

#[verifier::spinoff_prover]
#[verifier::rlimit(40)]
proof fn lemma_bag_grows(
    units: Seq<UnitV>,
    levels: Seq<u64>,
    level: u64,
    rels: Seq<RelationV>,
    t: Seq<TableV>,
    s: Seq<TableV>,
    as_of: Option<i64>,
    rules: Seq<RuleV>,
    name: Seq<char>,
    customs: Seq<CustomV>,
    i: int,
    ctx: Ctx,
    a: Seq<Seq<Value>>,
    b: Seq<Seq<Value>>,
)
    requires
        0 <= i,
        within(units, levels, level, t, s),
        is_plain(units, levels, level, name),
        forall|k: int|
            0 <= k < rules.len() ==> rule_content(units, levels, #[trigger] rules[k])
                && steady_rule(rules[k]),
        among(a, b),
    ensures
        bag_from(rels, t, as_of, rules, name, customs, i, ctx, a) matches Ok(p) ==> (bag_from(
            rels,
            s,
            as_of,
            rules,
            name,
            customs,
            i,
            ctx,
            b,
        ) matches Ok(q) ==> among(p, q)),
    decreases rules.len() - i,
{
    if i < rules.len() {
        let r = rules[i];
        let c = branched(ctx, i);
        if r.name != name {
            lemma_bag_grows(
                units,
                levels,
                level,
                rels,
                t,
                s,
                as_of,
                rules,
                name,
                customs,
                i + 1,
                ctx,
                a,
                b,
            );
        } else if let Ok(x) = rule_rows(rels, t, as_of, r, customs, c) {
            if let Ok(y) = rule_rows(rels, s, as_of, r, customs, c) {
                let h = unit_from(units, name, 0);
                lemma_unit_place(units, name, 0);
                assert(rule_content(units, levels, rules[i]) && steady_rule(rules[i]));
                match r.body {
                    BodyV::Clauses(cs) => {
                        assert forall|k: int, j: int|
                            0 <= k < cs.len() && 0 <= j < cs[k].len() implies steady_atom(
                            #[trigger] cs[k][j],
                        ) && reads_well(units, levels, level, cs[k][j]) by {
                            lemma_atom_reads(units, levels, h, cs[k][j], false);
                        }
                        let none = Seq::<Seq<Value>>::empty();
                        lemma_clauses_grow(
                            units,
                            levels,
                            level,
                            rels,
                            t,
                            s,
                            as_of,
                            r.head,
                            cs,
                            0,
                            c,
                            none,
                            none,
                        );
                    },
                    BodyV::Rows(_) => {},
                    BodyV::Fixed(f, inputs, opts) => {
                        assert forall|j: int| 0 <= j < inputs.len() implies (
                        #[trigger] inputs[j] matches AtomV::Rule(name, _, _) ==> is_before(
                            units,
                            levels,
                            level,
                            name,
                        )) by {
                            lemma_atom_reads(units, levels, h, inputs[j], true);
                        }
                        let n = r.head.len() as int;
                        lemma_fixed_same(
                            units,
                            levels,
                            level,
                            rels,
                            t,
                            s,
                            as_of,
                            f,
                            inputs,
                            opts,
                            customs,
                            n,
                            c,
                        );
                    },
                }
                lemma_among_sum(a, x, b, y);
                lemma_bag_grows(
                    units,
                    levels,
                    level,
                    rels,
                    t,
                    s,
                    as_of,
                    rules,
                    name,
                    customs,
                    i + 1,
                    ctx,
                    a + x,
                    b + y,
                );
            }
        }
    }
}

proof fn lemma_table_place(tables: Seq<TableV>, name: Seq<char>, i: int)
    requires
        0 <= i <= tables.len(),
    ensures
        i <= table_from(tables, name, i) <= tables.len(),
        table_from(tables, name, i) < tables.len() ==> tables[table_from(tables, name, i)].name
            == name,
    decreases tables.len() - i,
{
    if i < tables.len() && tables[i].name != name {
        lemma_table_place(tables, name, i + 1);
    }
}

proof fn lemma_same_names(a: Seq<TableV>, b: Seq<TableV>, name: Seq<char>, i: int)
    requires
        0 <= i,
        a.len() == b.len(),
        forall|k: int| 0 <= k < a.len() ==> (#[trigger] a[k]).name == (#[trigger] b[k]).name,
    ensures
        table_from(a, name, i) == table_from(b, name, i),
    decreases a.len() - i,
{
    if i < a.len() && a[i].name != name {
        lemma_same_names(a, b, name, i + 1);
    }
}

proof fn lemma_with_table(
    tables: Seq<TableV>,
    u: UnitV,
    rows: Seq<Seq<Value>>,
    name: Seq<char>,
)
    ensures
        table_named(with_table(tables, u, rows), name) == if name == u.name && table_named(
            tables,
            name,
        ) is Some {
            Some(TableV { name, arity: width_of(u, rows), rows })
        } else {
            table_named(tables, name)
        },
{
    let next = with_table(tables, u, rows);
    let t = table_from(tables, u.name, 0);
    lemma_table_place(tables, u.name, 0);
    lemma_table_place(tables, name, 0);
    if t < tables.len() {
        lemma_same_names(tables, next, name, 0);
    }
}

/// What a step makes of the table of a name.
#[verifier::spinoff_prover]
#[verifier::rlimit(40)]
proof fn lemma_step(
    rels: Seq<RelationV>,
    old: Seq<TableV>,
    as_of: Option<i64>,
    rules: Seq<RuleV>,
    units: Seq<UnitV>,
    levels: Seq<u64>,
    level: u64,
    customs: Seq<CustomV>,
    i: int,
    ctx: Ctx,
    acc: Seq<TableV>,
    name: Seq<char>,
)
    requires
        0 <= i,
        distinct(units),
    ensures
        step_from(
            rels,
            old,
            as_of,
            rules,
            units,
            levels,
            level,
            customs,
            i,
            ctx,
            acc,
        ) matches Ok(next) ==> {
            let h = unit_from(units, name, 0);
            if i <= h < units.len() && h < levels.len() && levels[h] == level && table_named(
                acc,
                name,
            ) is Some {
                &&& bag_from(
                    rels,
                    old,
                    as_of,
                    rules,
                    name,
                    customs,
                    0,
                    ctx,
                    Seq::empty(),
                ) matches Ok(new)
                &&& settled(units[h], customs, rows_named(old, name), new) matches Ok(rows)
                &&& table_named(next, name) is Some
                &&& table_named(next, name)->0.rows == rows
            } else {
                table_named(next, name) == table_named(acc, name)
            }
        },
    decreases units.len() - i,
{
    if i < units.len() {
        lemma_unit_place(units, name, 0);
        let none = Seq::<Seq<Value>>::empty();
        if i >= levels.len() || levels[i] != level {
            lemma_step(
                rels,
                old,
                as_of,
                rules,
                units,
                levels,
                level,
                customs,
                i + 1,
                ctx,
                acc,
                name,
            );
        } else if let Ok(new) = bag_from(
            rels,
            old,
            as_of,
            rules,
            units[i].name,
            customs,
            0,
            ctx,
            none,
        ) {
            if let Ok(rows) = settled(units[i], customs, rows_named(old, units[i].name), new) {
                lemma_with_table(acc, units[i], rows, name);
                lemma_step(
                    rels,
                    old,
                    as_of,
                    rules,
                    units,
                    levels,
                    level,
                    customs,
                    i + 1,
                    ctx,
                    with_table(acc, units[i], rows),
                    name,
                );
            }
        }
    }
}

/// Whether tables hold what the rules of the plain units of a level derive from
/// them.
pub open spec fn is_model(
    rels: Seq<RelationV>,
    s: Seq<TableV>,
    as_of: Option<i64>,
    rules: Seq<RuleV>,
    units: Seq<UnitV>,
    levels: Seq<u64>,
    level: u64,
    customs: Seq<CustomV>,
    ctx: Ctx,
) -> bool {
    forall|name: Seq<char>|
        is_plain(units, levels, level, name) ==> (bag_from(
            rels,
            s,
            as_of,
            rules,
            name,
            customs,
            0,
            ctx,
            Seq::empty(),
        ) matches Ok(rows) && among(rows, #[trigger] rows_named(s, name)))
}

proof fn lemma_step_within(
    rels: Seq<RelationV>,
    t: Seq<TableV>,
    s: Seq<TableV>,
    as_of: Option<i64>,
    rules: Seq<RuleV>,
    units: Seq<UnitV>,
    levels: Seq<u64>,
    level: u64,
    customs: Seq<CustomV>,
    ctx: Ctx,
    next: Seq<TableV>,
)
    requires
        distinct(units),
        forall|k: int|
            0 <= k < rules.len() ==> rule_content(units, levels, #[trigger] rules[k])
                && steady_rule(rules[k]),
        is_model(rels, s, as_of, rules, units, levels, level, customs, ctx),
        within(units, levels, level, t, s),
        step_from(rels, t, as_of, rules, units, levels, level, customs, 0, ctx, t) == Ok::<
            Seq<TableV>,
            Fault,
        >(next),
    ensures
        within(units, levels, level, next, s),
{
    let none = Seq::<Seq<Value>>::empty();
    assert forall|name: Seq<char>| is_before(units, levels, level, name) implies #[trigger]
        table_named(next, name) == table_named(s, name) by {
        lemma_step(rels, t, as_of, rules, units, levels, level, customs, 0, ctx, t, name);
        assert(table_named(t, name) == table_named(s, name));
    }
    assert forall|name: Seq<char>| is_plain(units, levels, level, name) implies among(
        #[trigger] rows_named(next, name),
        rows_named(s, name),
    ) by {
        lemma_unit_place(units, name, 0);
        lemma_step(rels, t, as_of, rules, units, levels, level, customs, 0, ctx, t, name);
        assert(among(rows_named(t, name), rows_named(s, name)));
        if table_named(t, name) is Some {
            let new = bag_from(rels, t, as_of, rules, name, customs, 0, ctx, none)->Ok_0;
            lemma_bag_grows(
                units,
                levels,
                level,
                rels,
                t,
                s,
                as_of,
                rules,
                name,
                customs,
                0,
                ctx,
                none,
                none,
            );
            law_sorted(new);
            assert(rows_named(next, name) == sorted_of(new));
        } else {
            assert(rows_named(next, name) == rows_named(t, name));
        }
    }
}

proof fn lemma_level_within(
    rels: Seq<RelationV>,
    tables: Seq<TableV>,
    s: Seq<TableV>,
    as_of: Option<i64>,
    rules: Seq<RuleV>,
    units: Seq<UnitV>,
    levels: Seq<u64>,
    level: u64,
    customs: Seq<CustomV>,
    ctx: Ctx,
    left: nat,
    moves: nat,
)
    requires
        distinct(units),
        forall|k: int|
            0 <= k < rules.len() ==> rule_content(units, levels, #[trigger] rules[k])
                && steady_rule(rules[k]),
        is_model(rels, s, as_of, rules, units, levels, level, customs, ctx),
        within(units, levels, level, tables, s),
    ensures
        level_from(
            rels,
            tables,
            as_of,
            rules,
            units,
            levels,
            level,
            customs,
            ctx,
            left,
            moves,
        ) matches Ok(t) ==> within(units, levels, level, t, s),
    decreases left,
{
    if let Ok(next) = step_from(
        rels,
        tables,
        as_of,
        rules,
        units,
        levels,
        level,
        customs,
        0,
        ctx,
        tables,
    ) {
        lemma_step_within(
            rels,
            tables,
            s,
            as_of,
            rules,
            units,
            levels,
            level,
            customs,
            ctx,
            next,
        );
        if left > 0 {
            let m = if bounded_moved_from(units, tables, next, 0) && moves > 0 {
                (moves - 1) as nat
            } else {
                moves
            };
            lemma_level_within(
                rels,
                next,
                s,
                as_of,
                rules,
                units,
                levels,
                level,
                customs,
                ctx,
                (left - 1) as nat,
                m,
            );
        }
    }
}

/// The evaluation of a level derives nothing that does not follow: whatever
/// tables hold the rows it starts from and all that its rules derive from them
/// hold every row that it ends with, in the units that aggregate nothing.
pub proof fn law_level_is_least(
    rels: Seq<RelationV>,
    tables: Seq<TableV>,
    s: Seq<TableV>,
    as_of: Option<i64>,
    rules: Seq<RuleV>,
    units: Seq<UnitV>,
    levels: Seq<u64>,
    level: u64,
    customs: Seq<CustomV>,
    ctx: Ctx,
    t: Seq<TableV>,
)
    requires
        units_from(rules, customs, 0, Seq::empty()) == Ok::<Seq<UnitV>, Fault>(units),
        strata_of(rules, units) == Ok::<Seq<u64>, Fault>(levels),
        forall|k: int| 0 <= k < rules.len() ==> steady_rule(#[trigger] rules[k]),
        level_result(rels, tables, as_of, rules, units, levels, level, customs, ctx) == Ok::<
            Seq<TableV>,
            Fault,
        >(t),
        within(units, levels, level, tables, s),
        is_model(rels, s, as_of, rules, units, levels, level, customs, ctx),
    ensures
        within(units, levels, level, t, s),
{
    reveal(level_result);
    law_strata(rules, units);
    lemma_units_distinct(rules, customs, 0, Seq::empty());
    assert forall|k: int| 0 <= k < rules.len() implies rule_content(
        units,
        levels,
        #[trigger] rules[k],
    ) && steady_rule(rules[k]) by {
        assert(steady_rule(rules[k]));
    }
    lemma_level_within(
        rels,
        tables,
        s,
        as_of,
        rules,
        units,
        levels,
        level,
        customs,
        ctx,
        MOST_STEPS as nat,
        MOST_MOVES as nat,
    );
}

} // verus!
