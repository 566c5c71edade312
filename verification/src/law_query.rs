//! What holds of the answers of queries.
use vstd::prelude::*;

use crate::aggr::CustomV;
use crate::bind::{PlanV, TableV, exclude_from, join_from, join_row_from, match_from, matches_from};
use crate::error::Fault;
use crate::eval::{
    distinct_from, level_from, level_result, same_from, shown_rows, step_from, windowed,
};
use crate::expr::Ctx;
use crate::query::{ProgramV, RuleV};
use crate::scan::{all_picked, all_places_from, index_rows, picked};
use crate::store::{IndexV, RelationV};
use crate::strata::UnitV;
use crate::table::{ascending, law_sorted, law_with_row, lemma_slot, sorted_of, with_row};
use crate::value::Value;

verus! {

pub(crate) proof fn lemma_join_row(
    p: PlanV,
    row: Seq<Value>,
    src: Seq<Seq<Value>>,
    j: int,
    ctx: Ctx,
    acc: Seq<Seq<Value>>,
)
    requires
        0 <= j <= src.len(),
    ensures
        join_row_from(p, row, src, j, ctx, acc) matches Ok(out) ==> forall|x: Seq<Value>| #[trigger]
            out.contains(x) <==> acc.contains(x) || exists|m: int|
                j <= m < src.len() && match_from(p, #[trigger] src[m], 0, row, ctx) == Ok::<
                    Option<Seq<Value>>,
                    Fault,
                >(Some(x)),
    decreases src.len() - j,
{
    if j < src.len() {
        match match_from(p, src[j], 0, row, ctx) {
            Err(_) => {},
            Ok(None) => {
                lemma_join_row(p, row, src, j + 1, ctx, acc);
            },
            Ok(Some(r)) => {
                lemma_join_row(p, row, src, j + 1, ctx, acc.push(r));
                if let Ok(out) = join_row_from(p, row, src, j, ctx, acc) {
                    assert forall|x: Seq<Value>| #[trigger]
                        out.contains(x) <==> acc.contains(x) || exists|m: int|
                            j <= m < src.len() && match_from(p, #[trigger] src[m], 0, row, ctx)
                                == Ok::<Option<Seq<Value>>, Fault>(Some(x)) by {
                        lemma_contains_push(acc, r, x);
                        if x == r {
                            assert(match_from(p, src[j], 0, row, ctx) == Ok::<
                                Option<Seq<Value>>,
                                Fault,
                            >(Some(x)));
                        }
                    }
                }
            },
        }
    }
}

pub(crate) proof fn lemma_contains_push(s: Seq<Seq<Value>>, r: Seq<Value>, x: Seq<Value>)
    ensures
        s.push(r).contains(x) <==> s.contains(x) || x == r,
{
    let t = s.push(r);
    if s.contains(x) {
        let k = choose|k: int| 0 <= k < s.len() && s[k] == x;
        assert(t[k] == x);
    }
    if x == r {
        assert(t[s.len() as int] == x);
    }
    if t.contains(x) {
        let k = choose|k: int| 0 <= k < t.len() && t[k] == x;
        if k < s.len() {
            assert(s[k] == x);
        }
    }
}

proof fn lemma_join(
    p: PlanV,
    rows: Seq<Seq<Value>>,
    src: Seq<Seq<Value>>,
    i: int,
    ctx: Ctx,
    acc: Seq<Seq<Value>>,
)
    requires
        0 <= i <= rows.len(),
    ensures
        join_from(p, rows, src, i, ctx, acc) matches Ok(out) ==> forall|x: Seq<Value>| #[trigger]
            out.contains(x) <==> acc.contains(x) || exists|n: int, m: int|
                i <= n < rows.len() && 0 <= m < src.len() && match_from(
                    p,
                    #[trigger] src[m],
                    0,
                    #[trigger] rows[n],
                    ctx,
                ) == Ok::<Option<Seq<Value>>, Fault>(Some(x)),
    decreases rows.len() - i,
{
    if i < rows.len() {
        lemma_join_row(p, rows[i], src, 0, ctx, acc);
        if let Ok(next) = join_row_from(p, rows[i], src, 0, ctx, acc) {
            lemma_join(p, rows, src, i + 1, ctx, next);
            if let Ok(out) = join_from(p, rows, src, i, ctx, acc) {
                assert forall|x: Seq<Value>| #[trigger]
                    out.contains(x) <==> acc.contains(x) || exists|n: int, m: int|
                        i <= n < rows.len() && 0 <= m < src.len() && match_from(
                            p,
                            #[trigger] src[m],
                            0,
                            #[trigger] rows[n],
                            ctx,
                        ) == Ok::<Option<Seq<Value>>, Fault>(Some(x)) by {
                    if next.contains(x) && !acc.contains(x) {
                        let m = choose|m: int|
                            0 <= m < src.len() && match_from(p, #[trigger] src[m], 0, rows[i], ctx)
                                == Ok::<Option<Seq<Value>>, Fault>(Some(x));
                        assert(match_from(p, src[m], 0, rows[i], ctx) == Ok::<
                            Option<Seq<Value>>,
                            Fault,
                        >(Some(x)));
                    }
                }
            }
        }
    }
}

/// A join gives exactly the rows that come of matching some row with some row of
/// the source.
pub proof fn law_join(
    p: PlanV,
    rows: Seq<Seq<Value>>,
    src: Seq<Seq<Value>>,
    ctx: Ctx,
    out: Seq<Seq<Value>>,
)
    requires
        join_from(p, rows, src, 0, ctx, Seq::empty()) == Ok::<Seq<Seq<Value>>, Fault>(out),
    ensures
        forall|x: Seq<Value>| #[trigger]
            out.contains(x) <==> exists|n: int, m: int|
                0 <= n < rows.len() && 0 <= m < src.len() && match_from(
                    p,
                    #[trigger] src[m],
                    0,
                    #[trigger] rows[n],
                    ctx,
                ) == Ok::<Option<Seq<Value>>, Fault>(Some(x)),
{
    lemma_join(p, rows, src, 0, ctx, Seq::empty());
    assert forall|x: Seq<Value>| #[trigger]
        out.contains(x) <==> exists|n: int, m: int|
            0 <= n < rows.len() && 0 <= m < src.len() && match_from(
                p,
                #[trigger] src[m],
                0,
                #[trigger] rows[n],
                ctx,
            ) == Ok::<Option<Seq<Value>>, Fault>(Some(x)) by {
        let got = join_from(p, rows, src, 0, ctx, Seq::empty());
        assert(got->Ok_0.contains(x) == out.contains(x));
        assert(!Seq::<Seq<Value>>::empty().contains(x));
    }
}

/// Whether a row matches no row of a source.
pub open spec fn unmatched(p: PlanV, row: Seq<Value>, src: Seq<Seq<Value>>, ctx: Ctx) -> bool {
    forall|m: int|
        0 <= m < src.len() ==> match_from(p, #[trigger] src[m], 0, row, ctx) == Ok::<
            Option<Seq<Value>>,
            Fault,
        >(None)
}

proof fn lemma_matches(p: PlanV, row: Seq<Value>, src: Seq<Seq<Value>>, j: int, ctx: Ctx)
    requires
        0 <= j <= src.len(),
        forall|m: int|
            0 <= m < j ==> match_from(p, #[trigger] src[m], 0, row, ctx) == Ok::<
                Option<Seq<Value>>,
                Fault,
            >(None),
    ensures
        matches_from(p, row, src, j, ctx) matches Ok(b) ==> b == !unmatched(p, row, src, ctx),
    decreases src.len() - j,
{
    if j < src.len() {
        match match_from(p, src[j], 0, row, ctx) {
            Ok(None) => lemma_matches(p, row, src, j + 1, ctx),
            _ => {},
        }
    }
}

proof fn lemma_exclude(
    p: PlanV,
    rows: Seq<Seq<Value>>,
    src: Seq<Seq<Value>>,
    i: int,
    ctx: Ctx,
    acc: Seq<Seq<Value>>,
)
    requires
        0 <= i <= rows.len(),
    ensures
        exclude_from(p, rows, src, i, ctx, acc) matches Ok(out) ==> forall|x: Seq<Value>| #[trigger]
            out.contains(x) <==> acc.contains(x) || exists|n: int|
                i <= n < rows.len() && #[trigger] rows[n] == x && unmatched(p, x, src, ctx),
    decreases rows.len() - i,
{
    if i < rows.len() {
        lemma_matches(p, rows[i], src, 0, ctx);
        if let Ok(b) = matches_from(p, rows[i], src, 0, ctx) {
            let next = if b {
                acc
            } else {
                acc.push(rows[i])
            };
            lemma_exclude(p, rows, src, i + 1, ctx, next);
            if let Ok(out) = exclude_from(p, rows, src, i, ctx, acc) {
                assert forall|x: Seq<Value>| #[trigger]
                    out.contains(x) <==> acc.contains(x) || exists|n: int|
                        i <= n < rows.len() && #[trigger] rows[n] == x && unmatched(
                            p,
                            x,
                            src,
                            ctx,
                        ) by {
                    lemma_contains_push(acc, rows[i], x);
                    if !b && x == rows[i] {
                        assert(rows[i] == x && unmatched(p, x, src, ctx));
                    }
                }
            }
        }
    }
}

/// A negation gives exactly the rows that match no row of the source.
pub proof fn law_negation(
    p: PlanV,
    rows: Seq<Seq<Value>>,
    src: Seq<Seq<Value>>,
    ctx: Ctx,
    out: Seq<Seq<Value>>,
)
    requires
        exclude_from(p, rows, src, 0, ctx, Seq::empty()) == Ok::<Seq<Seq<Value>>, Fault>(out),
    ensures
        forall|x: Seq<Value>| #[trigger]
            out.contains(x) <==> exists|n: int|
                0 <= n < rows.len() && #[trigger] rows[n] == x && unmatched(p, x, src, ctx),
{
    lemma_exclude(p, rows, src, 0, ctx, Seq::empty());
    assert forall|x: Seq<Value>| #[trigger]
        out.contains(x) <==> exists|n: int|
            0 <= n < rows.len() && #[trigger] rows[n] == x && unmatched(p, x, src, ctx) by {
        let got = exclude_from(p, rows, src, 0, ctx, Seq::empty());
        assert(got->Ok_0.contains(x) == out.contains(x));
        assert(!Seq::<Seq<Value>>::empty().contains(x));
    }
}

proof fn lemma_level(
    rels: Seq<RelationV>,
    tables: Seq<TableV>,
    as_of: Option<i64>,
    rules: Seq<RuleV>,
    units: Seq<UnitV>,
    levels: Seq<u64>,
    level: u64,
    customs: Seq<CustomV>,
    ctx: Ctx,
    left: nat,
    moves: nat,
)
    ensures
        level_from(rels, tables, as_of, rules, units, levels, level, customs, ctx, left, moves)
            matches Ok(t) ==> exists|s: Seq<TableV>|
            same_from(s, t, 0) && #[trigger] step_from(
                rels,
                s,
                as_of,
                rules,
                units,
                levels,
                level,
                customs,
                0,
                ctx,
                s,
            ) == Ok::<Seq<TableV>, Fault>(t),
    decreases left,
{
    if let Ok(next) = step_from(
        rels,
        tables,
        as_of,
        rules,
        units,
        levels,
        level,
        customs,
        0,
        ctx,
        tables,
    ) {
        if !same_from(tables, next, 0) && left > 0 {
            let m = if crate::eval::bounded_moved_from(units, tables, next, 0) && moves > 0 {
                (moves - 1) as nat
            } else {
                moves
            };
            lemma_level(
                rels,
                next,
                as_of,
                rules,
                units,
                levels,
                level,
                customs,
                ctx,
                (left - 1) as nat,
                m,
            );
        }
    }
}

/// The evaluation of a level ends where nothing follows any more: its tables
/// come of a step from tables with the same rows.
pub proof fn law_level_is_settled(
    rels: Seq<RelationV>,
    tables: Seq<TableV>,
    as_of: Option<i64>,
    rules: Seq<RuleV>,
    units: Seq<UnitV>,
    levels: Seq<u64>,
    level: u64,
    customs: Seq<CustomV>,
    ctx: Ctx,
    t: Seq<TableV>,
)
    requires
        level_result(rels, tables, as_of, rules, units, levels, level, customs, ctx) == Ok::<
            Seq<TableV>,
            Fault,
        >(t),
    ensures
        exists|s: Seq<TableV>|
            same_from(s, t, 0) && #[trigger] step_from(
                rels,
                s,
                as_of,
                rules,
                units,
                levels,
                level,
                customs,
                0,
                ctx,
                s,
            ) == Ok::<Seq<TableV>, Fault>(t),
{
    reveal(level_result);
    lemma_level(
        rels,
        tables,
        as_of,
        rules,
        units,
        levels,
        level,
        customs,
        ctx,
        crate::eval::MOST_STEPS as nat,
        crate::eval::MOST_MOVES as nat,
    );
}

proof fn lemma_distinct(
    rows: Seq<Seq<Value>>,
    i: int,
    seen: Seq<Seq<Value>>,
    acc: Seq<Seq<Value>>,
)
    requires
        0 <= i <= rows.len(),
        ascending(seen),
        forall|x: Seq<Value>| #[trigger] seen.contains(x) <==> acc.contains(x),
    ensures
        forall|x: Seq<Value>| #[trigger]
            distinct_from(rows, i, seen, acc).contains(x) <==> acc.contains(x) || exists|k: int|
                i <= k < rows.len() && #[trigger] rows[k] == x,
    decreases rows.len() - i,
{
    if i < rows.len() {
        law_with_row(seen, rows[i]);
        lemma_slot(seen, rows[i], seen.len() as int);
        let next = with_row(seen, rows[i]);
        let more = if next.len() > seen.len() {
            acc.push(rows[i])
        } else {
            acc
        };
        assert forall|x: Seq<Value>| #[trigger] next.contains(x) <==> more.contains(x) by {
            lemma_contains_push(acc, rows[i], x);
            assert(next.contains(x) <==> seen.contains(x) || x == rows[i]);
            if next.len() <= seen.len() {
                assert(next == seen);
                assert(next.contains(rows[i]));
                assert(seen.contains(rows[i]) <==> acc.contains(rows[i]));
            }
        }
        lemma_distinct(rows, i + 1, next, more);
        assert forall|x: Seq<Value>| #[trigger]
            distinct_from(rows, i, seen, acc).contains(x) <==> acc.contains(x) || exists|k: int|
                i <= k < rows.len() && #[trigger] rows[k] == x by {
            lemma_contains_push(acc, rows[i], x);
            let tail = distinct_from(rows, i + 1, next, more);
            assert(distinct_from(rows, i, seen, acc) == tail);
            assert(tail.contains(x) <==> more.contains(x) || exists|k: int|
                i + 1 <= k < rows.len() && #[trigger] rows[k] == x);
            assert(next.contains(x) <==> seen.contains(x) || x == rows[i]);
            assert(next.contains(x) <==> more.contains(x));
            if x == rows[i] {
                assert(rows[i] == x);
            }
        }
    }
}

/// The answer of a query whose entry aggregates nothing, and which asks for no
/// other order, is ascending; without a limit and an offset it holds exactly
/// the rows that were found.
pub proof fn law_answer_is_sorted(
    p: ProgramV,
    labels: Seq<Seq<char>>,
    table: Seq<Seq<Value>>,
    bag: Seq<Seq<Value>>,
)
    requires
        p.sort.len() == 0,
    ensures
        ascending(shown_rows(p, true, labels, table, bag)),
        p.limit is None && p.offset == 0 ==> forall|x: Seq<Value>| #[trigger]
            shown_rows(p, true, labels, table, bag).contains(x) <==> bag.contains(x),
{
    let found = distinct_from(bag, 0, Seq::empty(), Seq::empty());
    let cut = windowed(found, p.offset, p.limit);
    law_sorted(cut);
    if p.limit is None && p.offset == 0 {
        assert(cut =~= found);
        lemma_distinct(bag, 0, Seq::empty(), Seq::empty());
        assert forall|x: Seq<Value>| #[trigger]
            shown_rows(p, true, labels, table, bag).contains(x) <==> bag.contains(x) by {
            assert(sorted_of(cut).contains(x) <==> cut.contains(x));
            assert(!Seq::<Seq<Value>>::empty().contains(x));
            assert(found.contains(x) <==> exists|k: int|
                0 <= k < bag.len() && #[trigger] bag[k] == x);
        }
    }
}

/// An index shows exactly what the rows of its relation have in its columns, in
/// ascending order.
pub proof fn law_index_is_projection(rel: RelationV, ix: IndexV, rows: Seq<Seq<Value>>)
    ensures
        ascending(index_rows(rel, ix, rows)),
        forall|x: Seq<Value>| #[trigger]
            index_rows(rel, ix, rows).contains(x) <==> exists|i: int|
                0 <= i < rows.len() && picked(
                    #[trigger] rows[i],
                    all_places_from(ix.places, rel.keys.len() as int, 0, ix.places),
                ) == x,
{
    let ps = all_places_from(ix.places, rel.keys.len() as int, 0, ix.places);
    let all = all_picked(rows, ps);
    law_sorted(all);
    assert forall|x: Seq<Value>| #[trigger]
        index_rows(rel, ix, rows).contains(x) <==> exists|i: int|
            0 <= i < rows.len() && picked(#[trigger] rows[i], ps) == x by {
        assert(sorted_of(all).contains(x) <==> all.contains(x));
        if all.contains(x) {
            let k = choose|k: int| 0 <= k < all.len() && all[k] == x;
            assert(picked(rows[k], ps) == x);
        }
        if exists|i: int| 0 <= i < rows.len() && picked(#[trigger] rows[i], ps) == x {
            let i = choose|i: int| 0 <= i < rows.len() && picked(#[trigger] rows[i], ps) == x;
            assert(all[i] == x);
        }
    }
}

} // verus!
