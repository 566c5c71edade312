//! What a query of one rule answers.
use vstd::prelude::*;

use crate::aggr::CustomV;
use crate::bind::{TableV, selected, table_from};
use crate::error::Fault;
use crate::eval::{
    MOST_MOVES, MOST_STEPS, answer_of, bag_from, blank_from, bounded_moved_from, distinct_from,
    labels_of, level_from, level_result, levels_run, rows_named, rule_from, rule_rows, same_from,
    settled, step_from, width_of, windowed, with_table,
};
use crate::expr::{Ctx, branched};
use crate::fold::{AggOp, Shape, resolved_from, shape_from};
use crate::mutate::asked;
use crate::query::{AtomV, BodyV, HeadItemV, ProgramV, RuleV};
use crate::scan::SourceV;
use crate::store::{RelationV, StoreV};
use crate::strata::{
    UnitV, atoms_level, body_level, clauses_level, levels_from, low_levels, rounds, strata_of,
    swept_from, unit_from, units_from,
};
use crate::table::{sorted_of, with_row, with_rows_from};
use crate::value::Value;

verus! {

/// Whether the variables of a head are taken as they are.
pub open spec fn plain_head(head: Seq<HeadItemV>) -> bool {
    forall|i: int| 0 <= i < head.len() ==> (#[trigger] head[i]).aggr is None
}

/// Whether a rule refers to no rule.
pub open spec fn stands_alone(b: BodyV) -> bool {
    match b {
        BodyV::Clauses(cs) => forall|i: int, j: int|
            0 <= i < cs.len() && 0 <= j < cs[i].len() ==> !(#[trigger] cs[i][j] is Rule),
        BodyV::Rows(_) => true,
        BodyV::Fixed(_, _, _) => false,
    }
}

/// Whether every column is one that rows are grouped by.
spec fn all_grouped(ops: Seq<AggOp>) -> bool {
    forall|i: int| 0 <= i < ops.len() ==> #[trigger] ops[i] == AggOp::Group
}

proof fn lemma_resolved(head: Seq<HeadItemV>, customs: Seq<CustomV>, i: int, acc: Seq<AggOp>)
    requires
        0 <= i,
        plain_head(head),
        all_grouped(acc),
    ensures
        resolved_from(head, customs, i, acc) matches Ok(ops) && all_grouped(ops),
    decreases head.len() - i,
{
    if i < head.len() {
        assert(head[i].aggr is None);
        lemma_resolved(head, customs, i + 1, acc.push(AggOp::Group));
    }
}

proof fn lemma_shape(ops: Seq<AggOp>, customs: Seq<CustomV>, i: int)
    requires
        0 <= i,
        all_grouped(ops),
    ensures
        shape_from(ops, customs, i, 0) == Ok::<Shape, Fault>(Shape::Plain),
    decreases ops.len() - i,
{
    if i < ops.len() {
        lemma_shape(ops, customs, i + 1);
    }
}

proof fn lemma_atoms_free(
    units: Seq<UnitV>,
    levels: Seq<u64>,
    h: int,
    atoms: Seq<AtomV>,
    i: int,
    acc: int,
)
    requires
        0 <= i,
        0 <= acc,
        forall|j: int| 0 <= j < atoms.len() ==> !(#[trigger] atoms[j] is Rule),
    ensures
        atoms_level(units, levels, h, atoms, false, i, acc) == acc,
    decreases atoms.len() - i,
{
    if i < atoms.len() {
        lemma_atoms_free(units, levels, h, atoms, i + 1, acc);
    }
}

proof fn lemma_clauses_free(
    units: Seq<UnitV>,
    levels: Seq<u64>,
    h: int,
    cs: Seq<Seq<AtomV>>,
    i: int,
    acc: int,
)
    requires
        0 <= i,
        0 <= acc,
        stands_alone(BodyV::Clauses(cs)),
    ensures
        clauses_level(units, levels, h, cs, i, acc) == acc,
    decreases cs.len() - i,
{
    if i < cs.len() {
        assert forall|j: int| 0 <= j < cs[i].len() implies !(#[trigger] cs[i][j] is Rule) by {}
        lemma_atoms_free(units, levels, h, cs[i], 0, acc);
        lemma_clauses_free(units, levels, h, cs, i + 1, acc);
    }
}

proof fn lemma_strata(r: RuleV, u: UnitV)
    requires
        u.name == r.name,
        stands_alone(r.body),
    ensures
        strata_of(seq![r], seq![u]) == Ok::<Seq<u64>, Fault>(seq![0u64]),
{
    let rules = seq![r];
    let units = seq![u];
    let levels = Seq::new(units.len(), |i: int| 0u64);
    assert(levels =~= seq![0u64]);
    if let BodyV::Clauses(cs) = r.body {
        lemma_clauses_free(units, levels, 0, cs, 0, 0);
    }
    assert(unit_from(units, r.name, 0) == 0);
    assert(body_level(units, levels, 0, r.body, 0) == 0);
    assert(levels.update(0, 0u64) =~= levels);
    assert(swept_from(rules, units, 1, levels) == levels);
    assert(swept_from(rules, units, 0, levels) == levels);
    assert(levels_from(rules, units, levels, rounds(1)) == Some(levels));
    assert(low_levels(levels, 1));
}

/// The table of the only unit, once it is complete.
spec fn full_table(u: UnitV, bag: Seq<Seq<Value>>) -> TableV {
    TableV { name: u.name, arity: width_of(u, sorted_of(bag)), rows: sorted_of(bag) }
}

/// Whether a rule gives the same rows whatever was derived before.
#[verifier::opaque]
pub open spec fn gives(
    rels: Seq<RelationV>,
    r: RuleV,
    customs: Seq<CustomV>,
    ctx: Ctx,
    bag: Seq<Seq<Value>>,
) -> bool {
    forall|t: Seq<TableV>| #[trigger]
        rule_rows(rels, t, None, r, customs, branched(ctx, 0)) == Ok::<Seq<Seq<Value>>, Fault>(bag)
}

proof fn lemma_bag(
    rels: Seq<RelationV>,
    t: Seq<TableV>,
    r: RuleV,
    customs: Seq<CustomV>,
    ctx: Ctx,
    bag: Seq<Seq<Value>>,
)
    requires
        gives(rels, r, customs, ctx, bag),
    ensures
        bag_from(rels, t, None, seq![r], r.name, customs, 0, ctx, Seq::empty()) == Ok::<
            Seq<Seq<Value>>,
            Fault,
        >(bag),
{
    reveal(gives);
    let none = Seq::<Seq<Value>>::empty();
    assert(rule_rows(rels, t, None, r, customs, branched(ctx, 0)) == Ok::<
        Seq<Seq<Value>>,
        Fault,
    >(bag));
    assert(none + bag =~= bag);
    assert(bag_from(rels, t, None, seq![r], r.name, customs, 1, ctx, bag) == Ok::<
        Seq<Seq<Value>>,
        Fault,
    >(bag));
}

proof fn lemma_one_step(
    rels: Seq<RelationV>,
    t: Seq<TableV>,
    r: RuleV,
    u: UnitV,
    customs: Seq<CustomV>,
    ctx: Ctx,
    bag: Seq<Seq<Value>>,
)
    requires
        gives(rels, r, customs, ctx, bag),
        u.name == r.name,
        u.shape == Shape::Plain,
        t.len() == 1,
        t[0].name == u.name,
    ensures
        step_from(
            rels,
            t,
            None,
            seq![r],
            seq![u],
            seq![0u64],
            0,
            customs,
            0,
            ctx,
            t,
        ) == Ok::<Seq<TableV>, Fault>(seq![full_table(u, bag)]),
{
    lemma_bag(rels, t, r, customs, ctx, bag);
    let next = with_table(t, u, sorted_of(bag));
    assert(table_from(t, u.name, 0) == 0);
    assert(next =~= seq![full_table(u, bag)]);
    assert(settled(u, customs, rows_named(t, u.name), bag) == Ok::<Seq<Seq<Value>>, Fault>(
        sorted_of(bag),
    ));
    assert(step_from(
        rels,
        t,
        None,
        seq![r],
        seq![u],
        seq![0u64],
        0,
        customs,
        1,
        ctx,
        next,
    ) == Ok::<Seq<TableV>, Fault>(next));
}

proof fn lemma_same_tables(t: TableV)
    ensures
        same_from(seq![t], seq![t], 0),
{
    reveal_with_fuel(same_from, 3);
}

proof fn lemma_first_level(
    rels: Seq<RelationV>,
    t: Seq<TableV>,
    r: RuleV,
    u: UnitV,
    customs: Seq<CustomV>,
    ctx: Ctx,
    bag: Seq<Seq<Value>>,
)
    requires
        gives(rels, r, customs, ctx, bag),
        u.name == r.name,
        u.shape == Shape::Plain,
        t.len() == 1,
        t[0].name == u.name,
    ensures
        level_result(rels, t, None, seq![r], seq![u], seq![0u64], 0, customs, ctx) == Ok::<
            Seq<TableV>,
            Fault,
        >(seq![full_table(u, bag)]),
{
    reveal(level_result);
    let next = seq![full_table(u, bag)];
    lemma_one_step(rels, t, r, u, customs, ctx, bag);
    lemma_one_step(rels, next, r, u, customs, ctx, bag);
    lemma_same_tables(full_table(u, bag));
    let left = MOST_STEPS as nat;
    let moves = MOST_MOVES as nat;
    let m = if bounded_moved_from(seq![u], t, next, 0) {
        (moves - 1) as nat
    } else {
        moves
    };
    assert(level_from(
        rels,
        next,
        None,
        seq![r],
        seq![u],
        seq![0u64],
        0,
        customs,
        ctx,
        (left - 1) as nat,
        m,
    ) == Ok::<Seq<TableV>, Fault>(next));
}

proof fn lemma_second_level(
    rels: Seq<RelationV>,
    t: TableV,
    r: RuleV,
    u: UnitV,
    customs: Seq<CustomV>,
    ctx: Ctx,
)
    ensures
        level_result(rels, seq![t], None, seq![r], seq![u], seq![0u64], 1, customs, ctx) == Ok::<
            Seq<TableV>,
            Fault,
        >(seq![t]),
{
    reveal(level_result);
    reveal_with_fuel(step_from, 3);
    lemma_same_tables(t);
}

proof fn lemma_levels(
    rels: Seq<RelationV>,
    r: RuleV,
    u: UnitV,
    customs: Seq<CustomV>,
    ctx: Ctx,
    bag: Seq<Seq<Value>>,
)
    requires
        gives(rels, r, customs, ctx, bag),
        u.name == r.name,
        u.shape == Shape::Plain,
    ensures
        levels_run(
            rels,
            blank_from(seq![u], 0, Seq::empty()),
            None,
            seq![r],
            seq![u],
            seq![0u64],
            0,
            customs,
            ctx,
        ) == Ok::<Seq<TableV>, Fault>(seq![full_table(u, bag)]),
{
    reveal_with_fuel(blank_from, 3);
    let t = blank_from(seq![u], 0, Seq::empty());
    assert(t.len() == 1 && t[0].name == u.name);
    let full = full_table(u, bag);
    lemma_first_level(rels, t, r, u, customs, ctx, bag);
    lemma_second_level(rels, full, r, u, customs, ctx);
    reveal_with_fuel(levels_run, 4);
}

/// A query of one rule, which refers to no rule, answers with the rows of that
/// rule, sorted and without repetition.
pub proof fn law_single_rule(
    rels: Seq<RelationV>,
    p: ProgramV,
    r: RuleV,
    customs: Seq<CustomV>,
    ctx: Ctx,
    bag: Seq<Seq<Value>>,
)
    requires
        p.rules == seq![r],
        p.as_of is None,
        p.sort.len() == 0,
        r.name == "?"@,
        plain_head(r.head),
        stands_alone(r.body),
        gives(rels, r, customs, ctx, bag),
    ensures
        answer_of(rels, Seq::empty(), p, customs, ctx) == Ok::<SourceV, Fault>(
            SourceV {
                cols: labels_of(r.head),
                rows: sorted_of(
                    windowed(
                        distinct_from(bag, 0, Seq::empty(), Seq::empty()),
                        p.offset,
                        p.limit,
                    ),
                ),
            },
        ),
{
    reveal(answer_of);
    let none = Seq::<UnitV>::empty();
    lemma_resolved(r.head, customs, 0, Seq::empty());
    let ops = resolved_from(r.head, customs, 0, Seq::empty())->Ok_0;
    lemma_shape(ops, customs, 0);
    let u = UnitV { name: r.name, ops, shape: Shape::Plain };
    assert(none.push(u) =~= seq![u]);
    assert(units_from(p.rules, customs, 1, seq![u]) == Ok::<Seq<UnitV>, Fault>(seq![u]));
    assert(unit_from(none, r.name, 0) == 0);
    assert(units_from(p.rules, customs, 0, none) == Ok::<Seq<UnitV>, Fault>(seq![u]));
    lemma_strata(r, u);
    assert(rule_from(p.rules, "?"@, 0) == 0);
    assert(unit_from(seq![u], "?"@, 0) == 0);
    lemma_levels(rels, r, u, customs, ctx, bag);
    lemma_bag(rels, seq![full_table(u, bag)], r, customs, ctx, bag);
    assert(selected(p.as_of, true, ctx) == Ok::<Option<i64>, Fault>(None));
}

proof fn lemma_one_row(row: Seq<Value>)
    ensures
        sorted_of(windowed(distinct_from(seq![row], 0, Seq::empty(), Seq::empty()), 0, None))
            == seq![row],
{
    let none = Seq::<Seq<Value>>::empty();
    let one = seq![row];
    assert(with_row(none, row) =~= one);
    assert(none.push(row) =~= one);
    assert(distinct_from(one, 1, one, one) == one);
    assert(distinct_from(one, 0, none, none) == one);
    assert(windowed(one, 0, None) =~= one);
    assert(with_rows_from(one, one, 1) == one);
    assert(with_rows_from(none, one, 0) == one);
}

/// Where that rule gives one row, the query answers with it.
pub proof fn law_single_row(
    store: StoreV,
    p: ProgramV,
    r: RuleV,
    customs: Seq<CustomV>,
    ctx: Ctx,
    row: Seq<Value>,
)
    requires
        p.rules == seq![r],
        p.as_of is None,
        p.sort.len() == 0,
        p.offset == 0,
        p.limit is None,
        r.name == "?"@,
        plain_head(r.head),
        stands_alone(r.body),
        gives(store.rels, r, customs, ctx, seq![row]),
    ensures
        asked(store, Seq::empty(), p, customs, ctx) == Ok::<SourceV, Fault>(
            SourceV { cols: labels_of(r.head), rows: seq![row] },
        ),
{
    law_single_rule(store.rels, p, r, customs, ctx, seq![row]);
    lemma_one_row(row);
    assert(p.rules.len() == 1);
}

/// Where that rule gives no row, the query answers with none.
pub proof fn law_single_empty(
    store: StoreV,
    p: ProgramV,
    r: RuleV,
    customs: Seq<CustomV>,
    ctx: Ctx,
)
    requires
        p.rules == seq![r],
        p.as_of is None,
        p.sort.len() == 0,
        r.name == "?"@,
        plain_head(r.head),
        stands_alone(r.body),
        gives(store.rels, r, customs, ctx, Seq::empty()),
    ensures
        asked(store, Seq::empty(), p, customs, ctx) == Ok::<SourceV, Fault>(
            SourceV { cols: labels_of(r.head), rows: Seq::empty() },
        ),
{
    let none = Seq::<Seq<Value>>::empty();
    law_single_rule(store.rels, p, r, customs, ctx, none);
    assert(distinct_from(none, 0, none, none) == none);
    assert(windowed(none, p.offset, p.limit) =~= none);
    assert(sorted_of(none) == none);
    assert(p.rules.len() == 1);
}

} // verus!
