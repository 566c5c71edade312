//! Evaluating queries.
use vstd::prelude::*;

use crate::aggr::{Custom, CustomV};
use crate::bind::{
    Table, TableV, clause, clause_from, field_from, find_field, find_table, head_places,
    head_places_from, select, selected, table_from, unit,
};
use crate::error::{DbError, ErrKind, Fault, err, err_on, fault, fault_on, outcome};
use crate::expr::{Ctx, Expr, ExprV, branch, branched, eval, eval_of, find, place};
use crate::fold::{Shape, aggregate, aggregated};
use crate::graph::PageRank;
use crate::list::{Dup, List};
use crate::order::{any_repeats, arranged, some_repeats};
use crate::query::{
    Atom, AtomV, Body, BodyV, Field, FieldV, HeadItem, HeadItemV, Program, ProgramV, Rule, RuleV,
    SortKey, SortKeyV,
};
use crate::rules::{custom_rows, find_custom_rule, own_rows, rule_place, run_custom, run_own};
use crate::scan::{Source, SourceV, all_picked, pick_all};
use crate::schema::{RelKind, kind, kind_of};
use crate::store::{Relation, RelationV, find_rel, rel_place};
use crate::strata::{Unit, UnitV, find_unit, make_units, strata_of, stratify, unit_from, units_from};
use crate::table::{Rows, add_row, joined, same_rows, sorted, sorted_of, with_row};
use crate::topk::{best, best_from};
use crate::value::{DataValue, Sign, Tuple, Value, compare, elements, order, values_of};

verus! {

/// The rows of two lists, one after the other.
pub fn chained(a: Rows, b: &Rows) -> (r: Rows)
    ensures
        r@ == a@ + b@,
{
    let ghost first = a@;
    let mut r = a;
    let mut i: usize = 0;
    assert(r@ =~= first + b@.take(0));
    while i < b.len()
        invariant
            i <= b@.len(),
            r@ == first + b@.take(i as int),
        decreases b@.len() - i,
    {
        r.push(b.get(i).dup());
        assert(first + b@.take(i + 1) =~= (first + b@.take(i as int)).push(b@[i as int]));
        i = i + 1;
    }
    assert(b@.take(i as int) =~= b@);
    r
}

/// The rows that the clauses from place `i` on give for a head, after `acc`.
pub open spec fn clauses_from(
    rels: Seq<RelationV>,
    tables: Seq<TableV>,
    as_of: Option<i64>,
    head: Seq<HeadItemV>,
    cs: Seq<Seq<AtomV>>,
    i: int,
    ctx: Ctx,
    acc: Seq<Seq<Value>>,
) -> Result<Seq<Seq<Value>>, Fault>
    decreases cs.len() - i,
{
    if i < 0 || i >= cs.len() {
        Ok(acc)
    } else {
        match clause_from(rels, tables, as_of, arranged(cs[i]), 0, unit(), branched(ctx, i)) {
            Err(f) => Err(f),
            Ok(b) => match head_places_from(head, b.cols, 0, Seq::empty()) {
                Err(f) => Err(f),
                Ok(ps) => clauses_from(
                    rels,
                    tables,
                    as_of,
                    head,
                    cs,
                    i + 1,
                    ctx,
                    acc + all_picked(b.rows, ps),
                ),
            },
        }
    }
}

/// The rows that a list of lists holds, from place `i` on: each as wide as the
/// head, where it has one, and as the first row.
pub open spec fn list_rows_from(l: Seq<Value>, n: int, i: int, acc: Seq<Seq<Value>>) -> Result<
    Seq<Seq<Value>>,
    Fault,
>
    decreases l.len() - i,
{
    if i < 0 || i >= l.len() {
        Ok(acc)
    } else {
        match l[i] {
            Value::List(row) => if (n > 0 && row.len() != n) || (acc.len() > 0 && row.len()
                != acc[0].len()) {
                Err(fault(ErrKind::ArityMismatch))
            } else {
                list_rows_from(l, n, i + 1, acc.push(row))
            },
            _ => Err(fault(ErrKind::NotList)),
        }
    }
}

fn list_rows(l: &Vec<DataValue>, n: usize) -> (r: Result<Rows, DbError>)
    ensures
        outcome(r) == list_rows_from(values_of(l@), n as int, 0, Seq::empty()),
{
    let ghost all = values_of(l@);
    let mut acc: Rows = List::new();
    let mut i: usize = 0;
    while i < l.len()
        invariant
            i <= l@.len(),
            all == values_of(l@),
            list_rows_from(all, n as int, 0, Seq::empty()) == list_rows_from(
                all,
                n as int,
                i as int,
                acc@,
            ),
        decreases l@.len() - i,
    {
        match &l[i] {
            DataValue::List(row) => {
                let t = elements(row);
                if (n > 0 && t.len() != n) || (acc.len() > 0 && t.len() != acc.get(0).len()) {
                    return Err(err(ErrKind::ArityMismatch));
                }
                acc.push(t);
            },
            _ => {
                return Err(err(ErrKind::NotList));
            },
        }
        i = i + 1;
    }
    Ok(acc)
}

/// The rows to be sorted by a fixed rule, from place `i` on: each the value by
/// which it is sorted and then the values that it shows.
pub open spec fn keyed_from(
    b: SourceV,
    shown: ExprV,
    by: ExprV,
    i: int,
    ctx: Ctx,
    acc: Seq<Seq<Value>>,
) -> Result<Seq<Seq<Value>>, Fault>
    decreases b.rows.len() - i,
{
    if i < 0 || i >= b.rows.len() {
        Ok(acc)
    } else {
        match eval_of(by, b.cols, b.rows[i], ctx) {
            Err(f) => Err(f),
            Ok(k) => match eval_of(shown, b.cols, b.rows[i], ctx) {
                Err(f) => Err(f),
                Ok(v) => match v {
                    Value::List(l) => keyed_from(
                        b,
                        shown,
                        by,
                        i + 1,
                        ctx,
                        acc.push(seq![k] + l),
                    ),
                    _ => Err(fault(ErrKind::FixedRuleArgs)),
                },
            },
        }
    }
}

fn keyed(b: &Source, shown: &Expr, by: &Expr, ctx: Ctx) -> (r: Result<Rows, DbError>)
    ensures
        outcome(r) == keyed_from(b@, shown@, by@, 0, ctx, Seq::empty()),
{
    let mut acc: Rows = List::new();
    let mut i: usize = 0;
    while i < b.rows.len()
        invariant
            i <= b.rows@.len(),
            keyed_from(b@, shown@, by@, 0, ctx, Seq::empty()) == keyed_from(
                b@,
                shown@,
                by@,
                i as int,
                ctx,
                acc@,
            ),
        decreases b.rows@.len() - i,
    {
        let row = b.rows.get(i);
        match eval(by, &b.cols, row, ctx) {
            Err(e) => {
                return Err(e);
            },
            Ok(k) => match eval(shown, &b.cols, row, ctx) {
                Err(e) => {
                    return Err(e);
                },
                Ok(v) => match v {
                    DataValue::List(l) => {
                        let mut head: Tuple = List::new();
                        let ghost kv = k@;
                        head.push(k);
                        assert(head@ =~= seq![kv]);
                        acc.push(joined(&head, &elements(&l)));
                    },
                    _ => {
                        return Err(err(ErrKind::FixedRuleArgs));
                    },
                },
            },
        }
        i = i + 1;
    }
    Ok(acc)
}

/// The rows from place `i` on with their rank in place of their first value.
pub open spec fn numbered_from(
    rows: Seq<Seq<Value>>,
    i: int,
    acc: Seq<Seq<Value>>,
) -> Seq<Seq<Value>>
    decreases rows.len() - i,
{
    if i < 0 || i >= rows.len() {
        acc
    } else if rows[i].len() == 0 {
        numbered_from(rows, i + 1, acc)
    } else {
        numbered_from(rows, i + 1, acc.push(rows[i].update(0, Value::Int((i + 1) as i64))))
    }
}

fn numbered(rows: &Rows) -> (r: Rows)
    ensures
        r@ == numbered_from(rows@, 0, Seq::empty()),
{
    let mut acc: Rows = List::new();
    let mut i: usize = 0;
    while i < rows.len()
        invariant
            i <= rows@.len(),
            numbered_from(rows@, 0, Seq::empty()) == numbered_from(rows@, i as int, acc@),
        decreases rows@.len() - i,
    {
        let mut row = rows.get(i).dup();
        if row.len() > 0 {
            row.set(0, DataValue::Int((i as i128 + 1) as i64));
            acc.push(row);
        }
        i = i + 1;
    }
    acc
}

/// Whether a name is that of one of the library's own rules.
pub open spec fn is_own_rule(name: Seq<char>) -> bool {
    name == "PageRank"@ || name == "ReorderSort"@
}

/// Whether a name is that of one of the library's own rules.
pub fn own_rule(name: &String) -> (r: bool)
    ensures
        r == is_own_rule(name@),
{
    *name == "PageRank".to_owned() || *name == "ReorderSort".to_owned()
}

/// The rows that a fixed rule makes, for a head of `n` columns, where no input
/// binds a variable twice: one that is
/// registered, `PageRank`, or `ReorderSort`, which shows the expressions of `out` for each
/// row of its input, ranked by `sort_by`.
pub open spec fn fixed_rows(
    rels: Seq<RelationV>,
    tables: Seq<TableV>,
    as_of: Option<i64>,
    name: Seq<char>,
    inputs: Seq<AtomV>,
    opts: Seq<FieldV>,
    customs: Seq<CustomV>,
    n: int,
    ctx: Ctx,
) -> Result<Seq<Seq<Value>>, Fault> {
    let k = rule_place(customs, name, 0);
    if some_repeats(inputs, 0) {
        Err(fault_on(ErrKind::FixedRuleArgs, name))
    } else if k < customs.len() {
        custom_rows(customs[k], rels, tables, as_of, inputs, opts, n, ctx)
    } else if name == "PageRank"@ {
        own_rows(PageRank, name, rels, tables, as_of, inputs, opts, n, ctx)
    } else if name != "ReorderSort"@ {
        Err(fault_on(ErrKind::UnknownFixedRule, name))
    } else if inputs.len() != 1 {
        Err(fault_on(ErrKind::FixedRuleArgs, name))
    } else {
        match clause_from(rels, tables, as_of, arranged(inputs), 0, unit(), ctx) {
            Err(f) => Err(f),
            Ok(b) => {
                let o = field_from(opts, "out"@, 0);
                let s = field_from(opts, "sort_by"@, 0);
                if o >= opts.len() || s >= opts.len() {
                    Err(fault_on(ErrKind::FixedRuleArgs, name))
                } else {
                    match keyed_from(b, opts[o].term, opts[s].term, 0, ctx, Seq::empty()) {
                        Err(f) => Err(f),
                        Ok(rows) => Ok(numbered_from(sorted_of(rows), 0, Seq::empty())),
                    }
                }
            },
        }
    }
}

fn fixed(
    rels: &List<Relation>,
    tables: &List<Table>,
    as_of: Option<i64>,
    name: &String,
    inputs: &List<Atom>,
    opts: &List<Field>,
    customs: &List<Custom>,
    n: usize,
    ctx: Ctx,
) -> (r: Result<Rows, DbError>)
    ensures
        outcome(r) == fixed_rows(
            rels@,
            tables@,
            as_of,
            name@,
            inputs@,
            opts@,
            customs@,
            n as int,
            ctx,
        ),
{
    if any_repeats(inputs) {
        return Err(err_on(ErrKind::FixedRuleArgs, name.as_str()));
    }
    let k = find_custom_rule(customs, name);
    if k < customs.len() {
        return run_custom(customs.get(k), rels, tables, as_of, inputs, opts, n, ctx);
    }
    if *name == "PageRank".to_owned() {
        return run_own(PageRank, name, rels, tables, as_of, inputs, opts, n, ctx);
    }
    if !(*name == "ReorderSort".to_owned()) {
        return Err(err_on(ErrKind::UnknownFixedRule, name.as_str()));
    }
    if inputs.len() != 1 {
        return Err(err_on(ErrKind::FixedRuleArgs, name.as_str()));
    }
    match clause(rels, tables, as_of, inputs, ctx) {
        Err(e) => Err(e),
        Ok(b) => {
            let o = find_field(opts, &"out".to_owned());
            let s = find_field(opts, &"sort_by".to_owned());
            if o >= opts.len() || s >= opts.len() {
                return Err(err_on(ErrKind::FixedRuleArgs, name.as_str()));
            }
            match keyed(&b, &opts.get(o).term, &opts.get(s).term, ctx) {
                Err(e) => Err(e),
                Ok(rows) => Ok(numbered(&sorted(&rows))),
            }
        },
    }
}

/// The rows that a rule gives, where the other rules have these rows.
pub open spec fn rule_rows(
    rels: Seq<RelationV>,
    tables: Seq<TableV>,
    as_of: Option<i64>,
    rule: RuleV,
    customs: Seq<CustomV>,
    ctx: Ctx,
) -> Result<Seq<Seq<Value>>, Fault> {
    match rule.body {
        BodyV::Clauses(cs) => clauses_from(
            rels,
            tables,
            as_of,
            rule.head,
            cs,
            0,
            ctx,
            Seq::empty(),
        ),
        BodyV::Rows(e) => match eval_of(e, Seq::empty(), Seq::empty(), ctx) {
            Err(f) => Err(f),
            Ok(v) => match v {
                Value::List(l) => list_rows_from(l, rule.head.len() as int, 0, Seq::empty()),
                _ => Err(fault(ErrKind::NotList)),
            },
        },
        BodyV::Fixed(name, inputs, opts) => fixed_rows(
            rels,
            tables,
            as_of,
            name,
            inputs,
            opts,
            customs,
            rule.head.len() as int,
            ctx,
        ),
    }
}

fn derive_rule(
    rels: &List<Relation>,
    tables: &List<Table>,
    as_of: Option<i64>,
    rule: &Rule,
    customs: &List<Custom>,
    ctx: Ctx,
) -> (r: Result<Rows, DbError>)
    ensures
        outcome(r) == rule_rows(rels@, tables@, as_of, rule@, customs@, ctx),
{
    match &rule.body {
        Body::Clauses(cs) => {
            let mut acc: Rows = List::new();
            let mut i: usize = 0;
            while i < cs.len()
                invariant
                    i <= cs@.len(),
                    rule@.body == BodyV::Clauses(cs@),
                    clauses_from(rels@, tables@, as_of, rule@.head, cs@, 0, ctx, Seq::empty())
                        == clauses_from(
                        rels@,
                        tables@,
                        as_of,
                        rule@.head,
                        cs@,
                        i as int,
                        ctx,
                        acc@,
                    ),
                decreases cs@.len() - i,
            {
                match clause(rels, tables, as_of, cs.get(i), branch(ctx, i)) {
                    Err(e) => {
                        return Err(e);
                    },
                    Ok(b) => match head_places(&rule.head, &b.cols) {
                        Err(e) => {
                            return Err(e);
                        },
                        Ok(ps) => {
                            acc = chained(acc, &pick_all(&b.rows, &ps));
                        },
                    },
                }
                i = i + 1;
            }
            Ok(acc)
        },
        Body::Rows(e) => match eval(e, &List::new(), &List::new(), ctx) {
            Err(x) => Err(x),
            Ok(v) => match v {
                DataValue::List(l) => list_rows(&l, rule.head.len()),
                _ => Err(err(ErrKind::NotList)),
            },
        },
        Body::Fixed(name, inputs, opts) => fixed(
            rels,
            tables,
            as_of,
            name,
            inputs,
            opts,
            customs,
            rule.head.len(),
            ctx,
        ),
    }
}

/// The rows that the rules of a name from place `i` on give, after `acc`.
pub open spec fn bag_from(
    rels: Seq<RelationV>,
    tables: Seq<TableV>,
    as_of: Option<i64>,
    rules: Seq<RuleV>,
    name: Seq<char>,
    customs: Seq<CustomV>,
    i: int,
    ctx: Ctx,
    acc: Seq<Seq<Value>>,
) -> Result<Seq<Seq<Value>>, Fault>
    decreases rules.len() - i,
{
    if i < 0 || i >= rules.len() {
        Ok(acc)
    } else if rules[i].name != name {
        bag_from(rels, tables, as_of, rules, name, customs, i + 1, ctx, acc)
    } else {
        match rule_rows(rels, tables, as_of, rules[i], customs, branched(ctx, i)) {
            Err(f) => Err(f),
            Ok(rows) => bag_from(rels, tables, as_of, rules, name, customs, i + 1, ctx, acc + rows),
        }
    }
}

fn bag(
    rels: &List<Relation>,
    tables: &List<Table>,
    as_of: Option<i64>,
    rules: &List<Rule>,
    name: &String,
    customs: &List<Custom>,
    ctx: Ctx,
) -> (r: Result<Rows, DbError>)
    ensures
        outcome(r) == bag_from(
            rels@,
            tables@,
            as_of,
            rules@,
            name@,
            customs@,
            0,
            ctx,
            Seq::empty(),
        ),
{
    let ghost goal = bag_from(
        rels@,
        tables@,
        as_of,
        rules@,
        name@,
        customs@,
        0,
        ctx,
        Seq::empty(),
    );
    let mut acc: Rows = List::new();
    let mut i: usize = 0;
    while i < rules.len()
        invariant
            i <= rules@.len(),
            goal == bag_from(
                rels@,
                tables@,
                as_of,
                rules@,
                name@,
                customs@,
                0,
                ctx,
                Seq::empty(),
            ),
            goal == bag_from(
                rels@,
                tables@,
                as_of,
                rules@,
                name@,
                customs@,
                i as int,
                ctx,
                acc@,
            ),
        decreases rules@.len() - i,
    {
        if rules.get(i).name == *name {
            match derive_rule(rels, tables, as_of, rules.get(i), customs, branch(ctx, i)) {
                Err(e) => {
                    return Err(e);
                },
                Ok(rows) => {
                    acc = chained(acc, &rows);
                },
            }
        }
        i = i + 1;
    }
    Ok(acc)
}

/// The rows of a unit after one step, where it had the rows `old`.
pub open spec fn settled(
    u: UnitV,
    customs: Seq<CustomV>,
    old: Seq<Seq<Value>>,
    new: Seq<Seq<Value>>,
) -> Result<
    Seq<Seq<Value>>,
    Fault,
> {
    match u.shape {
        Shape::Plain => Ok(sorted_of(new)),
        Shape::Normal => aggregated(u.ops, customs, new),
        Shape::Meet => aggregated(u.ops, customs, old + new),
        Shape::Bounded(k) => best_from(old + new, 0, k, Seq::empty()),
    }
}

fn settle(u: &Unit, customs: &List<Custom>, old: &Rows, new: Rows) -> (r: Result<Rows, DbError>)
    ensures
        outcome(r) == settled(u@, customs@, old@, new@),
{
    match u.shape {
        Shape::Plain => Ok(sorted(&new)),
        Shape::Normal => aggregate(&u.ops, customs, &new),
        Shape::Meet => aggregate(&u.ops, customs, &chained(old.dup(), &new)),
        Shape::Bounded(k) => best(&chained(old.dup(), &new), k),
    }
}

/// The width of a unit, where it is known: a head without columns takes that
/// of its rows.
pub open spec fn width_of(u: UnitV, rows: Seq<Seq<Value>>) -> Option<usize> {
    if u.ops.len() > 0 {
        Some(u.ops.len() as usize)
    } else if rows.len() > 0 {
        Some(rows[0].len() as usize)
    } else {
        None
    }
}

fn width(u: &Unit, rows: &Rows) -> (r: Option<usize>)
    ensures
        r == width_of(u@, rows@),
{
    if u.ops.len() > 0 {
        Some(u.ops.len())
    } else if rows.len() > 0 {
        Some(rows.get(0).len())
    } else {
        None
    }
}

/// The rows of the table of a name.
pub open spec fn rows_named(tables: Seq<TableV>, name: Seq<char>) -> Seq<Seq<Value>> {
    let t = table_from(tables, name, 0);
    if t < tables.len() {
        tables[t].rows
    } else {
        Seq::empty()
    }
}

fn rows_by_name(tables: &List<Table>, name: &String) -> (r: Rows)
    ensures
        r@ == rows_named(tables@, name@),
{
    let t = find_table(tables, name);
    if t < tables.len() {
        tables.get(t).rows.dup()
    } else {
        List::new()
    }
}

/// Tables with other rows in that of a unit.
pub open spec fn with_table(tables: Seq<TableV>, u: UnitV, rows: Seq<Seq<Value>>) -> Seq<TableV> {
    let t = table_from(tables, u.name, 0);
    if t < tables.len() {
        tables.update(t, TableV { name: u.name, arity: width_of(u, rows), rows })
    } else {
        tables
    }
}

/// The tables after every unit of a level, from place `i` on, took a step from
/// the tables `old`.
pub open spec fn step_from(
    rels: Seq<RelationV>,
    old: Seq<TableV>,
    as_of: Option<i64>,
    rules: Seq<RuleV>,
    units: Seq<UnitV>,
    levels: Seq<u64>,
    level: u64,
    customs: Seq<CustomV>,
    i: int,
    ctx: Ctx,
    acc: Seq<TableV>,
) -> Result<Seq<TableV>, Fault>
    decreases units.len() - i,
{
    if i < 0 || i >= units.len() {
        Ok(acc)
    } else if i >= levels.len() || levels[i] != level {
        step_from(rels, old, as_of, rules, units, levels, level, customs, i + 1, ctx, acc)
    } else {
        match bag_from(rels, old, as_of, rules, units[i].name, customs, 0, ctx, Seq::empty()) {
            Err(f) => Err(f),
            Ok(new) => match settled(units[i], customs, rows_named(old, units[i].name), new) {
                Err(f) => Err(f),
                Ok(rows) => step_from(
                    rels,
                    old,
                    as_of,
                    rules,
                    units,
                    levels,
                    level,
                    customs,
                    i + 1,
                    ctx,
                    with_table(acc, units[i], rows),
                ),
            },
        }
    }
}

fn step(
    rels: &List<Relation>,
    old: &List<Table>,
    as_of: Option<i64>,
    rules: &List<Rule>,
    units: &List<Unit>,
    levels: &Vec<u64>,
    level: u64,
    customs: &List<Custom>,
    ctx: Ctx,
) -> (r: Result<List<Table>, DbError>)
    ensures
        outcome(r) == step_from(
            rels@,
            old@,
            as_of,
            rules@,
            units@,
            levels@,
            level,
            customs@,
            0,
            ctx,
            old@,
        ),
{
    let mut acc: List<Table> = old.dup();
    let mut i: usize = 0;
    while i < units.len()
        invariant
            i <= units@.len(),
            step_from(
                rels@,
                old@,
                as_of,
                rules@,
                units@,
                levels@,
                level,
                customs@,
                0,
                ctx,
                old@,
            ) == step_from(
                rels@,
                old@,
                as_of,
                rules@,
                units@,
                levels@,
                level,
                customs@,
                i as int,
                ctx,
                acc@,
            ),
        decreases units@.len() - i,
    {
        if i < levels.len() && levels[i] == level {
            let u = units.get(i);
            match bag(rels, old, as_of, rules, &u.name, customs, ctx) {
                Err(e) => {
                    return Err(e);
                },
                Ok(new) => match settle(u, customs, &rows_by_name(old, &u.name), new) {
                    Err(e) => {
                        return Err(e);
                    },
                    Ok(rows) => {
                        let t = find_table(&acc, &u.name);
                        if t < acc.len() {
                            let arity = width(u, &rows);
                            acc.set(t, Table { name: u.name.clone(), arity, rows });
                        }
                    },
                },
            }
        }
        i = i + 1;
    }
    Ok(acc)
}

fn same_tables(a: &List<Table>, b: &List<Table>) -> (r: bool)
    ensures
        r == same_from(a@, b@, 0),
{
    let mut i: usize = 0;
    while i < a.len()
        invariant
            i <= a@.len(),
            same_from(a@, b@, 0) == same_from(a@, b@, i as int),
        decreases a@.len() - i,
    {
        if i >= b.len() || !same_rows(&a.get(i).rows, &b.get(i).rows) {
            return false;
        }
        i = i + 1;
    }
    true
}

/// Whether the tables from place `i` on have the same rows.
pub open spec fn same_from(a: Seq<TableV>, b: Seq<TableV>, i: int) -> bool
    decreases a.len() - i,
{
    if i < 0 || i >= a.len() {
        true
    } else {
        i < b.len() && a[i].rows == b[i].rows && same_from(a, b, i + 1)
    }
}

/// Whether some unit with bounded groups, from place `i` on, has other rows.
pub open spec fn bounded_moved_from(
    units: Seq<UnitV>,
    a: Seq<TableV>,
    b: Seq<TableV>,
    i: int,
) -> bool
    decreases units.len() - i,
{
    if i < 0 || i >= units.len() {
        false
    } else {
        (units[i].shape is Bounded && rows_named(a, units[i].name) != rows_named(b, units[i].name))
            || bounded_moved_from(units, a, b, i + 1)
    }
}

fn bounded_moved(units: &List<Unit>, a: &List<Table>, b: &List<Table>) -> (r: bool)
    ensures
        r == bounded_moved_from(units@, a@, b@, 0),
{
    let mut i: usize = 0;
    while i < units.len()
        invariant
            i <= units@.len(),
            bounded_moved_from(units@, a@, b@, 0) == bounded_moved_from(
                units@,
                a@,
                b@,
                i as int,
            ),
        decreases units@.len() - i,
    {
        let u = units.get(i);
        if let Shape::Bounded(_) = u.shape {
            if !same_rows(&rows_by_name(a, &u.name), &rows_by_name(b, &u.name)) {
                return true;
            }
        }
        i = i + 1;
    }
    false
}

/// How many steps a level may take.
pub const MOST_STEPS: u64 = 0xffff_ffff_ffff_ffff;

/// In how many steps of a level bounded groups may change.
pub const MOST_MOVES: u64 = 4096;

/// The tables once a step changes no rows.
pub open spec fn level_from(
    rels: Seq<RelationV>,
    tables: Seq<TableV>,
    as_of: Option<i64>,
    rules: Seq<RuleV>,
    units: Seq<UnitV>,
    levels: Seq<u64>,
    level: u64,
    customs: Seq<CustomV>,
    ctx: Ctx,
    left: nat,
    moves: nat,
) -> Result<Seq<TableV>, Fault>
    decreases left,
{
    match step_from(rels, tables, as_of, rules, units, levels, level, customs, 0, ctx, tables) {
        Err(f) => Err(f),
        Ok(next) => if same_from(tables, next, 0) {
            Ok(next)
        } else if left == 0 {
            Err(fault(ErrKind::Diverged))
        } else if bounded_moved_from(units, tables, next, 0) {
            if moves == 0 {
                Err(fault(ErrKind::Diverged))
            } else {
                level_from(
                    rels,
                    next,
                    as_of,
                    rules,
                    units,
                    levels,
                    level,
                    customs,
                    ctx,
                    (left - 1) as nat,
                    (moves - 1) as nat,
                )
            }
        } else {
            level_from(
                rels,
                next,
                as_of,
                rules,
                units,
                levels,
                level,
                customs,
                ctx,
                (left - 1) as nat,
                moves,
            )
        },
    }
}

/// The tables once a level is complete.
#[verifier::opaque]
pub open spec fn level_result(
    rels: Seq<RelationV>,
    tables: Seq<TableV>,
    as_of: Option<i64>,
    rules: Seq<RuleV>,
    units: Seq<UnitV>,
    levels: Seq<u64>,
    level: u64,
    customs: Seq<CustomV>,
    ctx: Ctx,
) -> Result<Seq<TableV>, Fault> {
    level_from(
        rels,
        tables,
        as_of,
        rules,
        units,
        levels,
        level,
        customs,
        ctx,
        MOST_STEPS as nat,
        MOST_MOVES as nat,
    )
}

fn run_level(
    rels: &List<Relation>,
    tables: List<Table>,
    as_of: Option<i64>,
    rules: &List<Rule>,
    units: &List<Unit>,
    levels: &Vec<u64>,
    level: u64,
    customs: &List<Custom>,
    ctx: Ctx,
) -> (r: Result<List<Table>, DbError>)
    ensures
        outcome(r) == level_result(
            rels@,
            tables@,
            as_of,
            rules@,
            units@,
            levels@,
            level,
            customs@,
            ctx,
        ),
{
    let ghost goal = level_result(
        rels@,
        tables@,
        as_of,
        rules@,
        units@,
        levels@,
        level,
        customs@,
        ctx,
    );
    let mut cur = tables;
    let mut left: u64 = MOST_STEPS;
    let mut moves: u64 = MOST_MOVES;
    assert(goal == level_from(
        rels@,
        cur@,
        as_of,
        rules@,
        units@,
        levels@,
        level,
        customs@,
        ctx,
        left as nat,
        moves as nat,
    )) by {
        reveal(level_result);
    }
    loop
        invariant
            goal == level_result(
                rels@,
                tables@,
                as_of,
                rules@,
                units@,
                levels@,
                level,
                customs@,
                ctx,
            ),
            goal == level_from(
                rels@,
                cur@,
                as_of,
                rules@,
                units@,
                levels@,
                level,
                customs@,
                ctx,
                left as nat,
                moves as nat,
            ),
        decreases left,
    {
        match step(rels, &cur, as_of, rules, units, levels, level, customs, ctx) {
            Err(e) => {
                return Err(e);
            },
            Ok(next) => {
                if same_tables(&cur, &next) {
                    return Ok(next);
                }
                if left == 0 {
                    return Err(err(ErrKind::Diverged));
                }
                if bounded_moved(units, &cur, &next) {
                    if moves == 0 {
                        return Err(err(ErrKind::Diverged));
                    }
                    moves = moves - 1;
                }
                left = left - 1;
                cur = next;
            },
        }
    }
}

/// The tables after the levels from `level` on, up to the greatest possible.
pub open spec fn levels_run(
    rels: Seq<RelationV>,
    tables: Seq<TableV>,
    as_of: Option<i64>,
    rules: Seq<RuleV>,
    units: Seq<UnitV>,
    levels: Seq<u64>,
    level: int,
    customs: Seq<CustomV>,
    ctx: Ctx,
) -> Result<Seq<TableV>, Fault>
    decreases units.len() + 1 - level,
{
    if level < 0 || level > units.len() {
        Ok(tables)
    } else {
        match level_result(
            rels,
            tables,
            as_of,
            rules,
            units,
            levels,
            level as u64,
            customs,
            ctx,
        ) {
            Err(f) => Err(f),
            Ok(next) => levels_run(
                rels,
                next,
                as_of,
                rules,
                units,
                levels,
                level + 1,
                customs,
                ctx,
            ),
        }
    }
}

fn run_levels(
    rels: &List<Relation>,
    tables: List<Table>,
    as_of: Option<i64>,
    rules: &List<Rule>,
    units: &List<Unit>,
    levels: &Vec<u64>,
    customs: &List<Custom>,
    ctx: Ctx,
) -> (r: Result<List<Table>, DbError>)
    ensures
        outcome(r) == levels_run(
            rels@,
            tables@,
            as_of,
            rules@,
            units@,
            levels@,
            0,
            customs@,
            ctx,
        ),
{
    let ghost first = tables@;
    let mut cur = tables;
    let n: usize = units.len();
    let mut level: usize = 0;
    loop
        invariant
            first == tables@,
            n == units@.len(),
            level <= n,
            levels_run(rels@, first, as_of, rules@, units@, levels@, 0, customs@, ctx)
                == levels_run(
                rels@,
                cur@,
                as_of,
                rules@,
                units@,
                levels@,
                level as int,
                customs@,
                ctx,
            ),
        decreases n - level,
    {
        match run_level(rels, cur, as_of, rules, units, levels, level as u64, customs, ctx) {
            Err(e) => {
                return Err(e);
            },
            Ok(next) => {
                cur = next;
            },
        }
        if level == n {
            assert(levels_run(
                rels@,
                cur@,
                as_of,
                rules@,
                units@,
                levels@,
                level as int + 1,
                customs@,
                ctx,
            ) == Ok::<Seq<TableV>, Fault>(cur@));
            return Ok(cur);
        }
        level = level + 1;
    }
}

/// Empty tables for the units from place `i` on, after `acc`.
pub open spec fn blank_from(units: Seq<UnitV>, i: int, acc: Seq<TableV>) -> Seq<TableV>
    decreases units.len() - i,
{
    if i < 0 || i >= units.len() {
        acc
    } else {
        blank_from(
            units,
            i + 1,
            acc.push(
                TableV {
                    name: units[i].name,
                    arity: width_of(units[i], Seq::empty()),
                    rows: Seq::empty(),
                },
            ),
        )
    }
}

fn blank(units: &List<Unit>, given: &List<Table>) -> (r: List<Table>)
    ensures
        r@ == blank_from(units@, 0, given@),
{
    let mut acc: List<Table> = given.dup();
    let mut i: usize = 0;
    while i < units.len()
        invariant
            i <= units@.len(),
            blank_from(units@, 0, given@) == blank_from(units@, i as int, acc@),
        decreases units@.len() - i,
    {
        let u = units.get(i);
        let rows: Rows = List::new();
        let arity = width(u, &rows);
        acc.push(Table { name: u.name.clone(), arity, rows });
        i = i + 1;
    }
    acc
}

/// Whether an atom reads a relation with transaction times.
pub open spec fn reads_tt(rels: Seq<RelationV>, a: AtomV) -> bool {
    match a {
        AtomV::Stored(name, _, _, _) => {
            let p = rel_place(rels, name);
            p < rels.len() && (kind_of(rels[p].keys) == RelKind::Tx || kind_of(rels[p].keys)
                == RelKind::Bi)
        },
        _ => false,
    }
}

fn atom_reads_tt(rels: &List<Relation>, a: &Atom) -> (r: bool)
    ensures
        r == reads_tt(rels@, a@),
{
    match a {
        Atom::Stored(name, _, _, _) => {
            let p = find_rel(rels, name);
            if p < rels.len() {
                let k = kind(&rels.get(p).keys);
                k == RelKind::Tx || k == RelKind::Bi
            } else {
                false
            }
        },
        _ => false,
    }
}

pub open spec fn atoms_read_tt(rels: Seq<RelationV>, atoms: Seq<AtomV>, i: int) -> bool
    decreases atoms.len() - i,
{
    if i < 0 || i >= atoms.len() {
        false
    } else {
        reads_tt(rels, atoms[i]) || atoms_read_tt(rels, atoms, i + 1)
    }
}

fn some_atom_reads_tt(rels: &List<Relation>, atoms: &List<Atom>) -> (r: bool)
    ensures
        r == atoms_read_tt(rels@, atoms@, 0),
{
    let mut i: usize = 0;
    while i < atoms.len()
        invariant
            i <= atoms@.len(),
            atoms_read_tt(rels@, atoms@, 0) == atoms_read_tt(rels@, atoms@, i as int),
        decreases atoms@.len() - i,
    {
        if atom_reads_tt(rels, atoms.get(i)) {
            return true;
        }
        i = i + 1;
    }
    false
}

pub open spec fn clauses_read_tt(rels: Seq<RelationV>, cs: Seq<Seq<AtomV>>, i: int) -> bool
    decreases cs.len() - i,
{
    if i < 0 || i >= cs.len() {
        false
    } else {
        atoms_read_tt(rels, cs[i], 0) || clauses_read_tt(rels, cs, i + 1)
    }
}

fn some_clause_reads_tt(rels: &List<Relation>, cs: &List<List<Atom>>) -> (r: bool)
    ensures
        r == clauses_read_tt(rels@, cs@, 0),
{
    let mut i: usize = 0;
    while i < cs.len()
        invariant
            i <= cs@.len(),
            clauses_read_tt(rels@, cs@, 0) == clauses_read_tt(rels@, cs@, i as int),
        decreases cs@.len() - i,
    {
        if some_atom_reads_tt(rels, cs.get(i)) {
            return true;
        }
        i = i + 1;
    }
    false
}

/// Whether the rules from place `i` on read a relation with transaction times.
pub open spec fn rules_read_tt(rels: Seq<RelationV>, rules: Seq<RuleV>, i: int) -> bool
    decreases rules.len() - i,
{
    if i < 0 || i >= rules.len() {
        false
    } else {
        (match rules[i].body {
            BodyV::Clauses(cs) => clauses_read_tt(rels, cs, 0),
            BodyV::Rows(_) => false,
            BodyV::Fixed(_, inputs, _) => atoms_read_tt(rels, inputs, 0),
        }) || rules_read_tt(rels, rules, i + 1)
    }
}

fn some_rule_reads_tt(rels: &List<Relation>, rules: &List<Rule>) -> (r: bool)
    ensures
        r == rules_read_tt(rels@, rules@, 0),
{
    let mut i: usize = 0;
    while i < rules.len()
        invariant
            i <= rules@.len(),
            rules_read_tt(rels@, rules@, 0) == rules_read_tt(rels@, rules@, i as int),
        decreases rules@.len() - i,
    {
        let b = match &rules.get(i).body {
            Body::Clauses(cs) => some_clause_reads_tt(rels, cs),
            Body::Rows(_) => false,
            Body::Fixed(_, inputs, _) => some_atom_reads_tt(rels, inputs),
        };
        if b {
            return true;
        }
        i = i + 1;
    }
    false
}

/// The rows from place `i` on that were not seen before, after `acc`.
pub open spec fn distinct_from(
    rows: Seq<Seq<Value>>,
    i: int,
    seen: Seq<Seq<Value>>,
    acc: Seq<Seq<Value>>,
) -> Seq<Seq<Value>>
    decreases rows.len() - i,
{
    if i < 0 || i >= rows.len() {
        acc
    } else if with_row(seen, rows[i]).len() > seen.len() {
        distinct_from(rows, i + 1, with_row(seen, rows[i]), acc.push(rows[i]))
    } else {
        distinct_from(rows, i + 1, with_row(seen, rows[i]), acc)
    }
}

fn distinct(rows: &Rows) -> (r: Rows)
    ensures
        r@ == distinct_from(rows@, 0, Seq::empty(), Seq::empty()),
{
    let mut seen: Rows = List::new();
    let mut acc: Rows = List::new();
    let mut i: usize = 0;
    while i < rows.len()
        invariant
            i <= rows@.len(),
            distinct_from(rows@, 0, Seq::empty(), Seq::empty()) == distinct_from(
                rows@,
                i as int,
                seen@,
                acc@,
            ),
        decreases rows@.len() - i,
    {
        if add_row(&mut seen, rows.get(i).dup()) {
            acc.push(rows.get(i).dup());
        }
        i = i + 1;
    }
    acc
}

/// The rows without the first `offset`, and no more than `limit`.
pub open spec fn windowed(
    rows: Seq<Seq<Value>>,
    offset: u64,
    limit: Option<u64>,
) -> Seq<Seq<Value>> {
    let start = if offset < rows.len() { offset as int } else { rows.len() as int };
    let end = match limit {
        Some(l) => if start + l < rows.len() {
            start + l
        } else {
            rows.len() as int
        },
        None => rows.len() as int,
    };
    rows.subrange(start, end)
}

pub fn window(rows: &Rows, offset: u64, limit: Option<u64>) -> (r: Rows)
    ensures
        r@ == windowed(rows@, offset, limit),
{
    let n = rows.len();
    let start: usize = if offset < n as u64 {
        offset as usize
    } else {
        n
    };
    let end: usize = match limit {
        Some(l) => if (start as u128 + l as u128) < n as u128 {
            start + l as usize
        } else {
            n
        },
        None => n,
    };
    let mut r: Rows = List::new();
    let mut i: usize = start;
    while i < end
        invariant
            start <= i <= end <= rows@.len(),
            r@ =~= rows@.subrange(start as int, i as int),
        decreases end - i,
    {
        r.push(rows.get(i).dup());
        i = i + 1;
    }
    r
}

/// The order of two rows by the columns from place `i` on.
pub open spec fn sort_order(
    a: Seq<Value>,
    b: Seq<Value>,
    keys: Seq<SortKeyV>,
    cols: Seq<Seq<char>>,
    i: int,
) -> Sign
    decreases keys.len() - i,
{
    if i < 0 || i >= keys.len() {
        Sign::Same
    } else {
        let p = place(cols, keys[i].var);
        if p >= a.len() || p >= b.len() {
            sort_order(a, b, keys, cols, i + 1)
        } else {
            match order(a[p], b[p]) {
                Sign::Same => sort_order(a, b, keys, cols, i + 1),
                Sign::Less => if keys[i].down {
                    Sign::More
                } else {
                    Sign::Less
                },
                Sign::More => if keys[i].down {
                    Sign::Less
                } else {
                    Sign::More
                },
            }
        }
    }
}

fn compare_by(a: &Tuple, b: &Tuple, keys: &List<SortKey>, cols: &List<String>) -> (r: Sign)
    ensures
        r == sort_order(a@, b@, keys@, cols@, 0),
{
    let mut i: usize = 0;
    while i < keys.len()
        invariant
            i <= keys@.len(),
            sort_order(a@, b@, keys@, cols@, 0) == sort_order(a@, b@, keys@, cols@, i as int),
        decreases keys@.len() - i,
    {
        let k = keys.get(i);
        let p = find(cols, &k.var);
        if p < a.len() && p < b.len() {
            match compare(a.get(p), b.get(p)) {
                Sign::Same => {},
                Sign::Less => {
                    return if k.down {
                        Sign::More
                    } else {
                        Sign::Less
                    };
                },
                Sign::More => {
                    return if k.down {
                        Sign::Less
                    } else {
                        Sign::More
                    };
                },
            }
        }
        i = i + 1;
    }
    Sign::Same
}

/// The place behind the last of the first `i` rows that does not come later.
pub open spec fn sort_slot(
    rows: Seq<Seq<Value>>,
    row: Seq<Value>,
    keys: Seq<SortKeyV>,
    cols: Seq<Seq<char>>,
    i: int,
) -> int
    decreases i,
{
    if i <= 0 || i > rows.len() {
        0
    } else if sort_order(rows[i - 1], row, keys, cols, 0) == Sign::More {
        sort_slot(rows, row, keys, cols, i - 1)
    } else {
        i
    }
}

/// The rows from place `i` on, each put where the sort keys want it.
pub open spec fn arranged_from(
    rows: Seq<Seq<Value>>,
    keys: Seq<SortKeyV>,
    cols: Seq<Seq<char>>,
    i: int,
    acc: Seq<Seq<Value>>,
) -> Seq<Seq<Value>>
    decreases rows.len() - i,
{
    if i < 0 || i >= rows.len() {
        acc
    } else {
        arranged_from(
            rows,
            keys,
            cols,
            i + 1,
            acc.insert(sort_slot(acc, rows[i], keys, cols, acc.len() as int), rows[i]),
        )
    }
}

fn arrange(rows: &Rows, keys: &List<SortKey>, cols: &List<String>) -> (r: Rows)
    ensures
        r@ == arranged_from(rows@, keys@, cols@, 0, Seq::empty()),
{
    let mut acc: Rows = List::new();
    let mut i: usize = 0;
    while i < rows.len()
        invariant
            i <= rows@.len(),
            arranged_from(rows@, keys@, cols@, 0, Seq::empty()) == arranged_from(
                rows@,
                keys@,
                cols@,
                i as int,
                acc@,
            ),
        decreases rows@.len() - i,
    {
        let row = rows.get(i);
        let mut k: usize = acc.len();
        while k > 0 && compare_by(acc.get(k - 1), row, keys, cols) == Sign::More
            invariant
                k <= acc@.len(),
                sort_slot(acc@, row@, keys@, cols@, acc@.len() as int) == sort_slot(
                    acc@,
                    row@,
                    keys@,
                    cols@,
                    k as int,
                ),
            decreases k,
        {
            k = k - 1;
        }
        assert(sort_slot(acc@, row@, keys@, cols@, k as int) == k);
        acc.insert(k, row.dup());
        i = i + 1;
    }
    acc
}

/// The name of a column of a head.
pub open spec fn label_of(h: HeadItemV) -> Seq<char> {
    match h.aggr {
        None => h.var,
        Some(a) => a.name + "("@ + h.var + ")"@,
    }
}

fn label(h: &HeadItem) -> (r: String)
    ensures
        r@ == label_of(h@),
{
    match &h.aggr {
        None => h.var.clone(),
        Some(a) => a.name.clone().concat("(").concat(h.var.as_str()).concat(")"),
    }
}

/// The names of the columns of a head.
pub open spec fn labels_of(head: Seq<HeadItemV>) -> Seq<Seq<char>> {
    Seq::new(head.len(), |i: int| label_of(head[i]))
}

fn labels(head: &List<HeadItem>) -> (r: List<String>)
    ensures
        r@ == labels_of(head@),
{
    let mut r: List<String> = List::new();
    let mut i: usize = 0;
    while i < head.len()
        invariant
            i <= head@.len(),
            r@ =~= labels_of(head@).take(i as int),
        decreases head@.len() - i,
    {
        r.push(label(head.get(i)));
        i = i + 1;
    }
    assert(labels_of(head@).take(i as int) =~= labels_of(head@));
    r
}

/// The first rule of a name from place `i` on, and the length where there is
/// none.
pub open spec fn rule_from(rules: Seq<RuleV>, name: Seq<char>, i: int) -> int
    decreases rules.len() - i,
{
    if i < 0 || i >= rules.len() {
        rules.len() as int
    } else if rules[i].name == name {
        i
    } else {
        rule_from(rules, name, i + 1)
    }
}

/// The first rule of a name.
pub fn find_rule(rules: &List<Rule>, name: &String) -> (r: usize)
    ensures
        r == rule_from(rules@, name@, 0),
        r <= rules@.len(),
{
    let mut i: usize = 0;
    while i < rules.len()
        invariant
            i <= rules@.len(),
            rule_from(rules@, name@, 0) == rule_from(rules@, name@, i as int),
        decreases rules@.len() - i,
    {
        if rules.get(i).name == *name {
            return i;
        }
        i = i + 1;
    }
    i
}

/// The rows that a query shows, of those that its entry has in the end and of
/// those in the order in which they were found.
pub open spec fn shown_rows(
    p: ProgramV,
    plain: bool,
    labels: Seq<Seq<char>>,
    table: Seq<Seq<Value>>,
    bag: Seq<Seq<Value>>,
) -> Seq<Seq<Value>> {
    if p.sort.len() > 0 {
        windowed(arranged_from(table, p.sort, labels, 0, Seq::empty()), p.offset, p.limit)
    } else if plain {
        sorted_of(
            windowed(distinct_from(bag, 0, Seq::empty(), Seq::empty()), p.offset, p.limit),
        )
    } else {
        windowed(table, p.offset, p.limit)
    }
}

/// The rows of a query with the names of their columns. `given` are tables
/// that the rules may refer to besides their own.
#[verifier::opaque]
pub open spec fn answer_of(
    rels: Seq<RelationV>,
    given: Seq<TableV>,
    p: ProgramV,
    customs: Seq<CustomV>,
    ctx: Ctx,
) -> Result<SourceV, Fault> {
    match selected(p.as_of, true, ctx) {
        Err(f) => Err(f),
        Ok(as_of) => if as_of is Some && !rules_read_tt(rels, p.rules, 0) {
            Err(fault(ErrKind::AsOfUnused))
        } else {
            match units_from(p.rules, customs, 0, Seq::empty()) {
                Err(f) => Err(f),
                Ok(units) => match strata_of(p.rules, units) {
                    Err(f) => Err(f),
                    Ok(levels) => {
                        let e = rule_from(p.rules, "?"@, 0);
                        let u = unit_from(units, "?"@, 0);
                        if e >= p.rules.len() || u >= units.len() {
                            Err(fault(ErrKind::NoEntry))
                        } else {
                            match levels_run(
                                rels,
                                blank_from(units, 0, given),
                                as_of,
                                p.rules,
                                units,
                                levels,
                                0,
                                customs,
                                ctx,
                            ) {
                                Err(f) => Err(f),
                                Ok(tables) => match bag_from(
                                    rels,
                                    tables,
                                    as_of,
                                    p.rules,
                                    "?"@,
                                    customs,
                                    0,
                                    ctx,
                                    Seq::empty(),
                                ) {
                                    Err(f) => Err(f),
                                    Ok(bag) => Ok(
                                        SourceV {
                                            cols: labels_of(p.rules[e].head),
                                            rows: shown_rows(
                                                p,
                                                units[u].shape == Shape::Plain,
                                                labels_of(p.rules[e].head),
                                                rows_named(tables, "?"@),
                                                bag,
                                            ),
                                        },
                                    ),
                                },
                            }
                        }
                    },
                },
            }
        },
    }
}

/// The rows of a query with the names of their columns.
pub fn answer(
    rels: &List<Relation>,
    given: &List<Table>,
    p: &Program,
    customs: &List<Custom>,
    ctx: Ctx,
) -> (r: Result<Source, DbError>)
    ensures
        outcome(r) == answer_of(rels@, given@, p@, customs@, ctx),
{
    proof {
        reveal(answer_of);
    }
    match select(&p.as_of, true, ctx) {
        Err(e) => Err(e),
        Ok(as_of) => {
            if as_of.is_some() && !some_rule_reads_tt(rels, &p.rules) {
                return Err(err(ErrKind::AsOfUnused));
            }
            match make_units(&p.rules, customs) {
                Err(e) => Err(e),
                Ok(units) => match stratify(&p.rules, &units) {
                    Err(e) => Err(e),
                    Ok(levels) => {
                        let entry = "?".to_owned();
                        let e = find_rule(&p.rules, &entry);
                        let u = find_unit(&units, &entry);
                        if e >= p.rules.len() || u >= units.len() {
                            return Err(err(ErrKind::NoEntry));
                        }
                        match run_levels(
                            rels,
                            blank(&units, given),
                            as_of,
                            &p.rules,
                            &units,
                            &levels,
                            customs,
                            ctx,
                        ) {
                            Err(e) => Err(e),
                            Ok(tables) => match bag(rels, &tables, as_of, &p.rules, &entry, customs, ctx) {
                                Err(e) => Err(e),
                                Ok(found) => {
                                    let cols = labels(&p.rules.get(e).head);
                                    let table = rows_by_name(&tables, &entry);
                                    let rows = if p.sort.len() > 0 {
                                        window(
                                            &arrange(&table, &p.sort, &cols),
                                            p.offset,
                                            p.limit,
                                        )
                                    } else if units.get(u).shape == Shape::Plain {
                                        sorted(&window(&distinct(&found), p.offset, p.limit))
                                    } else {
                                        window(&table, p.offset, p.limit)
                                    };
                                    Ok(Source { cols, rows })
                                },
                            },
                        }
                    },
                },
            }
        },
    }
}

} // verus!
