//! Rules that users register.
use vstd::prelude::*;

use crate::aggr::{Custom, CustomV};
use crate::bind::{Table, TableV, find_table, input, input_of, table_from};
use crate::error::{DbError, ErrKind, Fault, err, err_on, fault, fault_on, outcome};
use crate::expr::{Ctx, eval, eval_of, int_of, make_int};
use crate::fixed_point::product;
use crate::list::{Dup, List, opt_of};
use crate::query::{Atom, AtomV, Field, FieldV};
use crate::stmt::{Param, ParamV};
use crate::store::{Relation, RelationV};
use crate::table::Rows;
use crate::value::{DataValue, Tuple, Value};

verus! {

/// A rule that makes rows of the rows of its input and of its options.
pub trait FixedRule {
    /// How many columns the rows have.
    spec fn arity_view(&self) -> usize;

    /// The rows.
    spec fn rows_view(&self, input: Seq<Seq<Value>>, opts: Seq<ParamV>) -> Result<
        Seq<Seq<Value>>,
        Fault,
    >;

    fn arity(&self) -> (r: usize)
        ensures
            r == self.arity_view(),
    ;

    fn run(&self, input: &Rows, opts: &List<Param>) -> (r: Result<Rows, DbError>)
        ensures
            outcome(r) == self.rows_view(input@, opts@),
    ;
}

/// The value of an option from place `i` on, where it is given.
pub open spec fn option_from(opts: Seq<ParamV>, name: Seq<char>, i: int) -> Option<Value>
    decreases opts.len() - i,
{
    if i < 0 || i >= opts.len() {
        None
    } else if opts[i].name == name {
        Some(opts[i].value)
    } else {
        option_from(opts, name, i + 1)
    }
}

/// An option that is an integer, and another number where it is not given.
pub open spec fn integer_option(opts: Seq<ParamV>, name: Seq<char>, other: i64) -> Result<
    i64,
    Fault,
> {
    match option_from(opts, name, 0) {
        None => Ok(other),
        Some(Value::Int(n)) => Ok(n),
        Some(_) => Err(fault_on(ErrKind::FixedRuleArgs, name)),
    }
}

/// The value of an option, where it is given.
pub fn find_option(opts: &List<Param>, name: &str) -> (r: Option<DataValue>)
    ensures
        opt_of(r) == option_from(opts@, name@, 0),
{
    let wanted = name.to_owned();
    let mut i: usize = 0;
    while i < opts.len()
        invariant
            i <= opts@.len(),
            wanted@ == name@,
            option_from(opts@, name@, 0) == option_from(opts@, name@, i as int),
        decreases opts@.len() - i,
    {
        if opts.get(i).name == wanted {
            return Some(opts.get(i).value.dup());
        }
        i = i + 1;
    }
    None
}

/// An option that is an integer, and another number where it is not given.
pub fn get_integer(opts: &List<Param>, name: &str, other: i64) -> (r: Result<i64, DbError>)
    ensures
        outcome(r) == integer_option(opts@, name@, other),
{
    match find_option(opts, name) {
        None => Ok(other),
        Some(DataValue::Int(n)) => Ok(n),
        Some(_) => Err(err_on(ErrKind::FixedRuleArgs, name)),
    }
}

/// The sum of the integers of a row from place `i` on, added to `acc`.
pub open spec fn sum_from(row: Seq<Value>, i: int, acc: int) -> int
    decreases row.len() - i,
{
    if i < 0 || i >= row.len() {
        acc
    } else {
        match row[i] {
            Value::Int(n) => sum_from(row, i + 1, acc + n),
            _ => sum_from(row, i + 1, acc),
        }
    }
}

/// The sums of the rows from place `i` on, multiplied by a number.
pub open spec fn sums_from(
    rows: Seq<Seq<Value>>,
    by: int,
    i: int,
    acc: Seq<Seq<Value>>,
) -> Result<Seq<Seq<Value>>, Fault>
    decreases rows.len() - i,
{
    if i < 0 || i >= rows.len() {
        Ok(acc)
    } else {
        match int_of(sum_from(rows[i], 0, 0)) {
            Ok(Value::Int(s)) => match int_of(s * by) {
                Ok(v) => sums_from(rows, by, i + 1, acc.push(seq![v])),
                Err(f) => Err(f),
            },
            Ok(_) => Err(fault(ErrKind::Overflow)),
            Err(f) => Err(f),
        }
    }
}

/// Adds up the integers of each row, and multiplies the sum by the option
/// `mult`, or by two where it is not given.
pub struct SumCols;

impl FixedRule for SumCols {
    open spec fn arity_view(&self) -> usize {
        1
    }

    open spec fn rows_view(&self, input: Seq<Seq<Value>>, opts: Seq<ParamV>) -> Result<
        Seq<Seq<Value>>,
        Fault,
    > {
        match integer_option(opts, "mult"@, 2) {
            Err(f) => Err(f),
            Ok(by) => sums_from(input, by as int, 0, Seq::empty()),
        }
    }

    fn arity(&self) -> (r: usize) {
        1
    }

    fn run(&self, input: &Rows, opts: &List<Param>) -> (r: Result<Rows, DbError>) {
        let by = match get_integer(opts, "mult", 2) {
            Err(e) => {
                return Err(e);
            },
            Ok(by) => by,
        };
        let ghost goal = sums_from(input@, by as int, 0, Seq::empty());
        let mut acc: Rows = List::new();
        let mut i: usize = 0;
        while i < input.len()
            invariant
                i <= input@.len(),
                goal == self.rows_view(input@, opts@),
                goal == sums_from(input@, by as int, i as int, acc@),
            decreases input@.len() - i,
        {
            match sum(input.get(i)) {
                Err(e) => {
                    return Err(e);
                },
                Ok(s) => match make_int(product(s, by)) {
                    Err(e) => {
                        return Err(e);
                    },
                    Ok(v) => {
                        let ghost w = v@;
                        let mut row: Tuple = List::new();
                        row.push(v);
                        assert(row@ =~= seq![w]);
                        acc.push(row);
                    },
                },
            }
            i = i + 1;
        }
        Ok(acc)
    }
}

/// What a sum is, where it fits.
pub open spec fn sum_of(row: Seq<Value>) -> Result<i64, Fault> {
    match int_of(sum_from(row, 0, 0)) {
        Ok(Value::Int(s)) => Ok(s),
        Ok(_) => Err(fault(ErrKind::Overflow)),
        Err(f) => Err(f),
    }
}

fn sum(row: &Tuple) -> (r: Result<i64, DbError>)
    ensures
        outcome(r) == sum_of(row@),
{
    let mut acc: i128 = 0;
    let mut i: usize = 0;
    while i < row.len()
        invariant
            i <= row@.len(),
            -0x8000_0000_0000_0000 * i <= acc <= 0x7fff_ffff_ffff_ffff * i,
            sum_from(row@, 0, 0) == sum_from(row@, i as int, acc as int),
        decreases row@.len() - i,
    {
        match row.get(i) {
            DataValue::Int(n) => {
                acc = acc + *n as i128;
            },
            _ => {},
        }
        i = i + 1;
    }
    match make_int(acc) {
        Ok(DataValue::Int(s)) => Ok(s),
        Ok(_) => Err(err(ErrKind::Overflow)),
        Err(e) => Err(e),
    }
}

/// The place of a registered rule from place `i` on, and the length where there
/// is none of the name.
pub open spec fn rule_place(customs: Seq<CustomV>, name: Seq<char>, i: int) -> int
    decreases customs.len() - i,
{
    if i < 0 || i >= customs.len() {
        customs.len() as int
    } else if customs[i].rule is Some && customs[i].name == name {
        i
    } else {
        rule_place(customs, name, i + 1)
    }
}

/// The place of a registered rule.
pub fn find_custom_rule(customs: &List<Custom>, name: &String) -> (r: usize)
    ensures
        r == rule_place(customs@, name@, 0),
        r <= customs@.len(),
        r < customs@.len() ==> customs@[r as int].rule is Some,
{
    let mut i: usize = 0;
    while i < customs.len()
        invariant
            i <= customs@.len(),
            rule_place(customs@, name@, 0) == rule_place(customs@, name@, i as int),
        decreases customs@.len() - i,
    {
        if customs.get(i).is_rule() && customs.get(i).name == *name {
            return i;
        }
        i = i + 1;
    }
    i
}

/// The values of options from place `i` on, after `acc`.
pub open spec fn values_from(opts: Seq<FieldV>, i: int, ctx: Ctx, acc: Seq<ParamV>) -> Result<
    Seq<ParamV>,
    Fault,
>
    decreases opts.len() - i,
{
    if i < 0 || i >= opts.len() {
        Ok(acc)
    } else {
        match eval_of(opts[i].term, Seq::empty(), Seq::empty(), ctx) {
            Err(f) => Err(f),
            Ok(value) => values_from(
                opts,
                i + 1,
                ctx,
                acc.push(ParamV { name: opts[i].name, value }),
            ),
        }
    }
}

fn values(opts: &List<Field>, ctx: Ctx) -> (r: Result<List<Param>, DbError>)
    ensures
        outcome(r) == values_from(opts@, 0, ctx, Seq::empty()),
{
    let mut acc: List<Param> = List::new();
    let mut i: usize = 0;
    while i < opts.len()
        invariant
            i <= opts@.len(),
            values_from(opts@, 0, ctx, Seq::empty()) == values_from(opts@, i as int, ctx, acc@),
        decreases opts@.len() - i,
    {
        match eval(&opts.get(i).term, &List::new(), &List::new(), ctx) {
            Err(e) => {
                return Err(e);
            },
            Ok(value) => {
                acc.push(Param { name: opts.get(i).name.clone(), value });
            },
        }
        i = i + 1;
    }
    Ok(acc)
}

/// The rows that an input of a rule has: those of a rule without terms as they
/// are.
pub open spec fn raw_rows(
    rels: Seq<RelationV>,
    tables: Seq<TableV>,
    as_of: Option<i64>,
    a: AtomV,
    ctx: Ctx,
) -> Result<Seq<Seq<Value>>, Fault> {
    match a {
        AtomV::Rule(name, terms, _) => {
            let t = table_from(tables, name, 0);
            if terms.len() == 0 && t < tables.len() {
                Ok(tables[t].rows)
            } else {
                match input_of(rels, tables, as_of, a, ctx) {
                    Err(f) => Err(f),
                    Ok((_, rows)) => Ok(rows),
                }
            }
        },
        _ => match input_of(rels, tables, as_of, a, ctx) {
            Err(f) => Err(f),
            Ok((_, rows)) => Ok(rows),
        },
    }
}

fn get_raw(
    rels: &List<Relation>,
    tables: &List<Table>,
    as_of: Option<i64>,
    a: &Atom,
    ctx: Ctx,
) -> (r: Result<Rows, DbError>)
    ensures
        outcome(r) == raw_rows(rels@, tables@, as_of, a@, ctx),
{
    match a {
        Atom::Rule(name, terms, _) => {
            let t = find_table(tables, name);
            if terms.len() == 0 && t < tables.len() {
                return Ok(tables.get(t).rows.dup());
            }
        },
        _ => {},
    }
    match input(rels, tables, as_of, a, ctx) {
        Err(e) => Err(e),
        Ok((_, rows)) => Ok(rows),
    }
}

/// The rows of the one input of a rule and the values of its options, for a head
/// of `n` columns or of none.
pub open spec fn prepared(
    name: Seq<char>,
    arity: usize,
    rels: Seq<RelationV>,
    tables: Seq<TableV>,
    as_of: Option<i64>,
    inputs: Seq<AtomV>,
    opts: Seq<FieldV>,
    n: int,
    ctx: Ctx,
) -> Result<(Seq<Seq<Value>>, Seq<ParamV>), Fault> {
    if inputs.len() != 1 {
        Err(fault_on(ErrKind::FixedRuleArgs, name))
    } else if n > 0 && n != arity {
        Err(fault_on(ErrKind::ArityMismatch, name))
    } else {
        match raw_rows(rels, tables, as_of, inputs[0], ctx) {
            Err(f) => Err(f),
            Ok(rows) => match values_from(opts, 0, ctx, Seq::empty()) {
                Err(f) => Err(f),
                Ok(ps) => Ok((rows, ps)),
            },
        }
    }
}

fn prepare(
    name: &String,
    arity: usize,
    rels: &List<Relation>,
    tables: &List<Table>,
    as_of: Option<i64>,
    inputs: &List<Atom>,
    opts: &List<Field>,
    n: usize,
    ctx: Ctx,
) -> (r: Result<(Rows, List<Param>), DbError>)
    ensures
        outcome(r) == prepared(
            name@,
            arity,
            rels@,
            tables@,
            as_of,
            inputs@,
            opts@,
            n as int,
            ctx,
        ),
{
    if inputs.len() != 1 {
        return Err(err_on(ErrKind::FixedRuleArgs, name.as_str()));
    }
    if n > 0 && n != arity {
        return Err(err_on(ErrKind::ArityMismatch, name.as_str()));
    }
    match get_raw(rels, tables, as_of, inputs.get(0), ctx) {
        Err(e) => Err(e),
        Ok(rows) => match values(opts, ctx) {
            Err(e) => Err(e),
            Ok(ps) => Ok((rows, ps)),
        },
    }
}

/// The rows that a registered rule makes.
pub open spec fn custom_rows(
    c: CustomV,
    rels: Seq<RelationV>,
    tables: Seq<TableV>,
    as_of: Option<i64>,
    inputs: Seq<AtomV>,
    opts: Seq<FieldV>,
    n: int,
    ctx: Ctx,
) -> Result<Seq<Seq<Value>>, Fault> {
    match prepared(c.name, c.arity, rels, tables, as_of, inputs, opts, n, ctx) {
        Err(f) => Err(f),
        Ok((rows, ps)) => (c.rule->0)(rows, ps),
    }
}

/// The rows that a registered rule makes.
pub fn run_custom(
    c: &Custom,
    rels: &List<Relation>,
    tables: &List<Table>,
    as_of: Option<i64>,
    inputs: &List<Atom>,
    opts: &List<Field>,
    n: usize,
    ctx: Ctx,
) -> (r: Result<Rows, DbError>)
    requires
        c@.rule is Some,
    ensures
        outcome(r) == custom_rows(c@, rels@, tables@, as_of, inputs@, opts@, n as int, ctx),
{
    match prepare(&c.name, c.arity(), rels, tables, as_of, inputs, opts, n, ctx) {
        Err(e) => Err(e),
        Ok((rows, ps)) => c.run(&rows, &ps),
    }
}

/// The rows that a rule of the library makes.
pub open spec fn own_rows<F: FixedRule>(
    f: F,
    name: Seq<char>,
    rels: Seq<RelationV>,
    tables: Seq<TableV>,
    as_of: Option<i64>,
    inputs: Seq<AtomV>,
    opts: Seq<FieldV>,
    n: int,
    ctx: Ctx,
) -> Result<Seq<Seq<Value>>, Fault> {
    match prepared(name, f.arity_view(), rels, tables, as_of, inputs, opts, n, ctx) {
        Err(f) => Err(f),
        Ok((rows, ps)) => f.rows_view(rows, ps),
    }
}

/// The rows that a rule of the library makes.
pub fn run_own<F: FixedRule>(
    f: F,
    name: &String,
    rels: &List<Relation>,
    tables: &List<Table>,
    as_of: Option<i64>,
    inputs: &List<Atom>,
    opts: &List<Field>,
    n: usize,
    ctx: Ctx,
) -> (r: Result<Rows, DbError>)
    ensures
        outcome(r) == own_rows(
            f,
            name@,
            rels@,
            tables@,
            as_of,
            inputs@,
            opts@,
            n as int,
            ctx,
        ),
{
    match prepare(name, f.arity(), rels, tables, as_of, inputs, opts, n, ctx) {
        Err(e) => Err(e),
        Ok((rows, ps)) => f.run(&rows, &ps),
    }
}

} // verus!
