//! The rows that meet the conditions of a clause.
use vstd::prelude::*;

use crate::error::{DbError, ErrKind, Fault, err, err_on, fault, fault_on, outcome, outcome_opt};
use crate::expr::{Ctx, Expr, ExprV, branch, branched, eval, eval_of, find, place};
use crate::list::{Dup, List, opt_of};
use crate::order::{arrange, arranged};
use crate::query::{Atom, AtomV, Field, FieldV, Fields, FieldsV, HeadItem, HeadItemV};
use crate::route::{along, route, routed, take_along};
use crate::scan::{Source, SourceV, point, point_of, read_rel, rel_rows, scan, scanned};
use crate::search::{ask, asked, find_rows, find_search, found, search_from};
use crate::store::{
    Relation, RelationV, SearchV, columns, columns_of, find_rel, names, names_of, rel_place,
};
use crate::table::Rows;
use crate::value::{DataValue, Tuple, Value, same, values_of};

verus! {

/// The rows of a rule.
pub struct Table {
    pub name: String,
    /// The number of columns, where it is known.
    pub arity: Option<usize>,
    pub rows: List<Tuple>,
}

/// The mathematical counterpart of [`Table`].
#[verifier::ext_equal]
pub struct TableV {
    pub name: Seq<char>,
    pub arity: Option<usize>,
    pub rows: Seq<Seq<Value>>,
}

impl View for Table {
    type V = TableV;

    open spec fn view(&self) -> TableV {
        TableV {
            name: self.name@,
            arity: self.arity,
            rows: self.rows@,
        }
    }
}

impl Dup for Table {
    fn dup(&self) -> (r: Self) {
        Table {
            name: self.name.clone(),
            arity: self.arity,
            rows: self.rows.dup(),
        }
    }
}

/// What is done with a column of a row that is matched.
pub enum Slot {
    /// Nothing.
    Skip,
    /// It gives a new variable its value.
    Fresh,
    /// It must equal the variable with this place.
    Old(usize),
    /// It must equal the value of an expression.
    Test(Expr),
}

/// The mathematical counterpart of [`Slot`].
pub enum SlotV {
    Skip,
    Fresh,
    Old(usize),
    Test(ExprV),
}

impl View for Slot {
    type V = SlotV;

    open spec fn view(&self) -> SlotV {
        match *self {
            Slot::Skip => SlotV::Skip,
            Slot::Fresh => SlotV::Fresh,
            Slot::Old(a) => SlotV::Old(a),
            Slot::Test(a) => SlotV::Test(a@),
        }
    }
}

impl Dup for Slot {
    fn dup(&self) -> (r: Self) {
        match self {
            Slot::Skip => Slot::Skip,
            Slot::Fresh => Slot::Fresh,
            Slot::Old(a) => Slot::Old(*a),
            Slot::Test(a) => Slot::Test(a.dup()),
        }
    }
}

/// How rows are matched, and the variables that are bound afterwards.
pub struct Plan {
    pub cols: List<String>,
    pub slots: List<Slot>,
}

/// The mathematical counterpart of [`Plan`].
#[verifier::ext_equal]
pub struct PlanV {
    pub cols: Seq<Seq<char>>,
    pub slots: Seq<SlotV>,
}

impl View for Plan {
    type V = PlanV;

    open spec fn view(&self) -> PlanV {
        PlanV {
            cols: self.cols@,
            slots: self.slots@,
        }
    }
}

impl Dup for Plan {
    fn dup(&self) -> (r: Self) {
        Plan {
            cols: self.cols.dup(),
            slots: self.slots.dup(),
        }
    }
}

/// The plan for the terms from place `i` on, where `p` is that for those before.
pub open spec fn plan_from(terms: Seq<ExprV>, i: int, p: PlanV) -> PlanV
    decreases terms.len() - i,
{
    if i < 0 || i >= terms.len() {
        p
    } else {
        match terms[i] {
            ExprV::Var(n) => if n == "_"@ {
                plan_from(terms, i + 1, PlanV { slots: p.slots.push(SlotV::Skip), ..p })
            } else if place(p.cols, n) < p.cols.len() {
                plan_from(
                    terms,
                    i + 1,
                    PlanV { slots: p.slots.push(SlotV::Old(place(p.cols, n) as usize)), ..p },
                )
            } else {
                plan_from(
                    terms,
                    i + 1,
                    PlanV { slots: p.slots.push(SlotV::Fresh), cols: p.cols.push(n) },
                )
            },
            e => plan_from(terms, i + 1, PlanV { slots: p.slots.push(SlotV::Test(e)), ..p }),
        }
    }
}

/// The plan for matching terms where these variables are bound.
pub open spec fn plan_of(terms: Seq<ExprV>, cols: Seq<Seq<char>>) -> PlanV {
    plan_from(terms, 0, PlanV { cols, slots: Seq::empty() })
}

fn make_plan(terms: &List<Expr>, cols: &List<String>) -> (r: Plan)
    ensures
        r@ == plan_of(terms@, cols@),
{
    let mut p = Plan { cols: cols.dup(), slots: List::new() };
    let mut i: usize = 0;
    while i < terms.len()
        invariant
            i <= terms@.len(),
            plan_of(terms@, cols@) == plan_from(terms@, i as int, p@),
        decreases terms@.len() - i,
    {
        match terms.get(i) {
            Expr::Var(n) => {
                if *n == "_".to_owned() {
                    p.slots.push(Slot::Skip);
                } else {
                    let k = find(&p.cols, n);
                    if k < p.cols.len() {
                        p.slots.push(Slot::Old(k));
                    } else {
                        p.slots.push(Slot::Fresh);
                        p.cols.push(n.clone());
                    }
                }
            },
            e => {
                p.slots.push(Slot::Test(e.dup()));
            },
        }
        i = i + 1;
    }
    p
}

/// The values of the variables where a row matches from place `i` on; nothing
/// where it does not.
pub open spec fn match_from(
    p: PlanV,
    src: Seq<Value>,
    i: int,
    row: Seq<Value>,
    ctx: Ctx,
) -> Result<Option<Seq<Value>>, Fault>
    decreases p.slots.len() - i,
{
    if i < 0 || i >= p.slots.len() {
        Ok(Some(row))
    } else if i >= src.len() {
        Ok(None)
    } else {
        match p.slots[i] {
            SlotV::Skip => match_from(p, src, i + 1, row, ctx),
            SlotV::Fresh => match_from(p, src, i + 1, row.push(src[i]), ctx),
            SlotV::Old(k) => if k < row.len() && row[k as int] == src[i] {
                match_from(p, src, i + 1, row, ctx)
            } else {
                Ok(None)
            },
            SlotV::Test(e) => match eval_of(e, p.cols, row, ctx) {
                Err(f) => Err(f),
                Ok(v) => if v == src[i] {
                    match_from(p, src, i + 1, row, ctx)
                } else {
                    Ok(None)
                },
            },
        }
    }
}

fn match_row(p: &Plan, src: &Tuple, row: &Tuple, ctx: Ctx) -> (r: Result<Option<Tuple>, DbError>)
    ensures
        outcome_opt(r) == match_from(p@, src@, 0, row@, ctx),
{
    let mut i: usize = 0;
    let mut out: Tuple = List::new();
    let mut copied: bool = false;
    while i < p.slots.len()
        invariant
            i <= p@.slots.len(),
            !copied ==> match_from(p@, src@, 0, row@, ctx) == match_from(
                p@,
                src@,
                i as int,
                row@,
                ctx,
            ),
            copied ==> match_from(p@, src@, 0, row@, ctx) == match_from(
                p@,
                src@,
                i as int,
                out@,
                ctx,
            ),
        decreases p@.slots.len() - i,
    {
        if i >= src.len() {
            return Ok(None);
        }
        let v = src.get(i);
        match p.slots.get(i) {
            Slot::Skip => {},
            Slot::Fresh => {
                if !copied {
                    out = row.dup();
                    copied = true;
                }
                out.push(v.dup());
            },
            Slot::Old(k) => {
                let cur = if copied {
                    &out
                } else {
                    row
                };
                if !(*k < cur.len() && same(cur.get(*k), v)) {
                    return Ok(None);
                }
            },
            Slot::Test(e) => {
                let cur = if copied {
                    &out
                } else {
                    row
                };
                match eval(e, &p.cols, cur, ctx) {
                    Err(x) => {
                        return Err(x);
                    },
                    Ok(w) => {
                        if !same(&w, v) {
                            return Ok(None);
                        }
                    },
                }
            },
        }
        i = i + 1;
    }
    if copied {
        Ok(Some(out))
    } else {
        Ok(Some(row.dup()))
    }
}

/// The matches of one row with the source rows from place `j` on, after `acc`.
pub open spec fn join_row_from(
    p: PlanV,
    row: Seq<Value>,
    src: Seq<Seq<Value>>,
    j: int,
    ctx: Ctx,
    acc: Seq<Seq<Value>>,
) -> Result<Seq<Seq<Value>>, Fault>
    decreases src.len() - j,
{
    if j < 0 || j >= src.len() {
        Ok(acc)
    } else {
        match match_from(p, src[j], 0, row, ctx) {
            Err(f) => Err(f),
            Ok(None) => join_row_from(p, row, src, j + 1, ctx, acc),
            Ok(Some(r)) => join_row_from(p, row, src, j + 1, ctx, acc.push(r)),
        }
    }
}

fn join_row(p: &Plan, row: &Tuple, src: &Rows, ctx: Ctx, acc: Rows) -> (r: Result<Rows, DbError>)
    ensures
        outcome(r) == join_row_from(p@, row@, src@, 0, ctx, acc@),
{
    let ghost first = acc@;
    let mut out = acc;
    let mut j: usize = 0;
    while j < src.len()
        invariant
            j <= src@.len(),
            first == acc@,
            join_row_from(p@, row@, src@, 0, ctx, first) == join_row_from(
                p@,
                row@,
                src@,
                j as int,
                ctx,
                out@,
            ),
        decreases src@.len() - j,
    {
        match match_row(p, src.get(j), row, ctx) {
            Err(e) => {
                return Err(e);
            },
            Ok(None) => {},
            Ok(Some(r)) => {
                out.push(r);
            },
        }
        j = j + 1;
    }
    Ok(out)
}

/// The matches of the rows from place `i` on with the source rows.
pub open spec fn join_from(
    p: PlanV,
    rows: Seq<Seq<Value>>,
    src: Seq<Seq<Value>>,
    i: int,
    ctx: Ctx,
    acc: Seq<Seq<Value>>,
) -> Result<Seq<Seq<Value>>, Fault>
    decreases rows.len() - i,
{
    if i < 0 || i >= rows.len() {
        Ok(acc)
    } else {
        match join_row_from(p, rows[i], src, 0, ctx, acc) {
            Err(f) => Err(f),
            Ok(next) => join_from(p, rows, src, i + 1, ctx, next),
        }
    }
}

/// Whether a row matches some source row from place `j` on.
pub open spec fn matches_from(
    p: PlanV,
    row: Seq<Value>,
    src: Seq<Seq<Value>>,
    j: int,
    ctx: Ctx,
) -> Result<
    bool,
    Fault,
>
    decreases src.len() - j,
{
    if j < 0 || j >= src.len() {
        Ok(false)
    } else {
        match match_from(p, src[j], 0, row, ctx) {
            Err(f) => Err(f),
            Ok(Some(_)) => Ok(true),
            Ok(None) => matches_from(p, row, src, j + 1, ctx),
        }
    }
}

fn matches_some(p: &Plan, row: &Tuple, src: &Rows, ctx: Ctx) -> (r: Result<bool, DbError>)
    ensures
        outcome(r) == matches_from(p@, row@, src@, 0, ctx),
{
    let mut j: usize = 0;
    while j < src.len()
        invariant
            j <= src@.len(),
            matches_from(p@, row@, src@, 0, ctx) == matches_from(p@, row@, src@, j as int, ctx),
        decreases src@.len() - j,
    {
        match match_row(p, src.get(j), row, ctx) {
            Err(e) => {
                return Err(e);
            },
            Ok(Some(_)) => {
                return Ok(true);
            },
            Ok(None) => {},
        }
        j = j + 1;
    }
    Ok(false)
}

/// The rows from place `i` on that match no source row.
pub open spec fn exclude_from(
    p: PlanV,
    rows: Seq<Seq<Value>>,
    src: Seq<Seq<Value>>,
    i: int,
    ctx: Ctx,
    acc: Seq<Seq<Value>>,
) -> Result<Seq<Seq<Value>>, Fault>
    decreases rows.len() - i,
{
    if i < 0 || i >= rows.len() {
        Ok(acc)
    } else {
        match matches_from(p, rows[i], src, 0, ctx) {
            Err(f) => Err(f),
            Ok(true) => exclude_from(p, rows, src, i + 1, ctx, acc),
            Ok(false) => exclude_from(p, rows, src, i + 1, ctx, acc.push(rows[i])),
        }
    }
}

/// The rows that match the source (or, negated, those that do not).
pub open spec fn combined(
    b: SourceV,
    terms: Seq<ExprV>,
    src: Seq<Seq<Value>>,
    neg: bool,
    ctx: Ctx,
) -> Result<SourceV, Fault> {
    let p = plan_of(terms, b.cols);
    if neg {
        match exclude_from(p, b.rows, src, 0, ctx, Seq::empty()) {
            Ok(rows) => Ok(SourceV { cols: b.cols, rows }),
            Err(f) => Err(f),
        }
    } else {
        match join_from(p, b.rows, src, 0, ctx, Seq::empty()) {
            Ok(rows) => Ok(SourceV { cols: p.cols, rows }),
            Err(f) => Err(f),
        }
    }
}

fn combine(b: Source, terms: &List<Expr>, src: &Rows, neg: bool, ctx: Ctx) -> (r: Result<
    Source,
    DbError,
>)
    ensures
        outcome(r) == combined(b@, terms@, src@, neg, ctx),
{
    let p = make_plan(terms, &b.cols);
    let mut acc: Rows = List::new();
    let mut i: usize = 0;
    if neg {
        while i < b.rows.len()
            invariant
                i <= b.rows@.len(),
                neg,
                p@ == plan_of(terms@, b@.cols),
                exclude_from(p@, b.rows@, src@, 0, ctx, Seq::empty()) == exclude_from(
                    p@,
                    b.rows@,
                    src@,
                    i as int,
                    ctx,
                    acc@,
                ),
            decreases b.rows@.len() - i,
        {
            match matches_some(&p, b.rows.get(i), src, ctx) {
                Err(e) => {
                    return Err(e);
                },
                Ok(true) => {},
                Ok(false) => {
                    acc.push(b.rows.get(i).dup());
                },
            }
            i = i + 1;
        }
        Ok(Source { cols: b.cols, rows: acc })
    } else {
        while i < b.rows.len()
            invariant
                i <= b.rows@.len(),
                !neg,
                p@ == plan_of(terms@, b@.cols),
                join_from(p@, b.rows@, src@, 0, ctx, Seq::empty()) == join_from(
                    p@,
                    b.rows@,
                    src@,
                    i as int,
                    ctx,
                    acc@,
                ),
            decreases b.rows@.len() - i,
        {
            match join_row(&p, b.rows.get(i), src, ctx, acc) {
                Err(e) => {
                    return Err(e);
                },
                Ok(next) => {
                    acc = next;
                },
            }
            i = i + 1;
        }
        Ok(Source { cols: p.cols, rows: acc })
    }
}

/// The place of a field from place `i` on, and the length where there is none
/// of the name.
pub open spec fn field_from(fs: Seq<FieldV>, name: Seq<char>, i: int) -> int
    decreases fs.len() - i,
{
    if i < 0 || i >= fs.len() {
        fs.len() as int
    } else if fs[i].name == name {
        i
    } else {
        field_from(fs, name, i + 1)
    }
}

/// The place of a field.
pub fn find_field(fs: &List<Field>, name: &String) -> (r: usize)
    ensures
        r == field_from(fs@, name@, 0),
        r <= fs@.len(),
{
    let mut i: usize = 0;
    while i < fs.len()
        invariant
            i <= fs@.len(),
            field_from(fs@, name@, 0) == field_from(fs@, name@, i as int),
        decreases fs@.len() - i,
    {
        if fs.get(i).name == *name {
            return i;
        }
        i = i + 1;
    }
    i
}

/// The term of a field, and null where there is none of the name.
pub open spec fn option_of(fs: Seq<FieldV>, name: Seq<char>) -> ExprV {
    let k = field_from(fs, name, 0);
    if k < fs.len() {
        fs[k].term
    } else {
        ExprV::Const(Value::Null)
    }
}

/// The term of a field.
pub fn option(fs: &List<Field>, name: &str) -> (r: Expr)
    ensures
        r@ == option_of(fs@, name@),
{
    let k = find_field(fs, &name.to_owned());
    if k < fs.len() {
        fs.get(k).term.dup()
    } else {
        Expr::Const(DataValue::Null)
    }
}

/// The term of a field, and a blank where there is none of the name.
pub open spec fn binding_of(fs: Seq<FieldV>, name: Seq<char>) -> ExprV {
    let k = field_from(fs, name, 0);
    if k < fs.len() {
        fs[k].term
    } else {
        ExprV::Var("_"@)
    }
}

fn binding(fs: &List<Field>, name: &str) -> (r: Expr)
    ensures
        r@ == binding_of(fs@, name@),
{
    let k = find_field(fs, &name.to_owned());
    if k < fs.len() {
        fs.get(k).term.dup()
    } else {
        Expr::Var("_".to_owned())
    }
}

/// The terms that stand for what is told of a row that was found, and for its
/// vector.
pub open spec fn told_terms(opts: Seq<FieldV>) -> Seq<ExprV> {
    let d = "bind_distance"@;
    seq![
        if field_from(opts, d, 0) < opts.len() {
            binding_of(opts, d)
        } else {
            binding_of(opts, "bind_score"@)
        },
        binding_of(opts, "bind_vector"@),
    ]
}

/// The terms that stand for what is told of a row that was found, and for its
/// vector.
pub fn terms_told(opts: &List<Field>) -> (r: List<Expr>)
    ensures
        r@ == told_terms(opts@),
{
    let mut r: List<Expr> = List::new();
    if find_field(opts, &"bind_distance".to_owned()) < opts.len() {
        r.push(binding(opts, "bind_distance"));
    } else {
        r.push(binding(opts, "bind_score"));
    }
    r.push(binding(opts, "bind_vector"));
    assert(r@ =~= told_terms(opts@));
    r
}

/// The first field from place `i` on whose name no column has, and the length
/// where there is none.
pub open spec fn stray_from(fs: Seq<FieldV>, cols: Seq<Seq<char>>, i: int) -> int
    decreases fs.len() - i,
{
    if i < 0 || i >= fs.len() {
        fs.len() as int
    } else if place(cols, fs[i].name) >= cols.len() {
        i
    } else {
        stray_from(fs, cols, i + 1)
    }
}

fn find_stray(fs: &List<Field>, cols: &List<String>) -> (r: usize)
    ensures
        r == stray_from(fs@, cols@, 0),
        r <= fs@.len(),
{
    let mut i: usize = 0;
    while i < fs.len()
        invariant
            i <= fs@.len(),
            stray_from(fs@, cols@, 0) == stray_from(fs@, cols@, i as int),
        decreases fs@.len() - i,
    {
        if find(cols, &fs.get(i).name) >= cols.len() {
            return i;
        }
        i = i + 1;
    }
    i
}

/// One term for each of the columns: that of the field with its name, and a
/// blank where there is none.
pub open spec fn spread(fs: Seq<FieldV>, cols: Seq<Seq<char>>) -> Seq<ExprV> {
    Seq::new(
        cols.len(),
        |i: int|
            if field_from(fs, cols[i], 0) < fs.len() {
                fs[field_from(fs, cols[i], 0)].term
            } else {
                ExprV::Var("_"@)
            },
    )
}

/// The terms for the columns of a source.
pub open spec fn terms_of(f: FieldsV, cols: Seq<Seq<char>>) -> Result<Seq<ExprV>, Fault> {
    match f {
        FieldsV::Places(ts) => if ts.len() == cols.len() {
            Ok(ts)
        } else {
            Err(fault(ErrKind::ArityMismatch))
        },
        FieldsV::Names(fs) => if stray_from(fs, cols, 0) < fs.len() {
            Err(fault_on(ErrKind::ColumnNotFound, fs[stray_from(fs, cols, 0)].name))
        } else {
            Ok(spread(fs, cols))
        },
    }
}

fn spread_terms(fs: &List<Field>, cols: &List<String>) -> (r: Result<List<Expr>, DbError>)
    ensures
        outcome(r) == terms_of(FieldsV::Names(fs@), cols@),
{
    let s = find_stray(fs, cols);
    if s < fs.len() {
        return Err(err_on(ErrKind::ColumnNotFound, fs.get(s).name.as_str()));
    }
    let mut out: List<Expr> = List::new();
    let mut i: usize = 0;
    while i < cols.len()
        invariant
            i <= cols@.len(),
            out@ =~= spread(fs@, cols@).take(i as int),
        decreases cols@.len() - i,
    {
        let k = find_field(fs, cols.get(i));
        if k < fs.len() {
            out.push(fs.get(k).term.dup());
        } else {
            out.push(Expr::Var("_".to_owned()));
        }
        i = i + 1;
    }
    assert(spread(fs@, cols@).take(i as int) =~= spread(fs@, cols@));
    Ok(out)
}

fn make_terms(f: &Fields, cols: &List<String>) -> (r: Result<List<Expr>, DbError>)
    ensures
        outcome(r) == terms_of(f@, cols@),
{
    match f {
        Fields::Places(ts) => if ts.len() == cols.len() {
            Ok(ts.dup())
        } else {
            Err(err(ErrKind::ArityMismatch))
        },
        Fields::Names(fs) => spread_terms(fs, cols),
    }
}

/// The point in time that an expression stands for, where it is given.
pub open spec fn selected(e: Option<ExprV>, tt: bool, ctx: Ctx) -> Result<Option<i64>, Fault> {
    match e {
        None => Ok(None),
        Some(x) => match eval_of(x, Seq::empty(), Seq::empty(), ctx) {
            Err(f) => Err(f),
            Ok(v) => match point_of(v, ctx.now, tt) {
                Some(t) => Ok(Some(t)),
                None => Err(fault(ErrKind::TypeMismatch)),
            },
        },
    }
}

/// The point in time that an expression stands for.
pub fn select(e: &Option<Expr>, tt: bool, ctx: Ctx) -> (r: Result<Option<i64>, DbError>)
    ensures
        outcome_opt(r) == selected(opt_of(*e), tt, ctx),
{
    match e {
        None => Ok(None),
        Some(x) => match eval(x, &List::new(), &List::new(), ctx) {
            Err(f) => Err(f),
            Ok(v) => match point(&v, ctx.now, tt) {
                Some(t) => Ok(Some(t)),
                None => Err(err(ErrKind::TypeMismatch)),
            },
        },
    }
}

/// The place of a table from place `i` on, and the length where there is none
/// of the name.
pub open spec fn table_from(tables: Seq<TableV>, name: Seq<char>, i: int) -> int
    decreases tables.len() - i,
{
    if i < 0 || i >= tables.len() {
        tables.len() as int
    } else if tables[i].name == name {
        i
    } else {
        table_from(tables, name, i + 1)
    }
}

/// The place of a table.
pub fn find_table(tables: &List<Table>, name: &String) -> (r: usize)
    ensures
        r == table_from(tables@, name@, 0),
        r <= tables@.len(),
{
    let mut i: usize = 0;
    while i < tables.len()
        invariant
            i <= tables@.len(),
            table_from(tables@, name@, 0) == table_from(tables@, name@, i as int),
        decreases tables@.len() - i,
    {
        if tables.get(i).name == *name {
            return i;
        }
        i = i + 1;
    }
    i
}

/// The rows with the variable bound to the value of the expression, from place
/// `i` on: a variable that has a value must have this one.
pub open spec fn unify_from(
    b: SourceV,
    var: Seq<char>,
    e: ExprV,
    i: int,
    ctx: Ctx,
    acc: Seq<Seq<Value>>,
) -> Result<Seq<Seq<Value>>, Fault>
    decreases b.rows.len() - i,
{
    if i < 0 || i >= b.rows.len() {
        Ok(acc)
    } else {
        match eval_of(e, b.cols, b.rows[i], branched(ctx, i)) {
            Err(f) => Err(f),
            Ok(v) => if var == "_"@ {
                unify_from(b, var, e, i + 1, ctx, acc.push(b.rows[i]))
            } else if place(b.cols, var) < b.cols.len() {
                if place(b.cols, var) < b.rows[i].len() && b.rows[i][place(b.cols, var)] == v {
                    unify_from(b, var, e, i + 1, ctx, acc.push(b.rows[i]))
                } else {
                    unify_from(b, var, e, i + 1, ctx, acc)
                }
            } else {
                unify_from(b, var, e, i + 1, ctx, acc.push(b.rows[i].push(v)))
            },
        }
    }
}

/// The variables that are bound once this one is.
pub open spec fn bound_with(cols: Seq<Seq<char>>, var: Seq<char>) -> Seq<Seq<char>> {
    if var == "_"@ || place(cols, var) < cols.len() {
        cols
    } else {
        cols.push(var)
    }
}

pub fn bind_var(cols: List<String>, var: &String) -> (r: List<String>)
    ensures
        r@ == bound_with(cols@, var@),
{
    let mut out = cols;
    if *var == "_".to_owned() || find(&out, var) < out.len() {
        out
    } else {
        out.push(var.clone());
        out
    }
}

fn unify(b: &Source, var: &String, e: &Expr, ctx: Ctx) -> (r: Result<Rows, DbError>)
    ensures
        outcome(r) == unify_from(b@, var@, e@, 0, ctx, Seq::empty()),
{
    let mut acc: Rows = List::new();
    let blank = *var == "_".to_owned();
    let k = find(&b.cols, var);
    let mut i: usize = 0;
    while i < b.rows.len()
        invariant
            i <= b.rows@.len(),
            blank == (var@ == "_"@),
            k == place(b.cols@, var@),
            unify_from(b@, var@, e@, 0, ctx, Seq::empty()) == unify_from(
                b@,
                var@,
                e@,
                i as int,
                ctx,
                acc@,
            ),
        decreases b.rows@.len() - i,
    {
        let row = b.rows.get(i);
        match eval(e, &b.cols, row, branch(ctx, i)) {
            Err(f) => {
                return Err(f);
            },
            Ok(v) => {
                if blank {
                    acc.push(row.dup());
                } else if k < b.cols.len() {
                    if k < row.len() && same(row.get(k), &v) {
                        acc.push(row.dup());
                    }
                } else {
                    let mut next = row.dup();
                    next.push(v);
                    acc.push(next);
                }
            },
        }
        i = i + 1;
    }
    Ok(acc)
}

/// The row once for each value of a list from place `j` on that the variable
/// can have.
pub open spec fn spread_from(
    row: Seq<Value>,
    at: Option<int>,
    blank: bool,
    l: Seq<Value>,
    j: int,
    acc: Seq<Seq<Value>>,
) -> Seq<Seq<Value>>
    decreases l.len() - j,
{
    if j < 0 || j >= l.len() {
        acc
    } else if blank {
        spread_from(row, at, blank, l, j + 1, acc.push(row))
    } else {
        match at {
            Some(k) => if 0 <= k < row.len() && row[k] == l[j] {
                spread_from(row, at, blank, l, j + 1, acc.push(row))
            } else {
                spread_from(row, at, blank, l, j + 1, acc)
            },
            None => spread_from(row, at, blank, l, j + 1, acc.push(row.push(l[j]))),
        }
    }
}

/// Where a variable stands, if it has a value.
pub open spec fn known_at(cols: Seq<Seq<char>>, var: Seq<char>) -> Option<int> {
    if place(cols, var) < cols.len() {
        Some(place(cols, var))
    } else {
        None
    }
}

/// The rows from place `i` on with the variable bound to each value of a list.
pub open spec fn member_from(
    b: SourceV,
    var: Seq<char>,
    e: ExprV,
    i: int,
    ctx: Ctx,
    acc: Seq<Seq<Value>>,
) -> Result<Seq<Seq<Value>>, Fault>
    decreases b.rows.len() - i,
{
    if i < 0 || i >= b.rows.len() {
        Ok(acc)
    } else {
        match eval_of(e, b.cols, b.rows[i], branched(ctx, i)) {
            Err(f) => Err(f),
            Ok(v) => match v {
                Value::List(l) => member_from(
                    b,
                    var,
                    e,
                    i + 1,
                    ctx,
                    spread_from(b.rows[i], known_at(b.cols, var), var == "_"@, l, 0, acc),
                ),
                _ => Err(fault(ErrKind::NotList)),
            },
        }
    }
}

fn member(b: &Source, var: &String, e: &Expr, ctx: Ctx) -> (r: Result<Rows, DbError>)
    ensures
        outcome(r) == member_from(b@, var@, e@, 0, ctx, Seq::empty()),
{
    let mut acc: Rows = List::new();
    let blank = *var == "_".to_owned();
    let k = find(&b.cols, var);
    let ghost at = known_at(b.cols@, var@);
    let mut i: usize = 0;
    while i < b.rows.len()
        invariant
            i <= b.rows@.len(),
            blank == (var@ == "_"@),
            k == place(b.cols@, var@),
            at == known_at(b.cols@, var@),
            member_from(b@, var@, e@, 0, ctx, Seq::empty()) == member_from(
                b@,
                var@,
                e@,
                i as int,
                ctx,
                acc@,
            ),
        decreases b.rows@.len() - i,
    {
        let row = b.rows.get(i);
        match eval(e, &b.cols, row, branch(ctx, i)) {
            Err(f) => {
                return Err(f);
            },
            Ok(v) => match v {
                DataValue::List(l) => {
                    let ghost all = values_of(l@);
                    let ghost first = acc@;
                    let mut j: usize = 0;
                    while j < l.len()
                        invariant
                            j <= l@.len(),
                            all == values_of(l@),
                            blank == (var@ == "_"@),
                            k == place(b.cols@, var@),
                            at == known_at(b.cols@, var@),
                            spread_from(row@, at, blank, all, 0, first) == spread_from(
                                row@,
                                at,
                                blank,
                                all,
                                j as int,
                                acc@,
                            ),
                        decreases l@.len() - j,
                    {
                        if blank {
                            acc.push(row.dup());
                        } else if k < b.cols.len() {
                            if k < row.len() && same(row.get(k), &l[j]) {
                                acc.push(row.dup());
                            }
                        } else {
                            let mut next = row.dup();
                            next.push(l[j].dup());
                            acc.push(next);
                        }
                        j = j + 1;
                    }
                },
                _ => {
                    return Err(err(ErrKind::NotList));
                },
            },
        }
        i = i + 1;
    }
    Ok(acc)
}

/// The rows from place `i` on for which the expression is true.
pub open spec fn filter_from(
    b: SourceV,
    e: ExprV,
    i: int,
    ctx: Ctx,
    acc: Seq<Seq<Value>>,
) -> Result<
    Seq<Seq<Value>>,
    Fault,
>
    decreases b.rows.len() - i,
{
    if i < 0 || i >= b.rows.len() {
        Ok(acc)
    } else {
        match eval_of(e, b.cols, b.rows[i], branched(ctx, i)) {
            Err(f) => Err(f),
            Ok(v) => match v {
                Value::Bool(t) => if t {
                    filter_from(b, e, i + 1, ctx, acc.push(b.rows[i]))
                } else {
                    filter_from(b, e, i + 1, ctx, acc)
                },
                _ => Err(fault(ErrKind::NotBoolean)),
            },
        }
    }
}

fn filter(b: &Source, e: &Expr, ctx: Ctx) -> (r: Result<Rows, DbError>)
    ensures
        outcome(r) == filter_from(b@, e@, 0, ctx, Seq::empty()),
{
    let mut acc: Rows = List::new();
    let mut i: usize = 0;
    while i < b.rows.len()
        invariant
            i <= b.rows@.len(),
            filter_from(b@, e@, 0, ctx, Seq::empty()) == filter_from(b@, e@, i as int, ctx, acc@),
        decreases b.rows@.len() - i,
    {
        let row = b.rows.get(i);
        match eval(e, &b.cols, row, branch(ctx, i)) {
            Err(f) => {
                return Err(f);
            },
            Ok(v) => match v {
                DataValue::Bool(t) => {
                    if t {
                        acc.push(row.dup());
                    }
                },
                _ => {
                    return Err(err(ErrKind::NotBoolean));
                },
            },
        }
        i = i + 1;
    }
    Ok(acc)
}

/// Rows under other column names.
pub open spec fn relabelled(r: Result<Seq<Seq<Value>>, Fault>, cols: Seq<Seq<char>>) -> Result<
    SourceV,
    Fault,
> {
    match r {
        Ok(rows) => Ok(SourceV { cols, rows }),
        Err(f) => Err(f),
    }
}

/// The rows that an input gives: those of a rule or of a stored relation, with
/// one term for each column.
pub open spec fn input_of(
    rels: Seq<RelationV>,
    tables: Seq<TableV>,
    as_of: Option<i64>,
    a: AtomV,
    ctx: Ctx,
) -> Result<(Seq<ExprV>, Seq<Seq<Value>>), Fault> {
    match a {
        AtomV::Rule(name, terms, _) => {
            let t = table_from(tables, name, 0);
            if t >= tables.len() {
                Err(fault_on(ErrKind::UnknownRule, name))
            } else if tables[t].arity is Some && tables[t].arity->0 != terms.len() {
                Err(fault_on(ErrKind::ArityMismatch, name))
            } else {
                Ok((terms, tables[t].rows))
            }
        },
        AtomV::Stored(name, fields, sel, _) => match selected(sel.vt, false, ctx) {
            Err(f) => Err(f),
            Ok(vt) => match selected(sel.tt, true, ctx) {
                Err(f) => Err(f),
                Ok(tt) => match scanned(rels, name, vt, tt, as_of) {
                    Err(f) => Err(f),
                    Ok(src) => match terms_of(fields, src.cols) {
                        Err(f) => Err(f),
                        Ok(terms) => Ok((terms, along(routed(rels, a), src.rows))),
                    },
                },
            },
        },
        _ => Err(fault(ErrKind::FixedRuleArgs)),
    }
}

/// The rows that an input gives.
pub fn input(
    rels: &List<Relation>,
    tables: &List<Table>,
    as_of: Option<i64>,
    a: &Atom,
    ctx: Ctx,
) -> (r: Result<(List<Expr>, Rows), DbError>)
    ensures
        outcome(r) == input_of(rels@, tables@, as_of, a@, ctx),
{
    match a {
        Atom::Rule(name, terms, _) => {
            let t = find_table(tables, name);
            if t >= tables.len() {
                return Err(err_on(ErrKind::UnknownRule, name.as_str()));
            }
            match tables.get(t).arity {
                Some(n) => {
                    if n != terms.len() {
                        return Err(err_on(ErrKind::ArityMismatch, name.as_str()));
                    }
                },
                None => {},
            }
            Ok((terms.dup(), tables.get(t).rows.dup()))
        },
        Atom::Stored(name, fields, sel, _) => match select(&sel.vt, false, ctx) {
            Err(e) => Err(e),
            Ok(vt) => match select(&sel.tt, true, ctx) {
                Err(e) => Err(e),
                Ok(tt) => match scan(rels, name, vt, tt, as_of) {
                    Err(e) => Err(e),
                    Ok(src) => match make_terms(fields, &src.cols) {
                        Err(e) => Err(e),
                        Ok(terms) => Ok((terms, take_along(&route(rels, a), src.rows))),
                    },
                },
            },
        },
        _ => Err(err(ErrKind::FixedRuleArgs)),
    }
}

/// Whether an atom is negated.
pub open spec fn is_negated(a: AtomV) -> bool {
    match a {
        AtomV::Rule(_, _, n) => n,
        AtomV::Stored(_, _, _, n) => n,
        _ => false,
    }
}

pub fn negated(a: &Atom) -> (r: bool)
    ensures
        r == is_negated(a@),
{
    match a {
        Atom::Rule(_, _, n) => *n,
        Atom::Stored(_, _, _, n) => *n,
        _ => false,
    }
}

/// The rows from place `i` on, each with what an index finds for it.
pub open spec fn sought_from(
    s: SearchV,
    cols: Seq<Seq<char>>,
    nk: int,
    rows: Seq<Seq<Value>>,
    opts: Seq<FieldV>,
    p: PlanV,
    b: SourceV,
    i: int,
    ctx: Ctx,
    acc: Seq<Seq<Value>>,
) -> Result<Seq<Seq<Value>>, Fault>
    decreases b.rows.len() - i,
{
    if i < 0 || i >= b.rows.len() {
        Ok(acc)
    } else {
        match asked(opts, b.cols, b.rows[i], ctx) {
            Err(f) => Err(f),
            Ok(a) => match found(s, cols, nk, rows, a, ctx) {
                Err(f) => Err(f),
                Ok(src) => match join_row_from(p, b.rows[i], src, 0, ctx, acc) {
                    Err(f) => Err(f),
                    Ok(next) => sought_from(s, cols, nk, rows, opts, p, b, i + 1, ctx, next),
                },
            },
        }
    }
}

/// The rows, each with what an index finds for it.
pub open spec fn sought(
    rels: Seq<RelationV>,
    b: SourceV,
    base: Seq<char>,
    index: Seq<char>,
    fields: Seq<FieldV>,
    opts: Seq<FieldV>,
    ctx: Ctx,
) -> Result<SourceV, Fault> {
    let p = rel_place(rels, base);
    if p >= rels.len() {
        Err(fault_on(ErrKind::RelationNotFound, base))
    } else {
        let rel = rels[p];
        let cols = names_of(columns_of(rel));
        match rel_rows(rel, None, None, None) {
            Err(f) => Err(f),
            Ok(rows) => {
                let q = search_from(rel.searches, index, 0);
                if q >= rel.searches.len() {
                    Err(fault_on(ErrKind::IndexNotFound, index))
                } else {
                    match terms_of(FieldsV::Names(fields), cols) {
                        Err(f) => Err(f),
                        Ok(terms) => {
                            let plan = plan_of(terms + told_terms(opts), b.cols);
                            relabelled(
                                sought_from(
                                    rel.searches[q],
                                    cols,
                                    rel.keys.len() as int,
                                    rows,
                                    opts,
                                    plan,
                                    b,
                                    0,
                                    ctx,
                                    Seq::empty(),
                                ),
                                plan.cols,
                            )
                        },
                    }
                }
            },
        }
    }
}

fn seek(
    rels: &List<Relation>,
    b: &Source,
    base: &String,
    index: &String,
    fields: &List<Field>,
    opts: &List<Field>,
    ctx: Ctx,
) -> (r: Result<Source, DbError>)
    ensures
        outcome(r) == sought(rels@, b@, base@, index@, fields@, opts@, ctx),
{
    let p = find_rel(rels, base);
    if p >= rels.len() {
        return Err(err_on(ErrKind::RelationNotFound, base.as_str()));
    }
    let rel = rels.get(p);
    let cols = names(&columns(rel));
    match read_rel(rel, None, None, None) {
        Err(e) => Err(e),
        Ok(rows) => {
            let q = find_search(&rel.searches, index);
            if q >= rel.searches.len() {
                return Err(err_on(ErrKind::IndexNotFound, index.as_str()));
            }
            let s = rel.searches.get(q);
            match spread_terms(fields, &cols) {
                Err(e) => Err(e),
                Ok(terms) => {
                    let plan = make_plan(&append_terms(terms, &terms_told(opts)), &b.cols);
                    let ghost goal = sought_from(
                        s@,
                        cols@,
                        rel@.keys.len() as int,
                        rows@,
                        opts@,
                        plan@,
                        b@,
                        0,
                        ctx,
                        Seq::empty(),
                    );
                    let mut acc: Rows = List::new();
                    let mut i: usize = 0;
                    while i < b.rows.len()
                        invariant
                            i <= b@.rows.len(),
                            s@ == rel@.searches[q as int],
                            rel@ == rels@[p as int],
                            p == rel_place(rels@, base@),
                            p < rels@.len(),
                            q == search_from(rel@.searches, index@, 0),
                            q < rel@.searches.len(),
                            cols@ == names_of(columns_of(rel@)),
                            rel_rows(rel@, None, None, None) == Ok::<Seq<Seq<Value>>, Fault>(rows@),
                            terms_of(FieldsV::Names(fields@), cols@) == Ok::<Seq<ExprV>, Fault>(
                                terms@,
                            ),
                            plan@ == plan_of(terms@ + told_terms(opts@), b@.cols),
                            goal == sought_from(
                                s@,
                                cols@,
                                rel@.keys.len() as int,
                                rows@,
                                opts@,
                                plan@,
                                b@,
                                0,
                                ctx,
                                Seq::empty(),
                            ),
                            goal == sought_from(
                                s@,
                                cols@,
                                rel@.keys.len() as int,
                                rows@,
                                opts@,
                                plan@,
                                b@,
                                i as int,
                                ctx,
                                acc@,
                            ),
                        decreases b@.rows.len() - i,
                    {
                        let row = b.rows.get(i);
                        match ask(opts, &b.cols, row, ctx) {
                            Err(e) => {
                                return Err(e);
                            },
                            Ok(a) => match find_rows(s, &cols, rel.keys.len(), &rows, &a, ctx) {
                                Err(e) => {
                                    return Err(e);
                                },
                                Ok(src) => match join_row(&plan, row, &src, ctx, acc) {
                                    Err(e) => {
                                        return Err(e);
                                    },
                                    Ok(next) => {
                                        acc = next;
                                    },
                                },
                            },
                        }
                        i = i + 1;
                    }
                    Ok(Source { cols: plan.cols, rows: acc })
                },
            }
        },
    }
}

pub fn append_terms(a: List<Expr>, b: &List<Expr>) -> (r: List<Expr>)
    ensures
        r@ == a@ + b@,
{
    let ghost first = a@;
    let mut out = a;
    let mut i: usize = 0;
    while i < b.len()
        invariant
            i <= b@.len(),
            out@ =~= first + b@.take(i as int),
        decreases b@.len() - i,
    {
        out.push(b.get(i).dup());
        i = i + 1;
    }
    assert(b@.take(i as int) =~= b@);
    out
}

/// The rows that also meet one more condition.
pub open spec fn narrowed(
    rels: Seq<RelationV>,
    tables: Seq<TableV>,
    as_of: Option<i64>,
    b: SourceV,
    a: AtomV,
    ctx: Ctx,
) -> Result<SourceV, Fault> {
    match a {
        AtomV::Unify(var, e) => relabelled(
            unify_from(b, var, e, 0, ctx, Seq::empty()),
            bound_with(b.cols, var),
        ),
        AtomV::Member(var, e) => relabelled(
            member_from(b, var, e, 0, ctx, Seq::empty()),
            bound_with(b.cols, var),
        ),
        AtomV::Filter(e) => relabelled(filter_from(b, e, 0, ctx, Seq::empty()), b.cols),
        AtomV::Search(base, index, fields, opts) => sought(
            rels,
            b,
            base,
            index,
            fields,
            opts,
            ctx,
        ),
        _ => match input_of(rels, tables, as_of, a, ctx) {
            Err(f) => Err(f),
            Ok((terms, src)) => combined(b, terms, src, is_negated(a), ctx),
        },
    }
}

fn narrow(
    rels: &List<Relation>,
    tables: &List<Table>,
    as_of: Option<i64>,
    b: Source,
    a: &Atom,
    ctx: Ctx,
) -> (r: Result<Source, DbError>)
    ensures
        outcome(r) == narrowed(rels@, tables@, as_of, b@, a@, ctx),
{
    match a {
        Atom::Unify(var, e) => match unify(&b, var, e, ctx) {
            Ok(rows) => Ok(Source { cols: bind_var(b.cols, var), rows }),
            Err(x) => Err(x),
        },
        Atom::Member(var, e) => match member(&b, var, e, ctx) {
            Ok(rows) => Ok(Source { cols: bind_var(b.cols, var), rows }),
            Err(x) => Err(x),
        },
        Atom::Filter(e) => match filter(&b, e, ctx) {
            Ok(rows) => Ok(Source { cols: b.cols, rows }),
            Err(x) => Err(x),
        },
        Atom::Search(base, index, fields, opts) => seek(
            rels,
            &b,
            base,
            index,
            fields,
            opts,
            ctx,
        ),
        Atom::Rule(name, terms, neg) => {
            let t = find_table(tables, name);
            if t >= tables.len() {
                return Err(err_on(ErrKind::UnknownRule, name.as_str()));
            }
            match tables.get(t).arity {
                Some(n) => {
                    if n != terms.len() {
                        return Err(err_on(ErrKind::ArityMismatch, name.as_str()));
                    }
                },
                None => {},
            }
            combine(b, terms, &tables.get(t).rows, *neg, ctx)
        },
        _ => match input(rels, tables, as_of, a, ctx) {
            Err(x) => Err(x),
            Ok((terms, src)) => combine(b, &terms, &src, negated(a), ctx),
        },
    }
}

/// The rows that meet every condition from place `i` on as well.
pub open spec fn clause_from(
    rels: Seq<RelationV>,
    tables: Seq<TableV>,
    as_of: Option<i64>,
    atoms: Seq<AtomV>,
    i: int,
    b: SourceV,
    ctx: Ctx,
) -> Result<SourceV, Fault>
    decreases atoms.len() - i,
{
    if i < 0 || i >= atoms.len() {
        Ok(b)
    } else {
        match narrowed(rels, tables, as_of, b, atoms[i], branched(ctx, i)) {
            Err(f) => Err(f),
            Ok(next) => clause_from(rels, tables, as_of, atoms, i + 1, next, ctx),
        }
    }
}

/// One row without columns.
pub open spec fn unit() -> SourceV {
    SourceV { cols: Seq::empty(), rows: seq![Seq::empty()] }
}

/// The rows that meet every condition of a clause.
pub fn clause(
    rels: &List<Relation>,
    tables: &List<Table>,
    as_of: Option<i64>,
    atoms: &List<Atom>,
    ctx: Ctx,
) -> (r: Result<Source, DbError>)
    ensures
        outcome(r) == clause_from(rels@, tables@, as_of, arranged(atoms@), 0, unit(), ctx),
{
    clause_in_turn(rels, tables, as_of, &arrange(atoms), ctx)
}

fn clause_in_turn(
    rels: &List<Relation>,
    tables: &List<Table>,
    as_of: Option<i64>,
    atoms: &List<Atom>,
    ctx: Ctx,
) -> (r: Result<Source, DbError>)
    ensures
        outcome(r) == clause_from(rels@, tables@, as_of, atoms@, 0, unit(), ctx),
{
    let mut start: Rows = List::new();
    start.push(List::new());
    let mut b = Source { cols: List::new(), rows: start };
    assert(b@.rows =~= unit().rows);
    let mut i: usize = 0;
    while i < atoms.len()
        invariant
            i <= atoms@.len(),
            clause_from(rels@, tables@, as_of, atoms@, 0, unit(), ctx) == clause_from(
                rels@,
                tables@,
                as_of,
                atoms@,
                i as int,
                b@,
                ctx,
            ),
        decreases atoms@.len() - i,
    {
        match narrow(rels, tables, as_of, b, atoms.get(i), branch(ctx, i)) {
            Err(e) => {
                return Err(e);
            },
            Ok(next) => {
                b = next;
            },
        }
        i = i + 1;
    }
    Ok(b)
}

/// The places of the variables of a head from place `i` on, after `acc`.
pub open spec fn head_places_from(
    head: Seq<HeadItemV>,
    cols: Seq<Seq<char>>,
    i: int,
    acc: Seq<usize>,
) -> Result<Seq<usize>, Fault>
    decreases head.len() - i,
{
    if i < 0 || i >= head.len() {
        Ok(acc)
    } else if place(cols, head[i].var) >= cols.len() {
        Err(fault_on(ErrKind::UnboundVariable, head[i].var))
    } else {
        head_places_from(head, cols, i + 1, acc.push(place(cols, head[i].var) as usize))
    }
}

/// The places of the variables of a head.
pub fn head_places(head: &List<HeadItem>, cols: &List<String>) -> (r: Result<List<usize>, DbError>)
    ensures
        outcome(r) == head_places_from(head@, cols@, 0, Seq::empty()),
{
    let mut acc: List<usize> = List::new();
    let mut i: usize = 0;
    while i < head.len()
        invariant
            i <= head@.len(),
            head_places_from(head@, cols@, 0, Seq::empty()) == head_places_from(
                head@,
                cols@,
                i as int,
                acc@,
            ),
        decreases head@.len() - i,
    {
        let k = find(cols, &head.get(i).var);
        if k >= cols.len() {
            return Err(err_on(ErrKind::UnboundVariable, head.get(i).var.as_str()));
        }
        acc.push(k);
        i = i + 1;
    }
    Ok(acc)
}

} // verus!
