//! Aggregating rows: resolving the head of a rule and folding its rows.
use vstd::prelude::*;

use crate::aggr::{
    Custom, CustomV, MeetAggrAnd, MeetAggrBitAnd, MeetAggrBitOr, MeetAggrMax, MeetAggrMin,
    MeetAggrMinCost, MeetAggrObj, MeetAggrOr,
};
use crate::error::{DbError, ErrKind, Fault, err, err_on, fault, fault_on, outcome};
use crate::expr::{add_of, add_values, int_of};
use crate::list::{Dup, List};
use crate::query::{HeadItem, HeadItemV};
use crate::schema::{coerce_real, to_real};
use crate::table::{Rows, sorted, sorted_of};
use crate::value::{DataValue, Tuple, Value, elements, list_value, same};

verus! {

/// What happens to a column of a rule's head.
#[derive(Clone, Copy, Debug, PartialEq, Eq, Structural)]
pub enum AggOp {
    /// The rows are grouped by the column.
    Group,
    Count,
    Sum,
    Collect,
    And,
    Or,
    BitAnd,
    BitOr,
    Min,
    Max,
    MinCost,
    /// The registered aggregation with this place in the registry.
    Custom(usize),
    /// The packs of least cost, at most so many in a group.
    TopK(u64),
}

impl View for AggOp {
    type V = AggOp;

    open spec fn view(&self) -> AggOp {
        *self
    }
}

impl Dup for AggOp {
    fn dup(&self) -> (r: Self) {
        *self
    }
}

/// How the rows of a rule are made of those that its bodies give.
#[derive(Clone, Copy, Debug, PartialEq, Eq, Structural)]
pub enum Shape {
    /// As they are.
    Plain,
    /// Aggregated by meets alone, so that the rule may depend on itself.
    Meet,
    /// Aggregated otherwise.
    Normal,
    /// The best few of each group.
    Bounded(u64),
}

/// The aggregation that a name stands for without arguments.
pub open spec fn builtin_of(name: Seq<char>) -> Option<AggOp> {
    if name == "count"@ {
        Some(AggOp::Count)
    } else if name == "sum"@ {
        Some(AggOp::Sum)
    } else if name == "collect"@ {
        Some(AggOp::Collect)
    } else if name == "and"@ {
        Some(AggOp::And)
    } else if name == "or"@ {
        Some(AggOp::Or)
    } else if name == "bit_and"@ {
        Some(AggOp::BitAnd)
    } else if name == "bit_or"@ {
        Some(AggOp::BitOr)
    } else if name == "min"@ {
        Some(AggOp::Min)
    } else if name == "max"@ {
        Some(AggOp::Max)
    } else if name == "min_cost"@ {
        Some(AggOp::MinCost)
    } else {
        None
    }
}

/// The aggregation that a name stands for without arguments.
pub fn builtin(name: &String) -> (r: Option<AggOp>)
    ensures
        r == builtin_of(name@),
{
    if *name == "count".to_owned() {
        Some(AggOp::Count)
    } else if *name == "sum".to_owned() {
        Some(AggOp::Sum)
    } else if *name == "collect".to_owned() {
        Some(AggOp::Collect)
    } else if *name == "and".to_owned() {
        Some(AggOp::And)
    } else if *name == "or".to_owned() {
        Some(AggOp::Or)
    } else if *name == "bit_and".to_owned() {
        Some(AggOp::BitAnd)
    } else if *name == "bit_or".to_owned() {
        Some(AggOp::BitOr)
    } else if *name == "min".to_owned() {
        Some(AggOp::Min)
    } else if *name == "max".to_owned() {
        Some(AggOp::Max)
    } else if *name == "min_cost".to_owned() {
        Some(AggOp::MinCost)
    } else {
        None
    }
}

/// Whether a name is one of the library's own aggregations.
pub open spec fn is_builtin(name: Seq<char>) -> bool {
    builtin_of(name) is Some || name == "min_cost_k"@
}

/// Whether a name is one of the library's own aggregations.
pub fn reserved(name: &String) -> (r: bool)
    ensures
        r == is_builtin(name@),
{
    builtin(name).is_some() || *name == "min_cost_k".to_owned()
}

/// The place of a registered aggregation from place `i` on, and the length
/// where there is none of the name.
pub open spec fn custom_from(customs: Seq<CustomV>, name: Seq<char>, i: int) -> int
    decreases customs.len() - i,
{
    if i < 0 || i >= customs.len() {
        customs.len() as int
    } else if customs[i].rule is None && customs[i].name == name {
        i
    } else {
        custom_from(customs, name, i + 1)
    }
}

/// The place of a registered aggregation.
pub fn find_custom(customs: &List<Custom>, name: &String) -> (r: usize)
    ensures
        r == custom_from(customs@, name@, 0),
        r <= customs@.len(),
        r < customs@.len() ==> customs@[r as int].name == name@,
{
    let mut i: usize = 0;
    while i < customs.len()
        invariant
            i <= customs@.len(),
            custom_from(customs@, name@, 0) == custom_from(customs@, name@, i as int),
        decreases customs@.len() - i,
    {
        if !customs.get(i).is_rule() && customs.get(i).name == *name {
            return i;
        }
        i = i + 1;
    }
    i
}

/// What happens to a column of a head, given the registered aggregations.
pub open spec fn resolved(h: HeadItemV, customs: Seq<CustomV>) -> Result<AggOp, Fault> {
    match h.aggr {
        None => Ok(AggOp::Group),
        Some(a) => if a.name == "min_cost_k"@ {
            if a.args.len() != 1 {
                Err(fault_on(ErrKind::BoundedArgs, a.name))
            } else {
                match a.args[0] {
                    Value::Int(k) => if k > 0 {
                        Ok(AggOp::TopK(k as u64))
                    } else {
                        Err(fault_on(ErrKind::BoundedLimit, a.name))
                    },
                    _ => Err(fault_on(ErrKind::BoundedLimit, a.name)),
                }
            }
        } else {
            match builtin_of(a.name) {
                Some(op) => if a.args.len() == 0 {
                    Ok(op)
                } else {
                    Err(fault_on(ErrKind::AggregateArgs, a.name))
                },
                None => if custom_from(customs, a.name, 0) >= customs.len() {
                    Err(fault_on(ErrKind::UnknownAggregate, a.name))
                } else if a.args.len() == 0 {
                    Ok(AggOp::Custom(custom_from(customs, a.name, 0) as usize))
                } else {
                    Err(fault_on(ErrKind::AggregateArgs, a.name))
                },
            }
        },
    }
}

fn resolve(h: &HeadItem, customs: &List<Custom>) -> (r: Result<AggOp, DbError>)
    ensures
        outcome(r) == resolved(h@, customs@),
{
    match &h.aggr {
        None => Ok(AggOp::Group),
        Some(a) => {
            if a.name == "min_cost_k".to_owned() {
                if a.args.len() != 1 {
                    return Err(err_on(ErrKind::BoundedArgs, a.name.as_str()));
                }
                match a.args.get(0) {
                    DataValue::Int(k) => if *k > 0 {
                        Ok(AggOp::TopK(*k as u64))
                    } else {
                        Err(err_on(ErrKind::BoundedLimit, a.name.as_str()))
                    },
                    _ => Err(err_on(ErrKind::BoundedLimit, a.name.as_str())),
                }
            } else {
                match builtin(&a.name) {
                    Some(op) => if a.args.len() == 0 {
                        Ok(op)
                    } else {
                        Err(err_on(ErrKind::AggregateArgs, a.name.as_str()))
                    },
                    None => {
                        let i = find_custom(customs, &a.name);
                        if i >= customs.len() {
                            Err(err_on(ErrKind::UnknownAggregate, a.name.as_str()))
                        } else if a.args.len() == 0 {
                            Ok(AggOp::Custom(i))
                        } else {
                            Err(err_on(ErrKind::AggregateArgs, a.name.as_str()))
                        }
                    },
                }
            }
        },
    }
}

/// What happens to the columns of a head from place `i` on, after `acc`.
pub open spec fn resolved_from(
    head: Seq<HeadItemV>,
    customs: Seq<CustomV>,
    i: int,
    acc: Seq<AggOp>,
) -> Result<Seq<AggOp>, Fault>
    decreases head.len() - i,
{
    if i < 0 || i >= head.len() {
        Ok(acc)
    } else {
        match resolved(head[i], customs) {
            Ok(op) => resolved_from(head, customs, i + 1, acc.push(op)),
            Err(f) => Err(f),
        }
    }
}

/// What happens to the columns of a head.
pub fn resolve_head(head: &List<HeadItem>, customs: &List<Custom>) -> (r: Result<
    List<AggOp>,
    DbError,
>)
    ensures
        outcome(r) == resolved_from(head@, customs@, 0, Seq::empty()),
{
    let mut ops: List<AggOp> = List::new();
    let mut i: usize = 0;
    while i < head.len()
        invariant
            i <= head@.len(),
            resolved_from(head@, customs@, 0, Seq::empty()) == resolved_from(
                head@,
                customs@,
                i as int,
                ops@,
            ),
        decreases head@.len() - i,
    {
        match resolve(head.get(i), customs) {
            Ok(op) => ops.push(op),
            Err(e) => {
                return Err(e);
            },
        }
        i = i + 1;
    }
    Ok(ops)
}

/// Whether an aggregation is a meet.
pub open spec fn is_meet(op: AggOp, customs: Seq<CustomV>) -> bool {
    match op {
        AggOp::And => true,
        AggOp::Or => true,
        AggOp::BitAnd => true,
        AggOp::BitOr => true,
        AggOp::Min => true,
        AggOp::Max => true,
        AggOp::MinCost => true,
        AggOp::Custom(i) => i < customs.len() && customs[i as int].is_meet,
        _ => false,
    }
}

fn meet(op: AggOp, customs: &List<Custom>) -> (r: bool)
    ensures
        r == is_meet(op, customs@),
{
    match op {
        AggOp::And => true,
        AggOp::Or => true,
        AggOp::BitAnd => true,
        AggOp::BitOr => true,
        AggOp::Min => true,
        AggOp::Max => true,
        AggOp::MinCost => true,
        AggOp::Custom(i) => i < customs.len() && customs.get(i).is_meet,
        _ => false,
    }
}

/// The shape that the columns from place `i` on give, where those before are
/// plain so far (`0`), all meets (`1`), or not (`2`).
pub open spec fn shape_from(ops: Seq<AggOp>, customs: Seq<CustomV>, i: int, state: int) -> Result<
    Shape,
    Fault,
>
    decreases ops.len() - i,
{
    if i < 0 || i >= ops.len() {
        Ok(
            if state == 0 {
                Shape::Plain
            } else if state == 1 {
                Shape::Meet
            } else {
                Shape::Normal
            },
        )
    } else {
        match ops[i] {
            AggOp::Group => shape_from(ops, customs, i + 1, state),
            AggOp::TopK(k) => if state == 0 && i + 1 == ops.len() {
                Ok(Shape::Bounded(k))
            } else {
                Err(fault(ErrKind::BoundedPlace))
            },
            op => if state != 2 && is_meet(op, customs) {
                shape_from(ops, customs, i + 1, 1)
            } else {
                shape_from(ops, customs, i + 1, 2)
            },
        }
    }
}

/// The shape of a rule with these columns.
pub open spec fn shape_of(ops: Seq<AggOp>, customs: Seq<CustomV>) -> Result<Shape, Fault> {
    shape_from(ops, customs, 0, 0)
}

impl View for Shape {
    type V = Shape;

    open spec fn view(&self) -> Shape {
        *self
    }
}

/// The shape of a rule with these columns.
pub fn shape(ops: &List<AggOp>, customs: &List<Custom>) -> (r: Result<Shape, DbError>)
    ensures
        outcome(r) == shape_of(ops@, customs@),
{
    let mut state: u8 = 0;
    let mut i: usize = 0;
    while i < ops.len()
        invariant
            i <= ops@.len(),
            shape_of(ops@, customs@) == shape_from(ops@, customs@, i as int, state as int),
            state <= 2,
        decreases ops@.len() - i,
    {
        match *ops.get(i) {
            AggOp::Group => {},
            AggOp::TopK(k) => {
                if state == 0 && i + 1 == ops.len() {
                    return Ok(Shape::Bounded(k));
                } else {
                    return Err(err(ErrKind::BoundedPlace));
                }
            },
            op => {
                if state != 2 && meet(op, customs) {
                    state = 1;
                } else {
                    state = 2;
                }
            },
        }
        i = i + 1;
    }
    Ok(
        if state == 0 {
            Shape::Plain
        } else if state == 1 {
            Shape::Meet
        } else {
            Shape::Normal
        },
    )
}

/// What a column accumulates before the first row.
pub open spec fn init_of(op: AggOp, customs: Seq<CustomV>) -> Value {
    match op {
        AggOp::Count => Value::Int(0),
        AggOp::Sum => Value::Real(0),
        AggOp::Collect => Value::List(Seq::empty()),
        AggOp::And => MeetAggrAnd.init_view(),
        AggOp::Or => MeetAggrOr.init_view(),
        AggOp::BitAnd => MeetAggrBitAnd.init_view(),
        AggOp::BitOr => MeetAggrBitOr.init_view(),
        AggOp::Min => MeetAggrMin.init_view(),
        AggOp::Max => MeetAggrMax.init_view(),
        AggOp::MinCost => MeetAggrMinCost.init_view(),
        AggOp::Custom(i) => if i < customs.len() {
            customs[i as int].init
        } else {
            Value::Null
        },
        _ => Value::Null,
    }
}

fn init(op: AggOp, customs: &List<Custom>) -> (r: DataValue)
    ensures
        r@ == init_of(op, customs@),
{
    match op {
        AggOp::Count => DataValue::Int(0),
        AggOp::Sum => DataValue::Real(0),
        AggOp::Collect => list_value(List::new()),
        AggOp::And => MeetAggrAnd.init_val(),
        AggOp::Or => MeetAggrOr.init_val(),
        AggOp::BitAnd => MeetAggrBitAnd.init_val(),
        AggOp::BitOr => MeetAggrBitOr.init_val(),
        AggOp::Min => MeetAggrMin.init_val(),
        AggOp::Max => MeetAggrMax.init_val(),
        AggOp::MinCost => MeetAggrMinCost.init_val(),
        AggOp::Custom(i) => if i < customs.len() {
            customs.get(i).init_val()
        } else {
            DataValue::Null
        },
        _ => DataValue::Null,
    }
}

/// The value alone of an update.
pub open spec fn value_part(r: Result<(Value, bool), Fault>) -> Result<Value, Fault> {
    match r {
        Ok((v, _)) => Ok(v),
        Err(f) => Err(f),
    }
}

/// The update of a registered aggregation; one registered as a meet must not
/// change when the same value is taken in again.
pub open spec fn custom_step(c: CustomV, acc: Value, v: Value) -> Result<Value, Fault> {
    match (c.update)(acc, v) {
        Err(f) => Err(f),
        Ok((w, _)) => if !c.is_meet {
            Ok(w)
        } else {
            match (c.update)(w, v) {
                Err(f) => Err(f),
                Ok((x, changed)) => if changed || x != w {
                    Err(fault_on(ErrKind::NonIdempotentMeet, c.name))
                } else {
                    Ok(w)
                },
            }
        },
    }
}

fn step_custom(c: &Custom, acc: DataValue, v: &DataValue) -> (r: Result<DataValue, DbError>)
    ensures
        outcome(r) == custom_step(c@, acc@, v@),
{
    let mut w = acc;
    let first = c.update(&mut w, v);
    match first {
        Err(e) => {
            return Err(e);
        },
        Ok(_) => {},
    }
    if !c.is_meet {
        return Ok(w);
    }
    let mut x = w.dup();
    let second = c.update(&mut x, v);
    match second {
        Err(e) => Err(e),
        Ok(changed) => if changed || !same(&x, &w) {
            Err(err_on(ErrKind::NonIdempotentMeet, c.name.as_str()))
        } else {
            Ok(w)
        },
    }
}

/// What a column accumulates after one more value.
#[verifier::opaque]
pub open spec fn step_of(op: AggOp, customs: Seq<CustomV>, acc: Value, v: Value) -> Result<
    Value,
    Fault,
> {
    match op {
        AggOp::Count => match acc {
            Value::Int(n) => int_of(n + 1),
            _ => Err(fault_on(ErrKind::AggregateType, "count"@)),
        },
        AggOp::Sum => match to_real(v) {
            Some(x) => add_of(acc, x),
            None => Err(fault_on(ErrKind::AggregateType, "sum"@)),
        },
        AggOp::Collect => match acc {
            Value::List(l) => Ok(Value::List(l.push(v))),
            _ => Err(fault_on(ErrKind::AggregateType, "collect"@)),
        },
        AggOp::And => value_part(MeetAggrAnd.update_view(acc, v)),
        AggOp::Or => value_part(MeetAggrOr.update_view(acc, v)),
        AggOp::BitAnd => value_part(MeetAggrBitAnd.update_view(acc, v)),
        AggOp::BitOr => value_part(MeetAggrBitOr.update_view(acc, v)),
        AggOp::Min => value_part(MeetAggrMin.update_view(acc, v)),
        AggOp::Max => value_part(MeetAggrMax.update_view(acc, v)),
        AggOp::MinCost => value_part(MeetAggrMinCost.update_view(acc, v)),
        AggOp::Custom(i) => if i < customs.len() {
            custom_step(customs[i as int], acc, v)
        } else {
            Err(fault(ErrKind::UnknownAggregate))
        },
        _ => Ok(acc),
    }
}

fn finish(r: Result<bool, DbError>, v: DataValue) -> (out: Result<DataValue, DbError>)
    ensures
        outcome(out) == value_part(crate::aggr::stepped(r, v@)),
{
    match r {
        Ok(_) => Ok(v),
        Err(e) => Err(e),
    }
}

fn step(op: AggOp, customs: &List<Custom>, acc: DataValue, v: &DataValue) -> (r: Result<
    DataValue,
    DbError,
>)
    ensures
        outcome(r) == step_of(op, customs@, acc@, v@),
{
    reveal(step_of);
    let mut acc = acc;
    match op {
        AggOp::Count => match acc {
            DataValue::Int(n) => if n < i64::MAX {
                Ok(DataValue::Int(n + 1))
            } else {
                Err(err(ErrKind::Overflow))
            },
            _ => Err(err_on(ErrKind::AggregateType, "count")),
        },
        AggOp::Sum => match coerce_real(v) {
            Some(x) => add_values(&acc, &x),
            None => Err(err_on(ErrKind::AggregateType, "sum")),
        },
        AggOp::Collect => match acc {
            DataValue::List(l) => {
                let mut t = elements(&l);
                t.push(v.dup());
                Ok(list_value(t))
            },
            _ => Err(err_on(ErrKind::AggregateType, "collect")),
        },
        AggOp::And => {
            let c = MeetAggrAnd.update(&mut acc, v);
            finish(c, acc)
        },
        AggOp::Or => {
            let c = MeetAggrOr.update(&mut acc, v);
            finish(c, acc)
        },
        AggOp::BitAnd => {
            let c = MeetAggrBitAnd.update(&mut acc, v);
            finish(c, acc)
        },
        AggOp::BitOr => {
            let c = MeetAggrBitOr.update(&mut acc, v);
            finish(c, acc)
        },
        AggOp::Min => {
            let c = MeetAggrMin.update(&mut acc, v);
            finish(c, acc)
        },
        AggOp::Max => {
            let c = MeetAggrMax.update(&mut acc, v);
            finish(c, acc)
        },
        AggOp::MinCost => {
            let c = MeetAggrMinCost.update(&mut acc, v);
            finish(c, acc)
        },
        AggOp::Custom(i) => if i < customs.len() {
            step_custom(customs.get(i), acc, v)
        } else {
            Err(err(ErrKind::UnknownAggregate))
        },
        _ => Ok(acc),
    }
}

/// Whether two rows agree in the columns by which rows are grouped, from place
/// `i` on.
pub open spec fn same_group_from(ops: Seq<AggOp>, a: Seq<Value>, b: Seq<Value>, i: int) -> bool
    decreases ops.len() - i,
{
    if i < 0 || i >= ops.len() {
        true
    } else if i >= a.len() || i >= b.len() {
        false
    } else {
        (ops[i] == AggOp::Group ==> a[i] == b[i]) && same_group_from(ops, a, b, i + 1)
    }
}

fn same_group(ops: &List<AggOp>, a: &Tuple, b: &Tuple) -> (r: bool)
    ensures
        r == same_group_from(ops@, a@, b@, 0),
{
    let mut i: usize = 0;
    while i < ops.len()
        invariant
            i <= ops@.len(),
            same_group_from(ops@, a@, b@, 0) == same_group_from(ops@, a@, b@, i as int),
        decreases ops@.len() - i,
    {
        if i >= a.len() || i >= b.len() {
            return false;
        }
        if *ops.get(i) == AggOp::Group && !same(a.get(i), b.get(i)) {
            return false;
        }
        i = i + 1;
    }
    true
}

/// The first group from place `i` on to which a row belongs, and the length
/// where there is none.
pub open spec fn group_from(
    ops: Seq<AggOp>,
    groups: Seq<Seq<Value>>,
    row: Seq<Value>,
    i: int,
) -> int
    decreases groups.len() - i,
{
    if i < 0 || i >= groups.len() {
        groups.len() as int
    } else if same_group_from(ops, groups[i], row, 0) {
        i
    } else {
        group_from(ops, groups, row, i + 1)
    }
}

fn find_group(ops: &List<AggOp>, groups: &Rows, row: &Tuple) -> (r: usize)
    ensures
        r == group_from(ops@, groups@, row@, 0),
        r <= groups@.len(),
{
    let mut i: usize = 0;
    while i < groups.len()
        invariant
            i <= groups@.len(),
            group_from(ops@, groups@, row@, 0) == group_from(ops@, groups@, row@, i as int),
        decreases groups@.len() - i,
    {
        if same_group(ops, groups.get(i), row) {
            return i;
        }
        i = i + 1;
    }
    i
}

/// The state of a group before its first row.
pub open spec fn start_from(
    ops: Seq<AggOp>,
    customs: Seq<CustomV>,
    row: Seq<Value>,
    i: int,
    acc: Seq<Value>,
) -> Seq<Value>
    decreases ops.len() - i,
{
    if i < 0 || i >= ops.len() {
        acc
    } else if ops[i] == AggOp::Group && i < row.len() {
        start_from(ops, customs, row, i + 1, acc.push(row[i]))
    } else {
        start_from(ops, customs, row, i + 1, acc.push(init_of(ops[i], customs)))
    }
}

fn start(ops: &List<AggOp>, customs: &List<Custom>, row: &Tuple) -> (r: Tuple)
    ensures
        r@ == start_from(ops@, customs@, row@, 0, Seq::empty()),
{
    let mut acc: Tuple = List::new();
    let mut i: usize = 0;
    while i < ops.len()
        invariant
            i <= ops@.len(),
            start_from(ops@, customs@, row@, 0, Seq::empty()) == start_from(
                ops@,
                customs@,
                row@,
                i as int,
                acc@,
            ),
        decreases ops@.len() - i,
    {
        if *ops.get(i) == AggOp::Group && i < row.len() {
            acc.push(row.get(i).dup());
        } else {
            acc.push(init(*ops.get(i), customs));
        }
        i = i + 1;
    }
    acc
}

/// The state of a group after one more row.
pub open spec fn merge_from(
    ops: Seq<AggOp>,
    customs: Seq<CustomV>,
    state: Seq<Value>,
    row: Seq<Value>,
    i: int,
    acc: Seq<Value>,
) -> Result<Seq<Value>, Fault>
    decreases ops.len() - i,
{
    if i < 0 || i >= ops.len() {
        Ok(acc)
    } else if i >= state.len() || i >= row.len() {
        Err(fault(ErrKind::ArityMismatch))
    } else {
        match step_of(ops[i], customs, state[i], row[i]) {
            Ok(v) => merge_from(ops, customs, state, row, i + 1, acc.push(v)),
            Err(f) => Err(f),
        }
    }
}

fn merge(ops: &List<AggOp>, customs: &List<Custom>, state: &Tuple, row: &Tuple) -> (r: Result<
    Tuple,
    DbError,
>)
    ensures
        outcome(r) == merge_from(ops@, customs@, state@, row@, 0, Seq::empty()),
{
    let mut acc: Tuple = List::new();
    let mut i: usize = 0;
    while i < ops.len()
        invariant
            i <= ops@.len(),
            merge_from(ops@, customs@, state@, row@, 0, Seq::empty()) == merge_from(
                ops@,
                customs@,
                state@,
                row@,
                i as int,
                acc@,
            ),
        decreases ops@.len() - i,
    {
        if i >= state.len() || i >= row.len() {
            return Err(err(ErrKind::ArityMismatch));
        }
        match step(*ops.get(i), customs, state.get(i).dup(), row.get(i)) {
            Ok(v) => acc.push(v),
            Err(e) => {
                return Err(e);
            },
        }
        i = i + 1;
    }
    Ok(acc)
}

/// The groups after the rows from place `i` on.
pub open spec fn absorb_from(
    ops: Seq<AggOp>,
    customs: Seq<CustomV>,
    rows: Seq<Seq<Value>>,
    i: int,
    groups: Seq<Seq<Value>>,
) -> Result<Seq<Seq<Value>>, Fault>
    decreases rows.len() - i,
{
    if i < 0 || i >= rows.len() {
        Ok(groups)
    } else {
        let g = group_from(ops, groups, rows[i], 0);
        if g < groups.len() {
            match merge_from(ops, customs, groups[g], rows[i], 0, Seq::empty()) {
                Ok(s) => absorb_from(ops, customs, rows, i + 1, groups.update(g, s)),
                Err(f) => Err(f),
            }
        } else {
            let s0 = start_from(ops, customs, rows[i], 0, Seq::empty());
            match merge_from(ops, customs, s0, rows[i], 0, Seq::empty()) {
                Ok(s) => absorb_from(ops, customs, rows, i + 1, groups.push(s)),
                Err(f) => Err(f),
            }
        }
    }
}

/// The groups after the rows of a list.
pub fn absorb(ops: &List<AggOp>, customs: &List<Custom>, rows: &Rows, seed: Rows) -> (r: Result<
    Rows,
    DbError,
>)
    ensures
        outcome(r) == absorb_from(ops@, customs@, rows@, 0, seed@),
{
    let ghost first = seed@;
    let mut groups: Rows = seed;
    let mut i: usize = 0;
    while i < rows.len()
        invariant
            i <= rows@.len(),
            first == seed@,
            absorb_from(ops@, customs@, rows@, 0, first) == absorb_from(
                ops@,
                customs@,
                rows@,
                i as int,
                groups@,
            ),
        decreases rows@.len() - i,
    {
        let row = rows.get(i);
        let g = find_group(ops, &groups, row);
        if g < groups.len() {
            match merge(ops, customs, groups.get(g), row) {
                Ok(s) => groups.set(g, s),
                Err(e) => {
                    return Err(e);
                },
            }
        } else {
            let s0 = start(ops, customs, row);
            match merge(ops, customs, &s0, row) {
                Ok(s) => groups.push(s),
                Err(e) => {
                    return Err(e);
                },
            }
        }
        i = i + 1;
    }
    Ok(groups)
}

/// Whether no column from place `i` on groups the rows.
pub open spec fn ungrouped_from(ops: Seq<AggOp>, i: int) -> bool
    decreases ops.len() - i,
{
    if i < 0 || i >= ops.len() {
        true
    } else {
        ops[i] != AggOp::Group && ungrouped_from(ops, i + 1)
    }
}

fn ungrouped(ops: &List<AggOp>) -> (r: bool)
    ensures
        r == ungrouped_from(ops@, 0),
{
    let mut i: usize = 0;
    while i < ops.len()
        invariant
            i <= ops@.len(),
            ungrouped_from(ops@, 0) == ungrouped_from(ops@, i as int),
        decreases ops@.len() - i,
    {
        if *ops.get(i) == AggOp::Group {
            return false;
        }
        i = i + 1;
    }
    true
}

/// The groups before any row: where nothing groups the rows there is one.
pub open spec fn seed_of(ops: Seq<AggOp>, customs: Seq<CustomV>) -> Seq<Seq<Value>> {
    if ungrouped_from(ops, 0) {
        seq![start_from(ops, customs, Seq::empty(), 0, Seq::empty())]
    } else {
        Seq::empty()
    }
}

/// The rows of a list, aggregated.
pub open spec fn aggregated(
    ops: Seq<AggOp>,
    customs: Seq<CustomV>,
    rows: Seq<Seq<Value>>,
) -> Result<
    Seq<Seq<Value>>,
    Fault,
> {
    match absorb_from(ops, customs, rows, 0, seed_of(ops, customs)) {
        Ok(groups) => Ok(sorted_of(groups)),
        Err(f) => Err(f),
    }
}

/// The rows of a list, aggregated.
pub fn aggregate(ops: &List<AggOp>, customs: &List<Custom>, rows: &Rows) -> (r: Result<
    Rows,
    DbError,
>)
    ensures
        outcome(r) == aggregated(ops@, customs@, rows@),
{
    let mut seed: Rows = List::new();
    if ungrouped(ops) {
        seed.push(start(ops, customs, &List::new()));
    }
    assert(seed@ =~= seed_of(ops@, customs@));
    match absorb(ops, customs, rows, seed) {
        Ok(groups) => Ok(sorted(&groups)),
        Err(e) => Err(e),
    }
}

} // verus!
