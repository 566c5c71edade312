//! Columns, their types, and the temporal axes of a relation.
use vstd::prelude::*;

use crate::error::ErrKind;
use crate::expr::{Expr, ExprV, fits};
use crate::fixed_point::quotient;
use crate::list::{Dup, List, dup_opt, opt_of};
use crate::value::{DataValue, Tuple, UNIT, Value, list_value, values_of};

verus! {

/// The type of a column.
pub enum ColType {
    Any,
    Bool,
    Int,
    Float,
    Str,
    Bytes,
    Uuid,
    Json,
    /// The valid-time axis.
    Validity,
    /// The transaction-time axis.
    TxTime,
    Nullable(Box<ColType>),
    ListOf(Box<ColType>),
    /// The end of a tuple.
    TupleEnd,
    /// A tuple: the type of its first element and the rest.
    TupleOf(Box<ColType>, Box<ColType>),
    /// A vector of reals of a fixed length.
    Vector(u64),
}

impl View for ColType {
    type V = ColType;

    open spec fn view(&self) -> ColType {
        *self
    }
}

impl Dup for ColType {
    fn dup(&self) -> (r: Self)
        ensures
            r == *self,
        decreases self,
    {
        match self {
            ColType::Any => ColType::Any,
            ColType::Bool => ColType::Bool,
            ColType::Int => ColType::Int,
            ColType::Float => ColType::Float,
            ColType::Str => ColType::Str,
            ColType::Bytes => ColType::Bytes,
            ColType::Uuid => ColType::Uuid,
            ColType::Json => ColType::Json,
            ColType::Validity => ColType::Validity,
            ColType::TxTime => ColType::TxTime,
            ColType::Nullable(t) => ColType::Nullable(Box::new((**t).dup())),
            ColType::ListOf(t) => ColType::ListOf(Box::new((**t).dup())),
            ColType::TupleEnd => ColType::TupleEnd,
            ColType::TupleOf(a, b) => ColType::TupleOf(
                Box::new((**a).dup()),
                Box::new((**b).dup()),
            ),
            ColType::Vector(n) => ColType::Vector(*n),
        }
    }
}

/// A column of a stored relation.
pub struct Column {
    pub name: String,
    pub typ: ColType,
    /// What the column holds where a write does not give it.
    pub default: Option<Expr>,
}

/// The mathematical counterpart of [`Column`].
#[verifier::ext_equal]
pub struct ColumnV {
    pub name: Seq<char>,
    pub typ: ColType,
    pub default: Option<ExprV>,
}

impl View for Column {
    type V = ColumnV;

    open spec fn view(&self) -> ColumnV {
        ColumnV {
            name: self.name@,
            typ: self.typ,
            default: opt_of(self.default),
        }
    }
}

impl Dup for Column {
    fn dup(&self) -> (r: Self) {
        Column {
            name: self.name.clone(),
            typ: self.typ.dup(),
            default: dup_opt(&self.default),
        }
    }
}

/// A value as an integer, where it is one.
pub open spec fn to_int(v: Value) -> Option<Value> {
    match v {
        Value::Int(n) => Some(Value::Int(n)),
        Value::Real(m) => if m as int % UNIT as int == 0 && fits(m as int / UNIT as int) {
            Some(Value::Int((m as int / UNIT as int) as i64))
        } else {
            None
        },
        _ => None,
    }
}

fn coerce_int(v: &DataValue) -> (r: Option<DataValue>)
    ensures
        opt_of(r) == to_int(v@),
{
    match v {
        DataValue::Int(n) => Some(DataValue::Int(*n)),
        DataValue::Real(m) => {
            let q: i128 = quotient(*m, 1_000_000);
            if q * 1_000_000 == *m && -0x8000_0000_0000_0000 <= q && q <= 0x7fff_ffff_ffff_ffff {
                Some(DataValue::Int(q as i64))
            } else {
                None
            }
        },
        _ => None,
    }
}

/// A value as a real, where it is a number.
pub open spec fn to_real(v: Value) -> Option<Value> {
    match v {
        Value::Int(n) => Some(Value::Real((n * UNIT) as i128)),
        Value::Real(m) => Some(Value::Real(m)),
        _ => None,
    }
}

/// A value as a real, where it is a number.
pub fn coerce_real(v: &DataValue) -> (r: Option<DataValue>)
    ensures
        opt_of(r) == to_real(v@),
{
    match v {
        DataValue::Int(n) => Some(DataValue::Real(*n as i128 * UNIT as i128)),
        DataValue::Real(m) => Some(DataValue::Real(*m)),
        _ => None,
    }
}

/// A value as a point on the valid-time axis: a pair of an instant and a
/// flag, or a word that stands for the present.
pub open spec fn to_validity(v: Value, now: i64) -> Option<Value> {
    match v {
        Value::Validity(t, a) => Some(Value::Validity(t, a)),
        Value::Str(s) => if s == "ASSERT"@ {
            Some(Value::Validity(now, true))
        } else if s == "RETRACT"@ {
            Some(Value::Validity(now, false))
        } else {
            None
        },
        Value::List(l) => if l.len() == 2 {
            match (l[0], l[1]) {
                (Value::Int(t), Value::Bool(a)) => Some(Value::Validity(t, a)),
                _ => None,
            }
        } else {
            None
        },
        _ => None,
    }
}

fn coerce_validity(v: &DataValue, now: i64) -> (r: Option<DataValue>)
    ensures
        opt_of(r) == to_validity(v@, now),
{
    match v {
        DataValue::Validity(t, a) => Some(DataValue::Validity(*t, *a)),
        DataValue::Str(s) => {
            if *s == "ASSERT".to_owned() {
                Some(DataValue::Validity(now, true))
            } else if *s == "RETRACT".to_owned() {
                Some(DataValue::Validity(now, false))
            } else {
                None
            }
        },
        DataValue::List(l) => {
            if l.len() == 2 {
                assert(values_of(l@).len() == 2);
                match (&l[0], &l[1]) {
                    (DataValue::Int(t), DataValue::Bool(a)) => Some(DataValue::Validity(*t, *a)),
                    _ => None,
                }
            } else {
                None
            }
        },
        _ => None,
    }
}

/// The value that a column of type `t` holds where `v` is written to it, and
/// nothing where `v` does not fit. `now` is the instant of the write.
pub open spec fn coerced(v: Value, t: ColType, now: i64) -> Option<Value>
    decreases t, 1int,
{
    match t {
        ColType::Any => Some(v),
        ColType::Bool => if v is Bool {
            Some(v)
        } else {
            None
        },
        ColType::Int => to_int(v),
        ColType::Float => to_real(v),
        ColType::Str => if v is Str {
            Some(v)
        } else {
            None
        },
        ColType::Bytes => if v is Bytes {
            Some(v)
        } else {
            None
        },
        ColType::Uuid => if v is Uuid {
            Some(v)
        } else {
            None
        },
        ColType::Json => Some(v),
        ColType::Validity => to_validity(v, now),
        ColType::TxTime => None,
        ColType::Nullable(u) => if v is Null {
            Some(v)
        } else {
            coerced(v, *u, now)
        },
        ColType::ListOf(u) => match v {
            Value::List(l) => match all_coerced(l, *u, 0, now, Seq::empty()) {
                Some(s) => Some(Value::List(s)),
                None => None,
            },
            _ => None,
        },
        ColType::TupleEnd => match v {
            Value::List(l) => if l.len() == 0 {
                Some(v)
            } else {
                None
            },
            _ => None,
        },
        ColType::TupleOf(a, b) => match v {
            Value::List(l) => match tuple_coerced(l, t, 0, now, Seq::empty()) {
                Some(s) => Some(Value::List(s)),
                None => None,
            },
            _ => None,
        },
        ColType::Vector(n) => match v {
            Value::List(l) => if l.len() == n {
                match reals_from(l, 0, Seq::empty()) {
                    Some(s) => Some(Value::List(s)),
                    None => None,
                }
            } else {
                None
            },
            _ => None,
        },
    }
}

/// Every element from place `i` on as an element of type `u`, after `acc`.
pub open spec fn all_coerced(
    l: Seq<Value>,
    u: ColType,
    i: int,
    now: i64,
    acc: Seq<Value>,
) -> Option<Seq<Value>>
    decreases u, l.len() - i + 1,
{
    if i < 0 || i >= l.len() {
        Some(acc)
    } else {
        match coerced(l[i], u, now) {
            Some(w) => all_coerced(l, u, i + 1, now, acc.push(w)),
            None => None,
        }
    }
}

/// The elements from place `i` on as those of a tuple of type `t`.
pub open spec fn tuple_coerced(
    l: Seq<Value>,
    t: ColType,
    i: int,
    now: i64,
    acc: Seq<Value>,
) -> Option<Seq<Value>>
    decreases t, 0int,
{
    match t {
        ColType::TupleEnd => if i == l.len() {
            Some(acc)
        } else {
            None
        },
        ColType::TupleOf(a, b) => if 0 <= i < l.len() {
            match coerced(l[i], *a, now) {
                Some(w) => tuple_coerced(l, *b, i + 1, now, acc.push(w)),
                None => None,
            }
        } else {
            None
        },
        _ => None,
    }
}

/// Every element from place `i` on as a real, after `acc`.
pub open spec fn reals_from(l: Seq<Value>, i: int, acc: Seq<Value>) -> Option<Seq<Value>>
    decreases l.len() - i,
{
    if i < 0 || i >= l.len() {
        Some(acc)
    } else {
        match to_real(l[i]) {
            Some(w) => reals_from(l, i + 1, acc.push(w)),
            None => None,
        }
    }
}

/// Every element of a list as a real.
pub fn reals(l: &Vec<DataValue>) -> (r: Option<Tuple>)
    ensures
        opt_of(r) == reals_from(values_of(l@), 0, Seq::empty()),
{
    let mut acc: Tuple = List::new();
    let mut i: usize = 0;
    let ghost all = values_of(l@);
    while i < l.len()
        invariant
            i <= l@.len(),
            all == values_of(l@),
            reals_from(all, 0, Seq::empty()) == reals_from(all, i as int, acc@),
        decreases l@.len() - i,
    {
        match coerce_real(&l[i]) {
            Some(w) => acc.push(w),
            None => {
                return None;
            },
        }
        i = i + 1;
    }
    Some(acc)
}

fn same_kind(v: &DataValue, ok: bool) -> (r: Option<DataValue>)
    ensures
        opt_of(r) == (if ok {
            Some(v@)
        } else {
            None
        }),
{
    if ok {
        Some(v.dup())
    } else {
        None
    }
}

/// The value that a column of type `t` holds where `v` is written to it.
pub fn coerce(v: &DataValue, t: &ColType, now: i64) -> (r: Option<DataValue>)
    ensures
        opt_of(r) == coerced(v@, *t, now),
    decreases t, 1int,
{
    match t {
        ColType::Any => Some(v.dup()),
        ColType::Bool => same_kind(v, matches!(v, DataValue::Bool(_))),
        ColType::Int => coerce_int(v),
        ColType::Float => coerce_real(v),
        ColType::Str => same_kind(v, matches!(v, DataValue::Str(_))),
        ColType::Bytes => same_kind(v, matches!(v, DataValue::Bytes(_))),
        ColType::Uuid => same_kind(v, matches!(v, DataValue::Uuid(_))),
        ColType::Json => Some(v.dup()),
        ColType::Validity => coerce_validity(v, now),
        ColType::TxTime => None,
        ColType::Nullable(u) => match v {
            DataValue::Null => Some(DataValue::Null),
            _ => coerce(v, u, now),
        },
        ColType::ListOf(u) => match v {
            DataValue::List(l) => {
                let mut acc: Tuple = List::new();
                let mut i: usize = 0;
                let ghost all = values_of(l@);
                while i < l.len()
                    invariant
                        i <= l@.len(),
                        t == ColType::ListOf(*u),
                        *v == DataValue::List(*l),
                        all == values_of(l@),
                        all_coerced(all, **u, 0, now, Seq::empty()) == all_coerced(
                            all,
                            **u,
                            i as int,
                            now,
                            acc@,
                        ),
                    decreases l@.len() - i,
                {
                    match coerce(&l[i], u, now) {
                        Some(w) => acc.push(w),
                        None => {
                            return None;
                        },
                    }
                    i = i + 1;
                }
                Some(list_value(acc))
            },
            _ => None,
        },
        ColType::TupleEnd => match v {
            DataValue::List(l) => same_kind(v, l.len() == 0),
            _ => None,
        },
        ColType::TupleOf(a, b) => match v {
            DataValue::List(l) => match coerce_tuple(l, t, 0, now, List::new()) {
                Some(s) => Some(list_value(s)),
                None => None,
            },
            _ => None,
        },
        ColType::Vector(n) => match v {
            DataValue::List(l) => if l.len() as u64 == *n {
                match reals(l) {
                    Some(s) => Some(list_value(s)),
                    None => None,
                }
            } else {
                None
            },
            _ => None,
        },
    }
}

fn coerce_tuple(l: &Vec<DataValue>, t: &ColType, i: usize, now: i64, acc: Tuple) -> (r: Option<
    Tuple,
>)
    requires
        i <= l@.len(),
    ensures
        opt_of(r) == tuple_coerced(values_of(l@), *t, i as int, now, acc@),
    decreases t, 0int,
{
    match t {
        ColType::TupleEnd => if i == l.len() {
            Some(acc)
        } else {
            None
        },
        ColType::TupleOf(a, b) => if i < l.len() {
            match coerce(&l[i], a, now) {
                Some(w) => {
                    let mut next = acc;
                    next.push(w);
                    coerce_tuple(l, b, i + 1, now, next)
                },
                None => None,
            }
        } else {
            None
        },
        _ => None,
    }
}

/// The temporal axes of a relation.
#[derive(Clone, Copy, Debug, PartialEq, Eq, Structural)]
pub enum RelKind {
    Plain,
    /// Valid time only.
    Valid,
    /// Transaction time only.
    Tx,
    /// Valid time and transaction time.
    Bi,
}

/// Whether a type declares an axis: transaction time where `tt`, else valid
/// time. A nullable declaration counts.
pub open spec fn declares(t: ColType, tt: bool) -> bool {
    match t {
        ColType::TxTime => tt,
        ColType::Validity => !tt,
        ColType::Nullable(u) => (*u is TxTime && tt) || (*u is Validity && !tt),
        _ => false,
    }
}

fn type_declares(t: &ColType, tt: bool) -> (r: bool)
    ensures
        r == declares(*t, tt),
{
    match t {
        ColType::TxTime => tt,
        ColType::Validity => !tt,
        ColType::Nullable(u) => match **u {
            ColType::TxTime => tt,
            ColType::Validity => !tt,
            _ => false,
        },
        _ => false,
    }
}

/// The first column from place `i` on that declares the axis, and the length
/// where none does.
pub open spec fn axis_from(cols: Seq<ColumnV>, tt: bool, i: int) -> int
    decreases cols.len() - i,
{
    if i < 0 || i >= cols.len() {
        cols.len() as int
    } else if declares(cols[i].typ, tt) {
        i
    } else {
        axis_from(cols, tt, i + 1)
    }
}

fn find_axis(cols: &List<Column>, tt: bool, start: usize) -> (r: usize)
    requires
        start <= cols@.len(),
    ensures
        r == axis_from(cols@, tt, start as int),
        start <= r <= cols@.len(),
{
    let mut i: usize = start;
    while i < cols.len()
        invariant
            start <= i <= cols@.len(),
            axis_from(cols@, tt, start as int) == axis_from(cols@, tt, i as int),
        decreases cols@.len() - i,
    {
        if type_declares(&cols.get(i).typ, tt) {
            return i;
        }
        i = i + 1;
    }
    i
}

/// Which rule on temporal axes a declaration breaks, if any.
pub open spec fn axis_fault(keys: Seq<ColumnV>, vals: Seq<ColumnV>) -> Option<ErrKind> {
    let t = axis_from(keys, true, 0);
    let v = axis_from(keys, false, 0);
    if axis_from(vals, true, 0) < vals.len() {
        Some(ErrKind::AxisValueColumn)
    } else if t >= keys.len() {
        None
    } else if axis_from(keys, true, t + 1) < keys.len() {
        Some(ErrKind::AxisTwoTt)
    } else if keys[t].typ is Nullable {
        Some(ErrKind::AxisNullable)
    } else if t + 1 != keys.len() {
        Some(ErrKind::AxisLast)
    } else if v >= keys.len() {
        None
    } else if axis_from(keys, false, v + 1) < keys.len() {
        Some(ErrKind::AxisTwoVt)
    } else if keys[v].typ is Nullable {
        Some(ErrKind::AxisNullable)
    } else if v + 2 != keys.len() {
        Some(ErrKind::AxisGap)
    } else {
        None
    }
}

fn is_nullable(t: &ColType) -> (r: bool)
    ensures
        r == (*t is Nullable),
{
    matches!(t, ColType::Nullable(_))
}

/// Which rule on temporal axes a declaration breaks, if any.
pub fn check_axes(keys: &List<Column>, vals: &List<Column>) -> (r: Option<ErrKind>)
    ensures
        r == axis_fault(keys@, vals@),
{
    if find_axis(vals, true, 0) < vals.len() {
        return Some(ErrKind::AxisValueColumn);
    }
    let t = find_axis(keys, true, 0);
    if t >= keys.len() {
        return None;
    }
    if find_axis(keys, true, t + 1) < keys.len() {
        return Some(ErrKind::AxisTwoTt);
    }
    if is_nullable(&keys.get(t).typ) {
        return Some(ErrKind::AxisNullable);
    }
    if t + 1 != keys.len() {
        return Some(ErrKind::AxisLast);
    }
    let v = find_axis(keys, false, 0);
    if v >= keys.len() {
        return None;
    }
    if find_axis(keys, false, v + 1) < keys.len() {
        return Some(ErrKind::AxisTwoVt);
    }
    if is_nullable(&keys.get(v).typ) {
        return Some(ErrKind::AxisNullable);
    }
    if v >= keys.len() - 1 || v + 2 != keys.len() {
        return Some(ErrKind::AxisGap);
    }
    None
}

/// The kind of a relation with these key columns.
pub open spec fn kind_of(keys: Seq<ColumnV>) -> RelKind {
    if keys.len() == 0 {
        RelKind::Plain
    } else if keys[keys.len() - 1].typ is TxTime {
        if keys.len() >= 2 && keys[keys.len() - 2].typ is Validity {
            RelKind::Bi
        } else {
            RelKind::Tx
        }
    } else if keys[keys.len() - 1].typ is Validity {
        RelKind::Valid
    } else {
        RelKind::Plain
    }
}

/// The kind of a relation with these key columns.
pub fn kind(keys: &List<Column>) -> (r: RelKind)
    ensures
        r == kind_of(keys@),
{
    let n = keys.len();
    if n == 0 {
        return RelKind::Plain;
    }
    match keys.get(n - 1).typ {
        ColType::TxTime => {
            if n >= 2 {
                match keys.get(n - 2).typ {
                    ColType::Validity => RelKind::Bi,
                    _ => RelKind::Tx,
                }
            } else {
                RelKind::Tx
            }
        },
        ColType::Validity => RelKind::Valid,
        _ => RelKind::Plain,
    }
}

/// Whether a declaration has its axes where the rules want them: no
/// transaction-time column among the values, and among the keys at most one,
/// not nullable and last, with at most one valid-time column before it, not
/// nullable and next to it.
pub open spec fn axes_in_place(keys: Seq<ColumnV>, vals: Seq<ColumnV>) -> bool {
    &&& forall|i: int| 0 <= i < vals.len() ==> !declares(#[trigger] vals[i].typ, true)
    &&& forall|i: int|
        0 <= i < keys.len() && declares(#[trigger] keys[i].typ, true) ==> i == keys.len() - 1
            && keys[i].typ is TxTime
    &&& (keys.len() > 0 && declares(keys[keys.len() - 1].typ, true)) ==> forall|i: int|
        0 <= i < keys.len() && declares(#[trigger] keys[i].typ, false) ==> i == keys.len() - 2
            && keys[i].typ is Validity
}

proof fn lemma_axis_from(cols: Seq<ColumnV>, tt: bool, i: int)
    requires
        0 <= i <= cols.len(),
    ensures
        i <= axis_from(cols, tt, i) <= cols.len(),
        forall|k: int|
            i <= k < axis_from(cols, tt, i) ==> !declares(#[trigger] cols[k].typ, tt),
        axis_from(cols, tt, i) < cols.len() ==> declares(cols[axis_from(cols, tt, i)].typ, tt),
    decreases cols.len() - i,
{
    if i < cols.len() && !declares(cols[i].typ, tt) {
        lemma_axis_from(cols, tt, i + 1);
    }
}

/// A declaration is accepted exactly where its axes are in place.
pub proof fn law_axes_accepted(keys: Seq<ColumnV>, vals: Seq<ColumnV>)
    ensures
        axis_fault(keys, vals) is None <==> axes_in_place(keys, vals),
{
    let t = axis_from(keys, true, 0);
    let v = axis_from(keys, false, 0);
    lemma_axis_from(vals, true, 0);
    lemma_axis_from(keys, true, 0);
    lemma_axis_from(keys, false, 0);
    if t < keys.len() {
        lemma_axis_from(keys, true, t + 1);
    }
    if v < keys.len() {
        lemma_axis_from(keys, false, v + 1);
    }
    if axis_fault(keys, vals) is Some && axes_in_place(keys, vals) {
        assert(t >= keys.len() || keys[t].typ is TxTime);
        if axis_from(vals, true, 0) < vals.len() {
            assert(declares(vals[axis_from(vals, true, 0)].typ, true));
        } else if axis_from(keys, true, t + 1) < keys.len() {
            assert(declares(keys[axis_from(keys, true, t + 1)].typ, true));
        } else if v < keys.len() {
            assert(declares(keys[v].typ, false));
            if axis_from(keys, false, v + 1) < keys.len() {
                assert(declares(keys[axis_from(keys, false, v + 1)].typ, false));
            }
        }
    }
}

} // verus!
