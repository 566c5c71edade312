//! Aggregations: meets, their registry, and folds over rows.
use vstd::prelude::*;

use crate::error::{DbError, ErrKind, Fault, err, err_on, fault, fault_on, outcome};
use crate::expr::{compare_loose, is_number, loose_order, number, real_of};
use crate::fixed_point::sum;
use crate::list::{Dup, List, opt_of};
use crate::rules::FixedRule;
use crate::stmt::{Param, ParamV};
use crate::table::Rows;
use crate::value::{
    DataValue, Sign, UNIT, Value, compare, micros, micros_of, order, same, values_of,
};

verus! {

/// What an update of an accumulated value did: the new value and whether it
/// differs, or the error that left the value as it was.
pub open spec fn stepped(r: Result<bool, DbError>, left: Value) -> Result<(Value, bool), Fault> {
    match r {
        Ok(c) => Ok((left, c)),
        Err(e) => Err(e@),
    }
}

/// A value together with whether it differs from what there was.
pub open spec fn moved(left: Value, next: Result<Value, Fault>) -> Result<(Value, bool), Fault> {
    match next {
        Ok(v) => Ok((v, v != left)),
        Err(f) => Err(f),
    }
}

/// An aggregation that combines two values into one.
pub trait MeetAggrObj {
    /// What the accumulated value is before the first update.
    spec fn init_view(&self) -> Value;

    /// The accumulated value after an update, and whether it changed.
    spec fn update_view(&self, left: Value, right: Value) -> Result<(Value, bool), Fault>;

    fn init_val(&self) -> (r: DataValue)
        ensures
            r@ == self.init_view(),
    ;

    /// Takes `right` into `left`; tells whether `left` changed.
    fn update(&self, left: &mut DataValue, right: &DataValue) -> (r: Result<bool, DbError>)
        ensures
            stepped(r, final(left)@) == self.update_view(old(left)@, right@),
            r is Err ==> final(left)@ == old(left)@,
    ;
}

fn settle(left: &mut DataValue, next: Result<DataValue, DbError>) -> (r: Result<bool, DbError>)
    ensures
        stepped(r, final(left)@) == moved(old(left)@, outcome(next)),
        r is Err ==> final(left)@ == old(left)@,
{
    match next {
        Ok(v) => {
            let changed = !same(&v, left);
            *left = v;
            Ok(changed)
        },
        Err(e) => Err(e),
    }
}

pub open spec fn conjoin_of(left: Value, right: Value) -> Result<Value, Fault> {
    match (left, right) {
        (Value::Bool(a), Value::Bool(b)) => Ok(Value::Bool(a && b)),
        _ => Err(fault_on(ErrKind::AggregateType, "and"@)),
    }
}

fn conjoin(left: &DataValue, right: &DataValue) -> (r: Result<DataValue, DbError>)
    ensures
        outcome(r) == conjoin_of(left@, right@),
{
    match (left, right) {
        (DataValue::Bool(a), DataValue::Bool(b)) => Ok(DataValue::Bool(*a && *b)),
        _ => Err(err_on(ErrKind::AggregateType, "and")),
    }
}

/// The conjunction of truth values.
pub struct MeetAggrAnd;

impl MeetAggrObj for MeetAggrAnd {
    open spec fn init_view(&self) -> Value {
        Value::Bool(true)
    }

    open spec fn update_view(&self, left: Value, right: Value) -> Result<(Value, bool), Fault> {
        moved(left, conjoin_of(left, right))
    }

    fn init_val(&self) -> (r: DataValue) {
        DataValue::Bool(true)
    }

    fn update(&self, left: &mut DataValue, right: &DataValue) -> (r: Result<bool, DbError>) {
        let next = conjoin(left, right);
        settle(left, next)
    }
}

pub open spec fn disjoin_of(left: Value, right: Value) -> Result<Value, Fault> {
    match (left, right) {
        (Value::Bool(a), Value::Bool(b)) => Ok(Value::Bool(a || b)),
        _ => Err(fault_on(ErrKind::AggregateType, "or"@)),
    }
}

fn disjoin(left: &DataValue, right: &DataValue) -> (r: Result<DataValue, DbError>)
    ensures
        outcome(r) == disjoin_of(left@, right@),
{
    match (left, right) {
        (DataValue::Bool(a), DataValue::Bool(b)) => Ok(DataValue::Bool(*a || *b)),
        _ => Err(err_on(ErrKind::AggregateType, "or")),
    }
}

/// The disjunction of truth values.
pub struct MeetAggrOr;

impl MeetAggrObj for MeetAggrOr {
    open spec fn init_view(&self) -> Value {
        Value::Bool(false)
    }

    open spec fn update_view(&self, left: Value, right: Value) -> Result<(Value, bool), Fault> {
        moved(left, disjoin_of(left, right))
    }

    fn init_val(&self) -> (r: DataValue) {
        DataValue::Bool(false)
    }

    fn update(&self, left: &mut DataValue, right: &DataValue) -> (r: Result<bool, DbError>) {
        let next = disjoin(left, right);
        settle(left, next)
    }
}

/// Two byte strings of one length, combined byte by byte; the empty byte
/// string stands for a value not yet known.
pub open spec fn bit_conjoin_of(left: Value, right: Value) -> Result<Value, Fault> {
    match (left, right) {
        (Value::Bytes(a), Value::Bytes(b)) => if a.len() == 0 {
            Ok(Value::Bytes(b))
        } else if a.len() == b.len() {
            Ok(Value::Bytes(Seq::new(a.len(), |i: int| a[i] & b[i])))
        } else {
            Err(fault_on(ErrKind::AggregateType, "bit_and"@))
        },
        _ => Err(fault_on(ErrKind::AggregateType, "bit_and"@)),
    }
}

fn bit_conjoin(left: &DataValue, right: &DataValue) -> (r: Result<DataValue, DbError>)
    ensures
        outcome(r) == bit_conjoin_of(left@, right@),
{
    match (left, right) {
        (DataValue::Bytes(a), DataValue::Bytes(b)) => {
            if a.len() == 0 {
                return Ok(DataValue::Bytes(b.clone()));
            }
            if a.len() != b.len() {
                return Err(err_on(ErrKind::AggregateType, "bit_and"));
            }
            let mut out: Vec<u8> = Vec::new();
            let mut i: usize = 0;
            let ghost all = Seq::new(a@.len(), |i: int| a@[i] & b@[i]);
            while i < a.len()
                invariant
                    i <= a@.len(),
                    a@.len() == b@.len(),
                    all == Seq::new(a@.len(), |i: int| a@[i] & b@[i]),
                    out@ == all.take(i as int),
                decreases a@.len() - i,
            {
                out.push(a[i] & b[i]);
                assert(all.take(i + 1) =~= all.take(i as int).push(all[i as int]));
                i = i + 1;
            }
            assert(all.take(i as int) =~= all);
            Ok(DataValue::Bytes(out))
        },
        _ => Err(err_on(ErrKind::AggregateType, "bit_and")),
    }
}

/// Byte strings, combined bit by bit.
pub struct MeetAggrBitAnd;

impl MeetAggrObj for MeetAggrBitAnd {
    open spec fn init_view(&self) -> Value {
        Value::Bytes(Seq::empty())
    }

    open spec fn update_view(&self, left: Value, right: Value) -> Result<(Value, bool), Fault> {
        moved(left, bit_conjoin_of(left, right))
    }

    fn init_val(&self) -> (r: DataValue) {
        DataValue::Bytes(Vec::new())
    }

    fn update(&self, left: &mut DataValue, right: &DataValue) -> (r: Result<bool, DbError>) {
        let next = bit_conjoin(left, right);
        settle(left, next)
    }
}

/// Two byte strings of one length, combined byte by byte; the empty byte
/// string stands for a value not yet known.
pub open spec fn bit_disjoin_of(left: Value, right: Value) -> Result<Value, Fault> {
    match (left, right) {
        (Value::Bytes(a), Value::Bytes(b)) => if a.len() == 0 {
            Ok(Value::Bytes(b))
        } else if a.len() == b.len() {
            Ok(Value::Bytes(Seq::new(a.len(), |i: int| a[i] | b[i])))
        } else {
            Err(fault_on(ErrKind::AggregateType, "bit_or"@))
        },
        _ => Err(fault_on(ErrKind::AggregateType, "bit_or"@)),
    }
}

fn bit_disjoin(left: &DataValue, right: &DataValue) -> (r: Result<DataValue, DbError>)
    ensures
        outcome(r) == bit_disjoin_of(left@, right@),
{
    match (left, right) {
        (DataValue::Bytes(a), DataValue::Bytes(b)) => {
            if a.len() == 0 {
                return Ok(DataValue::Bytes(b.clone()));
            }
            if a.len() != b.len() {
                return Err(err_on(ErrKind::AggregateType, "bit_or"));
            }
            let mut out: Vec<u8> = Vec::new();
            let mut i: usize = 0;
            let ghost all = Seq::new(a@.len(), |i: int| a@[i] | b@[i]);
            while i < a.len()
                invariant
                    i <= a@.len(),
                    a@.len() == b@.len(),
                    all == Seq::new(a@.len(), |i: int| a@[i] | b@[i]),
                    out@ == all.take(i as int),
                decreases a@.len() - i,
            {
                out.push(a[i] | b[i]);
                assert(all.take(i + 1) =~= all.take(i as int).push(all[i as int]));
                i = i + 1;
            }
            assert(all.take(i as int) =~= all);
            Ok(DataValue::Bytes(out))
        },
        _ => Err(err_on(ErrKind::AggregateType, "bit_or")),
    }
}

/// Byte strings, combined bit by bit.
pub struct MeetAggrBitOr;

impl MeetAggrObj for MeetAggrBitOr {
    open spec fn init_view(&self) -> Value {
        Value::Bytes(Seq::empty())
    }

    open spec fn update_view(&self, left: Value, right: Value) -> Result<(Value, bool), Fault> {
        moved(left, bit_disjoin_of(left, right))
    }

    fn init_val(&self) -> (r: DataValue) {
        DataValue::Bytes(Vec::new())
    }

    fn update(&self, left: &mut DataValue, right: &DataValue) -> (r: Result<bool, DbError>) {
        let next = bit_disjoin(left, right);
        settle(left, next)
    }
}

/// The lesser of two values; null stands for a value not yet known.
pub open spec fn lesser_of(left: Value, right: Value) -> Result<Value, Fault> {
    if left is Null || (!(right is Null) && loose_order(right, left) == Sign::Less) {
        Ok(right)
    } else {
        Ok(left)
    }
}

fn lesser(left: &DataValue, right: &DataValue) -> (r: Result<DataValue, DbError>)
    ensures
        outcome(r) == lesser_of(left@, right@),
{
    let take = match left {
        DataValue::Null => true,
        _ => match right {
            DataValue::Null => false,
            _ => compare_loose(right, left) == Sign::Less,
        },
    };
    if take {
        Ok(right.dup())
    } else {
        Ok(left.dup())
    }
}

/// The least value.
pub struct MeetAggrMin;

impl MeetAggrObj for MeetAggrMin {
    open spec fn init_view(&self) -> Value {
        Value::Null
    }

    open spec fn update_view(&self, left: Value, right: Value) -> Result<(Value, bool), Fault> {
        moved(left, lesser_of(left, right))
    }

    fn init_val(&self) -> (r: DataValue) {
        DataValue::Null
    }

    fn update(&self, left: &mut DataValue, right: &DataValue) -> (r: Result<bool, DbError>) {
        let next = lesser(left, right);
        settle(left, next)
    }
}

/// The greater of two values; null stands for a value not yet known.
pub open spec fn greater_of(left: Value, right: Value) -> Result<Value, Fault> {
    if left is Null || (!(right is Null) && loose_order(right, left) == Sign::More) {
        Ok(right)
    } else {
        Ok(left)
    }
}

fn greater(left: &DataValue, right: &DataValue) -> (r: Result<DataValue, DbError>)
    ensures
        outcome(r) == greater_of(left@, right@),
{
    let take = match left {
        DataValue::Null => true,
        _ => match right {
            DataValue::Null => false,
            _ => compare_loose(right, left) == Sign::More,
        },
    };
    if take {
        Ok(right.dup())
    } else {
        Ok(left.dup())
    }
}

/// The greatest value.
pub struct MeetAggrMax;

impl MeetAggrObj for MeetAggrMax {
    open spec fn init_view(&self) -> Value {
        Value::Null
    }

    open spec fn update_view(&self, left: Value, right: Value) -> Result<(Value, bool), Fault> {
        moved(left, greater_of(left, right))
    }

    fn init_val(&self) -> (r: DataValue) {
        DataValue::Null
    }

    fn update(&self, left: &mut DataValue, right: &DataValue) -> (r: Result<bool, DbError>) {
        let next = greater(left, right);
        settle(left, next)
    }
}

/// The cost of a pack: the number at the end of a list of two or more.
pub open spec fn cost_of(v: Value) -> Option<Value> {
    match v {
        Value::List(l) => if l.len() >= 2 && is_number(l[l.len() - 1]) {
            Some(l[l.len() - 1])
        } else {
            None
        },
        _ => None,
    }
}

/// The cost of a pack.
pub fn cost(v: &DataValue) -> (r: Option<DataValue>)
    ensures
        opt_of(r) == cost_of(v@),
{
    match v {
        DataValue::List(l) => {
            assert(values_of(l@).len() == l@.len());
            if l.len() >= 2 && number(&l[l.len() - 1]) {
                Some(l[l.len() - 1].dup())
            } else {
                None
            }
        },
        _ => None,
    }
}

/// The cheaper of two packs; null stands for a pack not yet known.
pub open spec fn cheaper_of(left: Value, right: Value) -> Result<Value, Fault> {
    if right is Null {
        Ok(left)
    } else {
        match cost_of(right) {
            None => Err(fault_on(ErrKind::AggregateType, "min_cost"@)),
            Some(c) => if left is Null {
                Ok(right)
            } else {
                match cost_of(left) {
                    None => Err(fault_on(ErrKind::AggregateType, "min_cost"@)),
                    Some(d) => if loose_order(c, d) == Sign::Less {
                        Ok(right)
                    } else {
                        Ok(left)
                    },
                }
            },
        }
    }
}

fn cheaper(left: &DataValue, right: &DataValue) -> (r: Result<DataValue, DbError>)
    ensures
        outcome(r) == cheaper_of(left@, right@),
{
    if let DataValue::Null = right {
        return Ok(left.dup());
    }
    match cost(right) {
        None => Err(err_on(ErrKind::AggregateType, "min_cost")),
        Some(c) => {
            if let DataValue::Null = left {
                return Ok(right.dup());
            }
            match cost(left) {
                None => Err(err_on(ErrKind::AggregateType, "min_cost")),
                Some(d) => if compare_loose(&c, &d) == Sign::Less {
                    Ok(right.dup())
                } else {
                    Ok(left.dup())
                },
            }
        },
    }
}

/// The pack of least cost.
pub struct MeetAggrMinCost;

impl MeetAggrObj for MeetAggrMinCost {
    open spec fn init_view(&self) -> Value {
        Value::Null
    }

    open spec fn update_view(&self, left: Value, right: Value) -> Result<(Value, bool), Fault> {
        moved(left, cheaper_of(left, right))
    }

    fn init_val(&self) -> (r: DataValue) {
        DataValue::Null
    }

    fn update(&self, left: &mut DataValue, right: &DataValue) -> (r: Result<bool, DbError>) {
        let next = cheaper(left, right);
        settle(left, next)
    }
}

/// The greater of two values in the order of all values; null stands for a
/// value not yet known.
pub open spec fn topmost_of(left: Value, right: Value) -> Result<Value, Fault> {
    if left is Null || order(right, left) == Sign::More {
        Ok(right)
    } else {
        Ok(left)
    }
}

/// Keeps the maximum: a meet, since taking a value in twice changes nothing.
pub struct TestMaxi;

impl MeetAggrObj for TestMaxi {
    open spec fn init_view(&self) -> Value {
        Value::Null
    }

    open spec fn update_view(&self, left: Value, right: Value) -> Result<(Value, bool), Fault> {
        moved(left, topmost_of(left, right))
    }

    fn init_val(&self) -> (r: DataValue) {
        DataValue::Null
    }

    fn update(&self, left: &mut DataValue, right: &DataValue) -> (r: Result<bool, DbError>) {
        proof {
            crate::value::lemma_order_same(right@, old(left)@);
        }
        if matches!(left, DataValue::Null) || compare(right, left) == Sign::More {
            *left = right.dup();
            return Ok(!matches!(left, DataValue::Null));
        }
        Ok(false)
    }
}

/// Adds numbers up: no meet, since taking a value in twice counts it twice.
pub struct TestAdder;

impl MeetAggrObj for TestAdder {
    open spec fn init_view(&self) -> Value {
        Value::Int(0)
    }

    open spec fn update_view(&self, left: Value, right: Value) -> Result<(Value, bool), Fault> {
        Ok((real_of(micros_of(left) + micros_of(right)), true))
    }

    fn init_val(&self) -> (r: DataValue) {
        DataValue::Int(0)
    }

    fn update(&self, left: &mut DataValue, right: &DataValue) -> (r: Result<bool, DbError>) {
        *left = DataValue::Real(sum(micros(left), micros(right)));
        Ok(true)
    }
}

/// Taking a value in a second time changes nothing.
pub open spec fn settles<M: MeetAggrObj>(m: M, left: Value, right: Value) -> bool {
    match m.update_view(left, right) {
        Ok((v, changed)) => changed == (v != left) && m.update_view(v, right) == Ok::<
            (Value, bool),
            Fault,
        >((v, false)),
        Err(_) => true,
    }
}

/// The conjunction and the disjunction report a change exactly where the value
/// changed, and take a value in once.
pub proof fn law_and_or_settle(left: Value, right: Value)
    ensures
        settles(MeetAggrAnd, left, right),
        settles(MeetAggrOr, left, right),
{
}

/// The combinations of byte strings report a change exactly where the value
/// changed, and take a value in once.
pub proof fn law_bits_settle(left: Value, right: Value)
    ensures
        settles(MeetAggrBitAnd, left, right),
        settles(MeetAggrBitOr, left, right),
{
    match (left, right) {
        (Value::Bytes(a), Value::Bytes(b)) => {
            let x = Seq::new(a.len(), |i: int| a[i] & b[i]);
            let y = Seq::new(a.len(), |i: int| a[i] | b[i]);
            assert forall|p: u8, q: u8| #[trigger] (p & q) & q == p & q by {
                assert((p & q) & q == p & q) by (bit_vector);
            }
            assert forall|p: u8, q: u8| #[trigger] (p | q) | q == p | q by {
                assert((p | q) | q == p | q) by (bit_vector);
            }
            if a.len() == b.len() {
                assert(Seq::new(x.len(), |i: int| x[i] & b[i]) =~= x);
                assert(Seq::new(y.len(), |i: int| y[i] | b[i]) =~= y);
            }
            assert forall|p: u8| #[trigger] (p & p) == p by {
                assert((p & p) == p) by (bit_vector);
            }
            assert forall|p: u8| #[trigger] (p | p) == p by {
                assert((p | p) == p) by (bit_vector);
            }
            assert(Seq::new(b.len(), |i: int| b[i] & b[i]) =~= b);
            assert(Seq::new(b.len(), |i: int| b[i] | b[i]) =~= b);
        },
        _ => {},
    }
}

/// The least and the greatest value report a change exactly where the value
/// changed, and take a value in once.
pub proof fn law_extremes_settle(left: Value, right: Value)
    ensures
        settles(MeetAggrMin, left, right),
        settles(MeetAggrMax, left, right),
        settles(MeetAggrMinCost, left, right),
        settles(TestMaxi, left, right),
{
    crate::value::lemma_order_same(right, right);
    crate::value::lemma_order_same(left, right);
    crate::value::lemma_order_same(right, left);
}

/// Addition reports a change each time, and its order does not matter.
pub proof fn law_adder_commutes(left: Value, right: Value)
    ensures
        TestAdder.update_view(left, right) == TestAdder.update_view(right, left),
        TestAdder.update_view(left, right) matches Ok((_, changed)) && changed,
{
}

/// A number that is added twice counts twice, so that addition never settles:
/// unless the number reads as zero, the second time gives another value. The sum
/// is one that a real can hold.
pub proof fn law_adder_never_settles(left: Value, right: Value)
    requires
        micros_of(right) != 0,
        i128::MIN <= micros_of(left) + 2 * micros_of(right) <= i128::MAX,
    ensures
        TestAdder.update_view(left, right) matches Ok((once, _)) && TestAdder.update_view(
            once,
            right,
        ) matches Ok((twice, _)) && twice != once && micros_of(twice) == micros_of(left) + 2
            * micros_of(right),
{
}

/// The sum of the first `n` integers.
pub open spec fn sum_to(s: Seq<i64>, n: nat) -> int
    decreases n,
{
    if n == 0 || n > s.len() {
        0
    } else {
        sum_to(s, (n - 1) as nat) + s[n - 1]
    }
}

/// What the adder makes of the first `n` integers, one after the other.
pub open spec fn adder_after(s: Seq<i64>, n: nat) -> Result<Value, Fault>
    decreases n,
{
    if n == 0 || n > s.len() {
        Ok(TestAdder.init_view())
    } else {
        match adder_after(s, (n - 1) as nat) {
            Err(f) => Err(f),
            Ok(v) => match TestAdder.update_view(v, Value::Int(s[n - 1])) {
                Err(f) => Err(f),
                Ok((w, _)) => Ok(w),
            },
        }
    }
}

/// Integers that are added up one after the other give their sum, each counted
/// as often as it occurs. Their partial sums are ones that a real can hold.
pub proof fn law_adder_adds_up(s: Seq<i64>, n: nat)
    requires
        n <= s.len(),
        forall|k: nat|
            k <= n ==> i128::MIN <= #[trigger] sum_to(s, k) * UNIT <= i128::MAX,
    ensures
        adder_after(s, n) matches Ok(v) && micros_of(v) == sum_to(s, n) * UNIT && (n > 0
            ==> v is Real),
    decreases n,
{
    if n > 0 {
        law_adder_adds_up(s, (n - 1) as nat);
        assert(sum_to(s, n) * UNIT == sum_to(s, (n - 1) as nat) * UNIT + s[n - 1] * UNIT)
            by (nonlinear_arith)
            requires
                sum_to(s, n) == sum_to(s, (n - 1) as nat) + s[n - 1],
        ;
    }
}

/// What a registered name stands for.
pub enum CustomOp {
    Aggr(Box<dyn MeetAggrObj>),
    Rule(Box<dyn FixedRule>),
}

/// A registered aggregation or rule.
pub struct Custom {
    pub name: String,
    /// Whether an aggregation may be used in recursion.
    pub is_meet: bool,
    pub op: CustomOp,
}

/// The mathematical counterpart of [`Custom`].
pub struct CustomV {
    pub name: Seq<char>,
    pub is_meet: bool,
    pub init: Value,
    pub update: spec_fn(Value, Value) -> Result<(Value, bool), Fault>,
    pub arity: usize,
    pub rule: Option<spec_fn(Seq<Seq<Value>>, Seq<ParamV>) -> Result<Seq<Seq<Value>>, Fault>>,
}

impl View for Custom {
    type V = CustomV;

    open spec fn view(&self) -> CustomV {
        match self.op {
            CustomOp::Aggr(op) => CustomV {
                name: self.name@,
                is_meet: self.is_meet,
                init: op.init_view(),
                update: |l: Value, r: Value| op.update_view(l, r),
                arity: 0,
                rule: None,
            },
            CustomOp::Rule(op) => CustomV {
                name: self.name@,
                is_meet: self.is_meet,
                init: Value::Null,
                update: |l: Value, r: Value| Err(fault(ErrKind::UnknownAggregate)),
                arity: op.arity_view(),
                rule: Some(|rows: Seq<Seq<Value>>, opts: Seq<ParamV>| op.rows_view(rows, opts)),
            },
        }
    }
}

impl Custom {
    /// Whether it is a rule.
    pub fn is_rule(&self) -> (r: bool)
        ensures
            r == self@.rule is Some,
    {
        match &self.op {
            CustomOp::Aggr(_) => false,
            CustomOp::Rule(_) => true,
        }
    }

    /// What an aggregation accumulates before the first update.
    pub fn init_val(&self) -> (r: DataValue)
        ensures
            r@ == self@.init,
    {
        match &self.op {
            CustomOp::Aggr(op) => op.init_val(),
            CustomOp::Rule(_) => DataValue::Null,
        }
    }

    /// Takes `right` into `left`; tells whether `left` changed.
    pub fn update(&self, left: &mut DataValue, right: &DataValue) -> (r: Result<bool, DbError>)
        ensures
            stepped(r, final(left)@) == (self@.update)(old(left)@, right@),
            r is Err ==> final(left)@ == old(left)@,
    {
        match &self.op {
            CustomOp::Aggr(op) => op.update(left, right),
            CustomOp::Rule(_) => Err(err(ErrKind::UnknownAggregate)),
        }
    }

    /// How many columns the rows of a rule have.
    pub fn arity(&self) -> (r: usize)
        ensures
            r == self@.arity,
    {
        match &self.op {
            CustomOp::Aggr(_) => 0,
            CustomOp::Rule(op) => op.arity(),
        }
    }

    /// The rows that a rule makes of others.
    pub fn run(&self, input: &Rows, opts: &List<Param>) -> (r: Result<Rows, DbError>)
        requires
            self@.rule is Some,
        ensures
            outcome(r) == (self@.rule->0)(input@, opts@),
    {
        match &self.op {
            CustomOp::Aggr(_) => Err(err(ErrKind::UnknownAggregate)),
            CustomOp::Rule(op) => op.run(input, opts),
        }
    }
}

} // verus!
