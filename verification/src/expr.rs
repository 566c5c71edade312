//! Expressions and their evaluation.
use vstd::prelude::*;

use crate::error::{DbError, ErrKind, Fault, err, err_on, fault, fault_on, outcome};
use crate::fixed_point::{clamped, difference, magnitude, product, quot, quotient, scaled, sum};
use crate::list::{Dup, List};
use crate::schema::{reals, reals_from};
use crate::value::{
    DataValue, Sign, Tuple, UNIT, Value, compare, elements, json_value, list_value, micros,
    micros_of, order, sign_of, values_of,
};
use crate::vector::{Metric, distance, distance_of, make_noises, noises, normalized, normalized_of};

verus! {

/// The functions and operators of the expression language.
#[derive(Clone, Copy, Debug, PartialEq, Eq, Structural)]
pub enum Op {
    Add,
    Sub,
    Mul,
    Div,
    Mod,
    Eq,
    Ne,
    Lt,
    Le,
    Gt,
    Ge,
    And,
    Or,
    Not,
    Neg,
    Max,
    Min,
    Concat,
    First,
    Last,
    Length,
    IntRange,
    Now,
    RandUuid,
    IsNull,
    ToInt,
    Floor,
    MakeList,
    MakeJson,
    /// A vector of reals.
    Vector,
    RandVec,
    SquaredDist,
    CosineDist,
    InnerDist,
    /// A vector of length one.
    Normalize,
    /// Names a filter of words in the options of an index; it has no value.
    Stemmer,
    /// Names a filter of words in the options of an index; it has no value.
    Stopwords,
}

/// An expression over the variables of a rule body.
pub enum Expr {
    Const(DataValue),
    Var(String),
    Call(Op, Vec<Expr>),
}

/// The mathematical counterpart of [`Expr`].
pub enum ExprV {
    Const(Value),
    Var(Seq<char>),
    Call(Op, Seq<ExprV>),
}

pub open spec fn expr_of(e: Expr) -> ExprV
    decreases e,
{
    match e {
        Expr::Const(v) => ExprV::Const(v@),
        Expr::Var(n) => ExprV::Var(n@),
        Expr::Call(op, args) => ExprV::Call(op, exprs_of(args@)),
    }
}

pub open spec fn exprs_of(s: Seq<Expr>) -> Seq<ExprV>
    decreases s,
{
    Seq::new(
        s.len(),
        |i: int| if 0 <= i < s.len() { expr_of(s[i]) } else { ExprV::Const(Value::Null) },
    )
}

impl View for Expr {
    type V = ExprV;

    open spec fn view(&self) -> ExprV {
        expr_of(*self)
    }
}

fn dup_exprs(v: &Vec<Expr>) -> (r: Vec<Expr>)
    ensures
        exprs_of(r@) == exprs_of(v@),
    decreases v,
{
    let mut r: Vec<Expr> = Vec::new();
    let mut i: usize = 0;
    while i < v.len()
        invariant
            i <= v@.len(),
            exprs_of(r@) == exprs_of(v@).take(i as int),
        decreases v@.len() - i,
    {
        let x = v[i].dup();
        let ghost before = r@;
        r.push(x);
        assert(exprs_of(r@) =~= exprs_of(before).push(x@));
        assert(exprs_of(v@).take(i + 1) =~= exprs_of(v@).take(i as int).push(
            exprs_of(v@)[i as int],
        ));
        i = i + 1;
    }
    assert(exprs_of(v@).take(i as int) =~= exprs_of(v@));
    r
}

impl Dup for Expr {
    fn dup(&self) -> (r: Self)
        decreases self,
    {
        match self {
            Expr::Const(v) => Expr::Const(v.dup()),
            Expr::Var(n) => Expr::Var(n.clone()),
            Expr::Call(op, args) => Expr::Call(*op, dup_exprs(args)),
        }
    }
}

/// Makes a call of its arguments.
pub fn call(op: Op, args: List<Expr>) -> (r: Expr)
    ensures
        r@ == ExprV::Call(op, args@),
{
    assert(exprs_of(args.items@) =~= args@);
    Expr::Call(op, args.items)
}

pub fn call1(op: Op, a: Expr) -> (r: Expr)
    ensures
        r@ == ExprV::Call(op, seq![a@]),
{
    let mut args: List<Expr> = List::new();
    args.push(a);
    assert(args@ =~= seq![a@]);
    call(op, args)
}

pub fn call2(op: Op, a: Expr, b: Expr) -> (r: Expr)
    ensures
        r@ == ExprV::Call(op, seq![a@, b@]),
{
    let mut args: List<Expr> = List::new();
    args.push(a);
    args.push(b);
    assert(args@ =~= seq![a@, b@]);
    call(op, args)
}

/// What an evaluation takes from its surroundings: the instant, in
/// microseconds, and two numbers that tell identifiers apart.
#[derive(Clone, Copy)]
pub struct Ctx {
    pub now: i64,
    pub tick: u64,
    pub salt: u64,
}

/// The place of a name from place `i` on, and the length where it is absent.
pub open spec fn place_from(names: Seq<Seq<char>>, name: Seq<char>, i: int) -> int
    decreases names.len() - i,
{
    if i < 0 || i >= names.len() {
        names.len() as int
    } else if names[i] == name {
        i
    } else {
        place_from(names, name, i + 1)
    }
}

/// The first place of a name, and the length where it is absent.
pub open spec fn place(names: Seq<Seq<char>>, name: Seq<char>) -> int {
    place_from(names, name, 0)
}

/// The first place of a name, and the length where it is absent.
pub fn find(names: &List<String>, name: &String) -> (r: usize)
    ensures
        r == place(names@, name@),
        r <= names@.len(),
        r < names@.len() ==> names@[r as int] == name@,
{
    let mut i: usize = 0;
    while i < names.len()
        invariant
            i <= names@.len(),
            place(names@, name@) == place_from(names@, name@, i as int),
        decreases names@.len() - i,
    {
        if *names.get(i) == *name {
            return i;
        }
        i = i + 1;
    }
    i
}

pub open spec fn is_number(v: Value) -> bool {
    v is Int || v is Real
}

pub fn number(v: &DataValue) -> (r: bool)
    ensures
        r == is_number(v@),
{
    match v {
        DataValue::Int(_) => true,
        DataValue::Real(_) => true,
        _ => false,
    }
}

/// The order that comparisons in expressions use: numeric between numbers.
pub open spec fn loose_order(a: Value, b: Value) -> Sign {
    if is_number(a) && is_number(b) {
        sign_of(micros_of(a), micros_of(b))
    } else {
        order(a, b)
    }
}

pub fn compare_loose(a: &DataValue, b: &DataValue) -> (r: Sign)
    ensures
        r == loose_order(a@, b@),
{
    if number(a) && number(b) {
        let x = micros(a);
        let y = micros(b);
        if x < y {
            Sign::Less
        } else if x == y {
            Sign::Same
        } else {
            Sign::More
        }
    } else {
        compare(a, b)
    }
}

/// The remainder with the sign of the dividend.
pub open spec fn remainder(a: int, b: int) -> int {
    let m = (if a < 0 { -a } else { a }) % (if b < 0 { -b } else { b });
    if a < 0 {
        -m
    } else {
        m
    }
}

pub open spec fn fits(n: int) -> bool {
    i64::MIN <= n <= i64::MAX
}

pub open spec fn int_of(n: int) -> Result<Value, Fault> {
    if fits(n) {
        Ok(Value::Int(n as i64))
    } else {
        Err(fault(ErrKind::Overflow))
    }
}

/// A real of a number of millionths, and the outermost one where there are more.
pub open spec fn real_of(n: int) -> Value {
    Value::Real(clamped(n))
}

pub fn make_int(n: i128) -> (r: Result<DataValue, DbError>)
    ensures
        outcome(r) == int_of(n as int),
{
    if -0x8000_0000_0000_0000 <= n && n <= 0x7fff_ffff_ffff_ffff {
        Ok(DataValue::Int(n as i64))
    } else {
        Err(err(ErrKind::Overflow))
    }
}

/// Addition: of two integers an integer, else a real.
pub open spec fn add_of(a: Value, b: Value) -> Result<Value, Fault> {
    match (a, b) {
        (Value::Int(x), Value::Int(y)) => int_of(x + y),
        _ => if is_number(a) && is_number(b) {
            Ok(real_of(micros_of(a) + micros_of(b)))
        } else {
            Err(fault(ErrKind::TypeMismatch))
        },
    }
}

/// Adds two numbers.
pub fn add_values(a: &DataValue, b: &DataValue) -> (r: Result<DataValue, DbError>)
    ensures
        outcome(r) == add_of(a@, b@),
{
    match (a, b) {
        (DataValue::Int(x), DataValue::Int(y)) => make_int(*x as i128 + *y as i128),
        _ => if number(a) && number(b) {
            Ok(DataValue::Real(sum(micros(a), micros(b))))
        } else {
            Err(err(ErrKind::TypeMismatch))
        },
    }
}

pub open spec fn sub_of(a: Value, b: Value) -> Result<Value, Fault> {
    match (a, b) {
        (Value::Int(x), Value::Int(y)) => int_of(x - y),
        _ => if is_number(a) && is_number(b) {
            Ok(real_of(micros_of(a) - micros_of(b)))
        } else {
            Err(fault(ErrKind::TypeMismatch))
        },
    }
}

pub fn sub_values(a: &DataValue, b: &DataValue) -> (r: Result<DataValue, DbError>)
    ensures
        outcome(r) == sub_of(a@, b@),
{
    match (a, b) {
        (DataValue::Int(x), DataValue::Int(y)) => make_int(*x as i128 - *y as i128),
        _ => if number(a) && number(b) {
            Ok(DataValue::Real(difference(micros(a), micros(b))))
        } else {
            Err(err(ErrKind::TypeMismatch))
        },
    }
}

/// Multiplication: of two integers an integer, else a real.
pub open spec fn mul_of(a: Value, b: Value) -> Result<Value, Fault> {
    match (a, b) {
        (Value::Int(x), Value::Int(y)) => int_of(x * y),
        _ => if is_number(a) && is_number(b) {
            Ok(real_of(quot(micros_of(a) * micros_of(b), UNIT as int)))
        } else {
            Err(fault(ErrKind::TypeMismatch))
        },
    }
}

pub fn mul_values(a: &DataValue, b: &DataValue) -> (r: Result<DataValue, DbError>)
    ensures
        outcome(r) == mul_of(a@, b@),
{
    match (a, b) {
        (DataValue::Int(x), DataValue::Int(y)) => make_int(product(*x, *y)),
        _ => if number(a) && number(b) {
            Ok(DataValue::Real(scaled(micros(a), micros(b), UNIT as i128)))
        } else {
            Err(err(ErrKind::TypeMismatch))
        },
    }
}

/// Division: always a real, rounded toward zero.
pub open spec fn div_of(a: Value, b: Value) -> Result<Value, Fault> {
    if !is_number(a) || !is_number(b) {
        Err(fault(ErrKind::TypeMismatch))
    } else if micros_of(b) == 0 {
        Err(fault(ErrKind::DivisionByZero))
    } else {
        Ok(real_of(quot(micros_of(a) * UNIT, micros_of(b))))
    }
}

fn div_values(a: &DataValue, b: &DataValue) -> (r: Result<DataValue, DbError>)
    ensures
        outcome(r) == div_of(a@, b@),
{
    if !number(a) || !number(b) {
        Err(err(ErrKind::TypeMismatch))
    } else {
        let d = micros(b);
        if d == 0 {
            Err(err(ErrKind::DivisionByZero))
        } else {
            Ok(DataValue::Real(scaled(micros(a), UNIT as i128, d)))
        }
    }
}

/// The remainder of two integers.
pub open spec fn mod_of(a: Value, b: Value) -> Result<Value, Fault> {
    match (a, b) {
        (Value::Int(x), Value::Int(y)) => if y == 0 {
            Err(fault(ErrKind::DivisionByZero))
        } else {
            int_of(remainder(x as int, y as int))
        },
        _ => Err(fault(ErrKind::TypeMismatch)),
    }
}

fn mod_values(a: &DataValue, b: &DataValue) -> (r: Result<DataValue, DbError>)
    ensures
        outcome(r) == mod_of(a@, b@),
{
    match (a, b) {
        (DataValue::Int(x), DataValue::Int(y)) => {
            if *y == 0 {
                return Err(err(ErrKind::DivisionByZero));
            }
            let m = magnitude(*x as i128);
            let n = magnitude(*y as i128);
            let q: u128 = m % n;
            assert(0 <= q < n) by (nonlinear_arith)
                requires
                    q == m % n,
                    n > 0,
            ;
            let s: i128 = q as i128;
            make_int(
                if *x < 0 {
                    -s
                } else {
                    s
                },
            )
        },
        _ => Err(err(ErrKind::TypeMismatch)),
    }
}

/// The truth of a comparison.
pub open spec fn relation_holds(op: Op, s: Sign) -> bool {
    match op {
        Op::Eq => s == Sign::Same,
        Op::Ne => s != Sign::Same,
        Op::Lt => s == Sign::Less,
        Op::Le => s != Sign::More,
        Op::Gt => s == Sign::More,
        _ => s != Sign::Less,
    }
}

fn holds(op: Op, s: Sign) -> (r: bool)
    ensures
        r == relation_holds(op, s),
{
    match op {
        Op::Eq => s == Sign::Same,
        Op::Ne => s != Sign::Same,
        Op::Lt => s == Sign::Less,
        Op::Le => s != Sign::More,
        Op::Gt => s == Sign::More,
        _ => s != Sign::Less,
    }
}

/// The greatest (or least) of the arguments, the earlier one where two tie.
pub open spec fn extreme_from(args: Seq<Value>, i: int, best: Value, want: Sign) -> Value
    decreases args.len() - i,
{
    if i < 0 || i >= args.len() {
        best
    } else if loose_order(args[i], best) == want {
        extreme_from(args, i + 1, args[i], want)
    } else {
        extreme_from(args, i + 1, best, want)
    }
}

fn extreme(args: &Tuple, want: Sign) -> (r: DataValue)
    requires
        args@.len() > 0,
    ensures
        r@ == extreme_from(args@, 1, args@[0], want),
{
    let mut best = args.get(0).dup();
    let mut i: usize = 1;
    while i < args.len()
        invariant
            1 <= i <= args@.len(),
            extreme_from(args@, 1, args@[0], want) == extreme_from(args@, i as int, best@, want),
        decreases args@.len() - i,
    {
        if compare_loose(args.get(i), &best) == want {
            best = args.get(i).dup();
        }
        i = i + 1;
    }
    best
}

/// The integers from `a` up to but without `b`.
pub open spec fn ints_between(a: int, b: int, acc: Seq<Value>) -> Seq<Value>
    decreases b - a,
{
    if a >= b {
        acc
    } else {
        ints_between(a + 1, b, acc.push(Value::Int(a as i64)))
    }
}

fn int_list(a: i64, b: i64) -> (r: Tuple)
    ensures
        r@ == ints_between(a as int, b as int, Seq::empty()),
{
    let mut r: Tuple = List::new();
    let mut i: i64 = a;
    while i < b
        invariant
            ints_between(a as int, b as int, Seq::empty()) == ints_between(i as int, b as int, r@),
        decreases b - i,
    {
        r.push(DataValue::Int(i));
        i = i + 1;
    }
    r
}

/// An identifier made of the two numbers of the context.
pub open spec fn fresh_uuid(ctx: Ctx) -> u128 {
    (ctx.tick * 0x1_0000_0000_0000_0000 + ctx.salt) as u128
}

pub fn make_uuid(ctx: Ctx) -> (r: u128)
    ensures
        r == fresh_uuid(ctx),
{
    ctx.tick as u128 * 0x1_0000_0000_0000_0000 + ctx.salt as u128
}

/// Contexts that differ in either number give different identifiers.
pub proof fn law_uuids_differ(a: Ctx, b: Ctx)
    requires
        a.tick != b.tick || a.salt != b.salt,
    ensures
        fresh_uuid(a) != fresh_uuid(b),
{
}

pub open spec fn floor_micros(m: int) -> int {
    m - m % (UNIT as int)
}

/// The value of an operator on arguments of any number.
pub open spec fn apply_op(op: Op, args: Seq<Value>, ctx: Ctx) -> Result<Value, Fault> {
    match op {
        Op::MakeList => Ok(Value::List(args)),
        Op::MakeJson => Ok(Value::Json(args)),
        Op::Now => if args.len() == 0 {
            Ok(Value::Real(ctx.now as i128))
        } else {
            Err(fault(ErrKind::TypeMismatch))
        },
        Op::RandUuid => if args.len() == 0 {
            Ok(Value::Uuid(fresh_uuid(ctx)))
        } else {
            Err(fault(ErrKind::TypeMismatch))
        },
        Op::RandVec => if args.len() == 1 {
            match args[0] {
                Value::Int(n) => if 0 <= n <= u32::MAX {
                    Ok(Value::List(noises(ctx, n as int)))
                } else {
                    Err(fault(ErrKind::TypeMismatch))
                },
                _ => Err(fault(ErrKind::TypeMismatch)),
            }
        } else {
            Err(fault(ErrKind::TypeMismatch))
        },
        Op::Max => if args.len() == 0 {
            Err(fault(ErrKind::TypeMismatch))
        } else {
            Ok(extreme_from(args, 1, args[0], Sign::More))
        },
        Op::Min => if args.len() == 0 {
            Err(fault(ErrKind::TypeMismatch))
        } else {
            Ok(extreme_from(args, 1, args[0], Sign::Less))
        },
        _ => if args.len() == 1 {
            apply_unary(op, args[0])
        } else if args.len() == 2 {
            apply_binary(op, args[0], args[1])
        } else {
            Err(fault(ErrKind::TypeMismatch))
        },
    }
}

/// The value of an operator on one argument.
pub open spec fn apply_unary(op: Op, a: Value) -> Result<Value, Fault> {
    match (op, a) {
        (Op::Not, Value::Bool(b)) => Ok(Value::Bool(!b)),
        (Op::Neg, Value::Int(n)) => int_of(-n),
        (Op::Neg, Value::Real(n)) => Ok(real_of(-n)),
        (Op::First, Value::List(l)) => Ok(
            if l.len() == 0 {
                Value::Null
            } else {
                l[0]
            },
        ),
        (Op::Last, Value::List(l)) => Ok(
            if l.len() == 0 {
                Value::Null
            } else {
                l[l.len() - 1]
            },
        ),
        (Op::Length, Value::List(l)) => int_of(l.len() as int),
        (Op::Length, Value::Str(s)) => int_of(s.len() as int),
        (Op::IntRange, Value::Int(n)) => Ok(Value::List(ints_between(0, n as int, Seq::empty()))),
        (Op::IsNull, _) => Ok(Value::Bool(a is Null)),
        (Op::ToInt, Value::Int(n)) => Ok(Value::Int(n)),
        (Op::ToInt, Value::Real(m)) => int_of(quot(m as int, UNIT as int)),
        (Op::Floor, Value::Int(n)) => Ok(Value::Int(n)),
        (Op::Floor, Value::Real(m)) => Ok(real_of(floor_micros(m as int))),
        (Op::Vector, Value::List(l)) => match reals_from(l, 0, Seq::empty()) {
            Some(s) => Ok(Value::List(s)),
            None => Err(fault(ErrKind::TypeMismatch)),
        },
        (Op::Normalize, Value::List(l)) => match normalized_of(l) {
            Ok(s) => Ok(Value::List(s)),
            Err(f) => Err(f),
        },
        _ => Err(fault(ErrKind::TypeMismatch)),
    }
}

/// The distance of two values, where they are vectors.
pub open spec fn apart(m: Metric, a: Value, b: Value) -> Result<Value, Fault> {
    match (a, b) {
        (Value::List(x), Value::List(y)) => distance_of(m, x, y),
        _ => Err(fault(ErrKind::TypeMismatch)),
    }
}

fn how_apart(m: Metric, a: &DataValue, b: &DataValue) -> (r: Result<DataValue, DbError>)
    ensures
        outcome(r) == apart(m, a@, b@),
{
    match (a, b) {
        (DataValue::List(x), DataValue::List(y)) => distance(m, x, y),
        _ => Err(err(ErrKind::TypeMismatch)),
    }
}

/// The value of an operator on two arguments.
pub open spec fn apply_binary(op: Op, a: Value, b: Value) -> Result<Value, Fault> {
    match op {
        Op::Add => add_of(a, b),
        Op::Sub => sub_of(a, b),
        Op::Mul => mul_of(a, b),
        Op::Div => div_of(a, b),
        Op::Mod => mod_of(a, b),
        Op::Eq => Ok(Value::Bool(relation_holds(op, loose_order(a, b)))),
        Op::Ne => Ok(Value::Bool(relation_holds(op, loose_order(a, b)))),
        Op::Lt => Ok(Value::Bool(relation_holds(op, loose_order(a, b)))),
        Op::Le => Ok(Value::Bool(relation_holds(op, loose_order(a, b)))),
        Op::Gt => Ok(Value::Bool(relation_holds(op, loose_order(a, b)))),
        Op::Ge => Ok(Value::Bool(relation_holds(op, loose_order(a, b)))),
        Op::And => match (a, b) {
            (Value::Bool(x), Value::Bool(y)) => Ok(Value::Bool(x && y)),
            _ => Err(fault(ErrKind::TypeMismatch)),
        },
        Op::Or => match (a, b) {
            (Value::Bool(x), Value::Bool(y)) => Ok(Value::Bool(x || y)),
            _ => Err(fault(ErrKind::TypeMismatch)),
        },
        Op::Concat => match (a, b) {
            (Value::List(x), Value::List(y)) => Ok(Value::List(x + y)),
            (Value::Str(x), Value::Str(y)) => Ok(Value::Str(x + y)),
            _ => Err(fault(ErrKind::TypeMismatch)),
        },
        Op::IntRange => match (a, b) {
            (Value::Int(x), Value::Int(y)) => Ok(
                Value::List(ints_between(x as int, y as int, Seq::empty())),
            ),
            _ => Err(fault(ErrKind::TypeMismatch)),
        },
        Op::SquaredDist => apart(Metric::Squared, a, b),
        Op::CosineDist => apart(Metric::Cosine, a, b),
        Op::InnerDist => apart(Metric::Inner, a, b),
        _ => Err(fault(ErrKind::TypeMismatch)),
    }
}

fn append(a: &Vec<DataValue>, b: &Vec<DataValue>) -> (r: Tuple)
    ensures
        r@ == values_of(a@) + values_of(b@),
{
    let mut r = elements(a);
    let mut i: usize = 0;
    let t = elements(b);
    assert(r@ =~= values_of(a@) + t@.take(0));
    while i < t.len()
        invariant
            i <= t@.len(),
            r@ == values_of(a@) + t@.take(i as int),
        decreases t@.len() - i,
    {
        r.push(t.get(i).dup());
        assert(r@ =~= values_of(a@) + t@.take(i + 1));
        i = i + 1;
    }
    assert(t@.take(i as int) =~= t@);
    r
}

fn floor(m: i128) -> (r: i128)
    ensures
        r == clamped(floor_micros(m as int)),
{
    let low: i128 = quotient(m, 1_000_000) * 1_000_000;
    if low > m {
        difference(low, 1_000_000)
    } else {
        low
    }
}

fn unary(op: Op, a: &DataValue) -> (r: Result<DataValue, DbError>)
    ensures
        outcome(r) == apply_unary(op, a@),
{
    match (op, a) {
        (Op::Not, DataValue::Bool(b)) => Ok(DataValue::Bool(!*b)),
        (Op::Neg, DataValue::Int(n)) => make_int(-(*n as i128)),
        (Op::Neg, DataValue::Real(n)) => Ok(DataValue::Real(difference(0, *n))),
        (Op::First, DataValue::List(l)) => Ok(
            if l.len() == 0 {
                DataValue::Null
            } else {
                l[0].dup()
            },
        ),
        (Op::Last, DataValue::List(l)) => Ok(
            if l.len() == 0 {
                DataValue::Null
            } else {
                l[l.len() - 1].dup()
            },
        ),
        (Op::Length, DataValue::List(l)) => make_int(l.len() as i128),
        (Op::Length, DataValue::Str(s)) => {
            let n = s.as_str().unicode_len();
            make_int(n as i128)
        },
        (Op::IntRange, DataValue::Int(n)) => Ok(list_value(int_list(0, *n))),
        (Op::IsNull, DataValue::Null) => Ok(DataValue::Bool(true)),
        (Op::IsNull, _) => Ok(DataValue::Bool(false)),
        (Op::ToInt, DataValue::Int(n)) => Ok(DataValue::Int(*n)),
        (Op::ToInt, DataValue::Real(m)) => make_int(quotient(*m, UNIT as i128)),
        (Op::Floor, DataValue::Int(n)) => Ok(DataValue::Int(*n)),
        (Op::Floor, DataValue::Real(m)) => Ok(DataValue::Real(floor(*m))),
        (Op::Vector, DataValue::List(l)) => match reals(l) {
            Some(s) => Ok(list_value(s)),
            None => Err(err(ErrKind::TypeMismatch)),
        },
        (Op::Normalize, DataValue::List(l)) => match normalized(l) {
            Ok(s) => Ok(list_value(s)),
            Err(e) => Err(e),
        },
        _ => Err(err(ErrKind::TypeMismatch)),
    }
}

fn binary(op: Op, a: &DataValue, b: &DataValue) -> (r: Result<DataValue, DbError>)
    ensures
        outcome(r) == apply_binary(op, a@, b@),
{
    match op {
        Op::Add => add_values(a, b),
        Op::Sub => sub_values(a, b),
        Op::Mul => mul_values(a, b),
        Op::Div => div_values(a, b),
        Op::Mod => mod_values(a, b),
        Op::Eq => Ok(DataValue::Bool(holds(op, compare_loose(a, b)))),
        Op::Ne => Ok(DataValue::Bool(holds(op, compare_loose(a, b)))),
        Op::Lt => Ok(DataValue::Bool(holds(op, compare_loose(a, b)))),
        Op::Le => Ok(DataValue::Bool(holds(op, compare_loose(a, b)))),
        Op::Gt => Ok(DataValue::Bool(holds(op, compare_loose(a, b)))),
        Op::Ge => Ok(DataValue::Bool(holds(op, compare_loose(a, b)))),
        Op::And => match (a, b) {
            (DataValue::Bool(x), DataValue::Bool(y)) => Ok(DataValue::Bool(*x && *y)),
            _ => Err(err(ErrKind::TypeMismatch)),
        },
        Op::Or => match (a, b) {
            (DataValue::Bool(x), DataValue::Bool(y)) => Ok(DataValue::Bool(*x || *y)),
            _ => Err(err(ErrKind::TypeMismatch)),
        },
        Op::Concat => match (a, b) {
            (DataValue::List(x), DataValue::List(y)) => Ok(list_value(append(x, y))),
            (DataValue::Str(x), DataValue::Str(y)) => Ok(
                DataValue::Str(x.clone().concat(y.as_str())),
            ),
            _ => Err(err(ErrKind::TypeMismatch)),
        },
        Op::IntRange => match (a, b) {
            (DataValue::Int(x), DataValue::Int(y)) => Ok(list_value(int_list(*x, *y))),
            _ => Err(err(ErrKind::TypeMismatch)),
        },
        Op::SquaredDist => how_apart(Metric::Squared, a, b),
        Op::CosineDist => how_apart(Metric::Cosine, a, b),
        Op::InnerDist => how_apart(Metric::Inner, a, b),
        _ => Err(err(ErrKind::TypeMismatch)),
    }
}

/// Applies an operator to its arguments.
pub fn apply(op: Op, args: Tuple, ctx: Ctx) -> (r: Result<DataValue, DbError>)
    ensures
        outcome(r) == apply_op(op, args@, ctx),
{
    match op {
        Op::MakeList => Ok(list_value(args)),
        Op::MakeJson => Ok(json_value(args)),
        Op::Now => if args.len() == 0 {
            Ok(DataValue::Real(ctx.now as i128))
        } else {
            Err(err(ErrKind::TypeMismatch))
        },
        Op::RandUuid => if args.len() == 0 {
            Ok(DataValue::Uuid(make_uuid(ctx)))
        } else {
            Err(err(ErrKind::TypeMismatch))
        },
        Op::RandVec => {
            if args.len() != 1 {
                return Err(err(ErrKind::TypeMismatch));
            }
            match args.get(0) {
                DataValue::Int(n) => if 0 <= *n && *n <= u32::MAX as i64 {
                    Ok(list_value(make_noises(ctx, *n as u32)))
                } else {
                    Err(err(ErrKind::TypeMismatch))
                },
                _ => Err(err(ErrKind::TypeMismatch)),
            }
        },
        Op::Max => if args.len() == 0 {
            Err(err(ErrKind::TypeMismatch))
        } else {
            Ok(extreme(&args, Sign::More))
        },
        Op::Min => if args.len() == 0 {
            Err(err(ErrKind::TypeMismatch))
        } else {
            Ok(extreme(&args, Sign::Less))
        },
        _ => if args.len() == 1 {
            unary(op, args.get(0))
        } else if args.len() == 2 {
            binary(op, args.get(0), args.get(1))
        } else {
            Err(err(ErrKind::TypeMismatch))
        },
    }
}

/// The context of an argument: another number tells it apart.
pub open spec fn branched(ctx: Ctx, i: int) -> Ctx {
    Ctx { salt: ((ctx.salt * 4096 + i + 1) % 0x1_0000_0000_0000_0000) as u64, ..ctx }
}

/// The context of an argument.
pub fn branch(ctx: Ctx, i: usize) -> (r: Ctx)
    ensures
        r == branched(ctx, i as int),
{
    let salt: u128 = (ctx.salt as u128 * 4096 + i as u128 + 1) % 0x1_0000_0000_0000_0000;
    Ctx { salt: salt as u64, ..ctx }
}

/// The contexts of two arguments differ.
pub proof fn law_arguments_differ(ctx: Ctx, i: usize, j: usize)
    requires
        i != j,
    ensures
        branched(ctx, i as int).salt != branched(ctx, j as int).salt,
{
    let m = 0x1_0000_0000_0000_0000int;
    let x = ctx.salt * 4096 + i + 1;
    let y = ctx.salt * 4096 + j + 1;
    vstd::arithmetic::div_mod::lemma_fundamental_div_mod(x, m);
    vstd::arithmetic::div_mod::lemma_fundamental_div_mod(y, m);
    if x % m == y % m {
        assert(x - y == m * (x / m - y / m)) by (nonlinear_arith)
            requires
                x == m * (x / m) + x % m,
                y == m * (y / m) + y % m,
                x % m == y % m,
        ;
        let d = x / m - y / m;
        assert(d == 0) by (nonlinear_arith)
            requires
                -m < m * d < m,
                m > 0,
        ;
    }
}

/// The value of an expression where variable `cols[k]` has the value `row[k]`.
pub open spec fn eval_of(
    e: ExprV,
    cols: Seq<Seq<char>>,
    row: Seq<Value>,
    ctx: Ctx,
) -> Result<Value, Fault>
    decreases e, 0int,
{
    match e {
        ExprV::Const(v) => Ok(v),
        ExprV::Var(n) => if place(cols, n) < row.len() && place(cols, n) < cols.len() {
            Ok(row[place(cols, n)])
        } else {
            Err(fault_on(ErrKind::UnboundVariable, n))
        },
        ExprV::Call(op, args) => match eval_args_from(args, 0, cols, row, ctx, Seq::empty()) {
            Ok(vals) => apply_op(op, vals, ctx),
            Err(f) => Err(f),
        },
    }
}

/// The values of the arguments from place `i` on, after those in `acc`.
pub open spec fn eval_args_from(
    args: Seq<ExprV>,
    i: int,
    cols: Seq<Seq<char>>,
    row: Seq<Value>,
    ctx: Ctx,
    acc: Seq<Value>,
) -> Result<Seq<Value>, Fault>
    decreases args, args.len() - i,
{
    if i < 0 || i >= args.len() {
        Ok(acc)
    } else {
        match eval_of(args[i], cols, row, branched(ctx, i)) {
            Ok(v) => eval_args_from(args, i + 1, cols, row, ctx, acc.push(v)),
            Err(f) => Err(f),
        }
    }
}

/// Evaluates an expression where variable `cols[k]` has the value `row[k]`.
pub fn eval(e: &Expr, cols: &List<String>, row: &Tuple, ctx: Ctx) -> (r: Result<DataValue, DbError>)
    ensures
        outcome(r) == eval_of(e@, cols@, row@, ctx),
    decreases e,
{
    match e {
        Expr::Const(v) => Ok(v.dup()),
        Expr::Var(n) => {
            let k = find(cols, n);
            if k < row.len() && k < cols.len() {
                Ok(row.get(k).dup())
            } else {
                Err(err_on(ErrKind::UnboundVariable, n.as_str()))
            }
        },
        Expr::Call(op, args) => {
            let mut vals: Tuple = List::new();
            let mut i: usize = 0;
            let ghost all = exprs_of(args@);
            while i < args.len()
                invariant
                    i <= args@.len(),
                    e == Expr::Call(*op, *args),
                    all == exprs_of(args@),
                    eval_args_from(all, 0, cols@, row@, ctx, Seq::empty()) == eval_args_from(
                        all,
                        i as int,
                        cols@,
                        row@,
                        ctx,
                        vals@,
                    ),
                decreases args@.len() - i,
            {
                match eval(&args[i], cols, row, branch(ctx, i)) {
                    Ok(v) => vals.push(v),
                    Err(x) => {
                        return Err(x);
                    },
                }
                i = i + 1;
            }
            apply(*op, vals, ctx)
        },
    }
}

} // verus!
