//! Vectors of numbers and their distances.
use vstd::prelude::*;

use crate::error::{DbError, ErrKind, Fault, err, fault, outcome};
use crate::expr::{
    Ctx, add_of, add_values, fits, is_number, mul_of, mul_values, number, real_of, sub_of,
    sub_values,
};
use crate::fixed_point::{clamped, difference, quot, scaled};
use crate::list::List;
use crate::value::{DataValue, Tuple, UNIT, Value, micros, micros_of, values_of};

verus! {

/// How the distance of two vectors is measured.
#[derive(Clone, Copy, Debug, PartialEq, Eq, Structural)]
pub enum Metric {
    /// The sum of the squared differences.
    Squared,
    /// One minus the cosine of the angle.
    Cosine,
    /// One minus the inner product.
    Inner,
}

/// The sum of the squared differences from place `i` on, added to `acc`.
pub open spec fn squared_from(a: Seq<Value>, b: Seq<Value>, i: int, acc: Value) -> Result<
    Value,
    Fault,
>
    decreases a.len() - i,
{
    if i < 0 || i >= a.len() || i >= b.len() {
        if a.len() == b.len() {
            Ok(acc)
        } else {
            Err(fault(ErrKind::TypeMismatch))
        }
    } else {
        match sub_of(a[i], b[i]) {
            Err(f) => Err(f),
            Ok(d) => match mul_of(d, d) {
                Err(f) => Err(f),
                Ok(m) => match add_of(acc, m) {
                    Err(f) => Err(f),
                    Ok(v) => squared_from(a, b, i + 1, v),
                },
            },
        }
    }
}

fn squared(a: &Vec<DataValue>, b: &Vec<DataValue>) -> (r: Result<DataValue, DbError>)
    ensures
        outcome(r) == squared_from(values_of(a@), values_of(b@), 0, Value::Real(0)),
{
    let ghost x = values_of(a@);
    let ghost y = values_of(b@);
    let mut acc: DataValue = DataValue::Real(0);
    let mut i: usize = 0;
    while i < a.len() && i < b.len()
        invariant
            i <= a@.len(),
            i <= b@.len(),
            x == values_of(a@),
            y == values_of(b@),
            squared_from(x, y, 0, Value::Real(0)) == squared_from(x, y, i as int, acc@),
        decreases a@.len() - i,
    {
        match sub_values(&a[i], &b[i]) {
            Err(e) => {
                return Err(e);
            },
            Ok(d) => match mul_values(&d, &d) {
                Err(e) => {
                    return Err(e);
                },
                Ok(m) => match add_values(&acc, &m) {
                    Err(e) => {
                        return Err(e);
                    },
                    Ok(v) => {
                        acc = v;
                    },
                },
            },
        }
        i = i + 1;
    }
    if a.len() == b.len() {
        Ok(acc)
    } else {
        Err(err(ErrKind::TypeMismatch))
    }
}

/// The inner product from place `i` on, added to `acc`.
pub open spec fn inner_from(
    a: Seq<Value>,
    b: Seq<Value>,
    i: int,
    acc: Value,
) -> Result<Value, Fault>
    decreases a.len() - i,
{
    if i < 0 || i >= a.len() || i >= b.len() {
        if a.len() == b.len() {
            Ok(acc)
        } else {
            Err(fault(ErrKind::TypeMismatch))
        }
    } else {
        match mul_of(a[i], b[i]) {
            Err(f) => Err(f),
            Ok(m) => match add_of(acc, m) {
                Err(f) => Err(f),
                Ok(v) => inner_from(a, b, i + 1, v),
            },
        }
    }
}

/// The inner product of two vectors, in millionths.
pub open spec fn inner_of(a: Seq<Value>, b: Seq<Value>) -> Result<i128, Fault> {
    match inner_from(a, b, 0, Value::Real(0)) {
        Err(f) => Err(f),
        Ok(Value::Real(m)) => Ok(m),
        Ok(_) => Err(fault(ErrKind::TypeMismatch)),
    }
}

fn inner(a: &Vec<DataValue>, b: &Vec<DataValue>) -> (r: Result<i128, DbError>)
    ensures
        outcome(r) == inner_of(values_of(a@), values_of(b@)),
{
    let ghost x = values_of(a@);
    let ghost y = values_of(b@);
    let mut acc: DataValue = DataValue::Real(0);
    let mut i: usize = 0;
    while i < a.len() && i < b.len()
        invariant
            i <= a@.len(),
            i <= b@.len(),
            x == values_of(a@),
            y == values_of(b@),
            inner_from(x, y, 0, Value::Real(0)) == inner_from(x, y, i as int, acc@),
        decreases a@.len() - i,
    {
        match mul_values(&a[i], &b[i]) {
            Err(e) => {
                return Err(e);
            },
            Ok(m) => match add_values(&acc, &m) {
                Err(e) => {
                    return Err(e);
                },
                Ok(v) => {
                    acc = v;
                },
            },
        }
        i = i + 1;
    }
    if a.len() != b.len() {
        return Err(err(ErrKind::TypeMismatch));
    }
    match acc {
        DataValue::Real(m) => Ok(m),
        _ => Err(err(ErrKind::TypeMismatch)),
    }
}

/// Whether `r` is the square root of `n`, rounded down.
pub open spec fn is_root(n: int, r: int) -> bool {
    0 <= r && r * r <= n && n < (r + 1) * (r + 1)
}

/// The square root of a number, rounded down.
pub open spec fn root_of(n: int) -> int {
    choose|r: int| is_root(n, r)
}

proof fn lemma_root_is_one(n: int, a: int, b: int)
    requires
        is_root(n, a),
        is_root(n, b),
    ensures
        a == b,
{
    if a < b {
        assert((a + 1) * (a + 1) <= b * b) by (nonlinear_arith)
            requires
                0 <= a,
                a + 1 <= b,
        ;
    }
    if b < a {
        assert((b + 1) * (b + 1) <= a * a) by (nonlinear_arith)
            requires
                0 <= b,
                b + 1 <= a,
        ;
    }
}

fn root(n: u128) -> (r: u128)
    requires
        n < 0x4000_0000_0000_0000_0000_0000_0000_0000,
    ensures
        r == root_of(n as int),
        is_root(n as int, r as int),
        r < 0x8000_0000_0000_0000,
        n >= 1 ==> r >= 1,
{
    let mut low: u128 = 0;
    let mut high: u128 = 0x8000_0000_0000_0000;
    while low + 1 < high
        invariant
            low < high <= 0x8000_0000_0000_0000,
            low * low <= n,
            n < high * high,
        decreases high - low,
    {
        let mid: u128 = low + (high - low) / 2;
        assert(mid * mid <= 0x8000_0000_0000_0000 * 0x8000_0000_0000_0000) by (nonlinear_arith)
            requires
                0 <= mid <= 0x8000_0000_0000_0000,
        ;
        if mid * mid <= n {
            low = mid;
        } else {
            high = mid;
        }
    }
    assert(high == low + 1);
    if low == 0 {
        assert(high * high == 1) by (nonlinear_arith)
            requires
                high == 1,
        ;
    }
    assert(is_root(n as int, low as int));
    proof {
        lemma_root_is_one(n as int, low as int, root_of(n as int));
    }
    low
}

/// One minus the cosine of the angle between two vectors, where neither is
/// zero nor its square wider than an integer.
pub open spec fn cosine_of(a: Seq<Value>, b: Seq<Value>) -> Result<Value, Fault> {
    match inner_of(a, b) {
        Err(f) => Err(f),
        Ok(ab) => match inner_of(a, a) {
            Err(f) => Err(f),
            Ok(aa) => match inner_of(b, b) {
                Err(f) => Err(f),
                Ok(bb) => if aa <= 0 || bb <= 0 {
                    Err(fault(ErrKind::DivisionByZero))
                } else if !fits(aa as int) || !fits(bb as int) {
                    Err(fault(ErrKind::Overflow))
                } else {
                    Ok(real_of(UNIT - clamped(quot(ab * UNIT, root_of(aa * bb)))))
                },
            },
        },
    }
}

fn cosine(a: &Vec<DataValue>, b: &Vec<DataValue>) -> (r: Result<DataValue, DbError>)
    ensures
        outcome(r) == cosine_of(values_of(a@), values_of(b@)),
{
    match inner(a, b) {
        Err(e) => Err(e),
        Ok(ab) => match inner(a, a) {
            Err(e) => Err(e),
            Ok(aa) => match inner(b, b) {
                Err(e) => Err(e),
                Ok(bb) => {
                    if aa <= 0 || bb <= 0 {
                        return Err(err(ErrKind::DivisionByZero));
                    }
                    if aa > 0x7fff_ffff_ffff_ffff || bb > 0x7fff_ffff_ffff_ffff {
                        return Err(err(ErrKind::Overflow));
                    }
                    assert(1 <= aa * bb < 0x4000_0000_0000_0000_0000_0000_0000_0000)
                        by (nonlinear_arith)
                        requires
                            1 <= aa <= 0x7fff_ffff_ffff_ffff,
                            1 <= bb <= 0x7fff_ffff_ffff_ffff,
                    ;
                    let d = root((aa * bb) as u128);
                    let q = scaled(ab, UNIT as i128, d as i128);
                    Ok(DataValue::Real(difference(UNIT as i128, q)))
                },
            },
        },
    }
}

/// The distance of two vectors.
pub open spec fn distance_of(m: Metric, a: Seq<Value>, b: Seq<Value>) -> Result<Value, Fault> {
    match m {
        Metric::Squared => squared_from(a, b, 0, Value::Real(0)),
        Metric::Cosine => cosine_of(a, b),
        Metric::Inner => match inner_of(a, b) {
            Err(f) => Err(f),
            Ok(ab) => Ok(real_of(UNIT - ab)),
        },
    }
}

/// The distance of two vectors.
pub fn distance(
    m: Metric,
    a: &Vec<DataValue>,
    b: &Vec<DataValue>,
) -> (r: Result<DataValue, DbError>)
    ensures
        outcome(r) == distance_of(m, values_of(a@), values_of(b@)),
{
    match m {
        Metric::Squared => squared(a, b),
        Metric::Cosine => cosine(a, b),
        Metric::Inner => match inner(a, b) {
            Err(e) => Err(e),
            Ok(ab) => Ok(DataValue::Real(difference(UNIT as i128, ab))),
        },
    }
}

/// The elements from place `i` on divided by a number of millionths, after
/// `acc`.
pub open spec fn divided_from(l: Seq<Value>, by: int, i: int, acc: Seq<Value>) -> Result<
    Seq<Value>,
    Fault,
>
    decreases l.len() - i,
{
    if i < 0 || i >= l.len() {
        Ok(acc)
    } else if !is_number(l[i]) {
        Err(fault(ErrKind::TypeMismatch))
    } else {
        divided_from(l, by, i + 1, acc.push(real_of(quot(micros_of(l[i]) * UNIT, by))))
    }
}

/// A vector of the same direction and of length one, where it is not zero nor
/// its square wider than an integer.
pub open spec fn normalized_of(l: Seq<Value>) -> Result<Seq<Value>, Fault> {
    match inner_of(l, l) {
        Err(f) => Err(f),
        Ok(n) => if n <= 0 {
            Err(fault(ErrKind::DivisionByZero))
        } else if !fits(n as int) {
            Err(fault(ErrKind::Overflow))
        } else {
            divided_from(l, root_of(n * UNIT), 0, Seq::empty())
        },
    }
}

/// A vector of the same direction and of length one, where it is not zero nor
/// its square wider than an integer.
pub fn normalized(l: &Vec<DataValue>) -> (r: Result<Tuple, DbError>)
    ensures
        outcome(r) == normalized_of(values_of(l@)),
{
    let ghost all = values_of(l@);
    match inner(l, l) {
        Err(e) => Err(e),
        Ok(n) => {
            if n <= 0 {
                return Err(err(ErrKind::DivisionByZero));
            }
            if n > 0x7fff_ffff_ffff_ffff {
                return Err(err(ErrKind::Overflow));
            }
            let by = root((n * UNIT as i128) as u128);
            let mut acc: Tuple = List::new();
            let mut i: usize = 0;
            while i < l.len()
                invariant
                    i <= l@.len(),
                    all == values_of(l@),
                    1 <= by < 0x8000_0000_0000_0000,
                    normalized_of(all) == divided_from(all, by as int, i as int, acc@),
                decreases l@.len() - i,
            {
                if !number(&l[i]) {
                    return Err(err(ErrKind::TypeMismatch));
                }
                let m: i128 = micros(&l[i]);
                acc.push(DataValue::Real(scaled(m, UNIT as i128, by as i128)));
                i = i + 1;
            }
            Ok(acc)
        },
    }
}

/// A number of millionths below one, made of the numbers of a context and a
/// place.
pub open spec fn noise(ctx: Ctx, i: int) -> i128 {
    ((ctx.tick * 6_364_136_223_846_793_005 + ctx.salt * 1_442_695_040_888_963_407 + i
        * 2_862_933_555_777_941_757 + 3_037_000_493) / 0x1_0000 % 1_000_000) as i128
}

/// A vector of numbers below one, made of the numbers of a context.
pub open spec fn noises(ctx: Ctx, n: int) -> Seq<Value> {
    Seq::new(
        if n < 0 {
            0
        } else {
            n as nat
        },
        |i: int| Value::Real(noise(ctx, i)),
    )
}

/// A vector of numbers below one, made of the numbers of a context.
pub fn make_noises(ctx: Ctx, n: u32) -> (r: Tuple)
    ensures
        r@ == noises(ctx, n as int),
{
    let mut r: Tuple = List::new();
    let mut i: u32 = 0;
    while i < n
        invariant
            i <= n,
            r@ =~= noises(ctx, n as int).take(i as int),
        decreases n - i,
    {
        let x: u128 = ctx.tick as u128 * 6_364_136_223_846_793_005 + ctx.salt as u128
            * 1_442_695_040_888_963_407 + i as u128 * 2_862_933_555_777_941_757 + 3_037_000_493;
        r.push(DataValue::Real((x / 0x1_0000 % 1_000_000) as i128));
        i = i + 1;
    }
    assert(noises(ctx, n as int).take(i as int) =~= noises(ctx, n as int));
    r
}

} // verus!
