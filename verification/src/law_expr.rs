//! What the operators and functions of expressions give.
use vstd::prelude::*;

use crate::error::{ErrKind, Fault, fault};
use crate::expr::{Ctx, Op, apply_op, extreme_from, ints_between, is_number, loose_order, remainder};
use crate::fixed_point::quot;
use crate::law_columns::worth;
use crate::law_order::{is_less, law_comparisons_agree, law_numbers_by_worth};
use crate::lex::Sym;
use crate::parse::{function_of, operator_of};
use crate::value::{Sign, Value, law_order_chains, law_order_flips, lemma_order_same, order};

verus! {

/// Whether a sign stands for an operator.
pub open spec fn stands_between(s: Sym, op: Op) -> bool {
    exists|level: u64| #[trigger] operator_of(level, s) == Some(op)
}

/// Whether an integer can hold a number.
pub open spec fn holds_int(n: int) -> bool {
    i64::MIN <= n <= i64::MAX
}

/// Whether a real can hold a number of millionths.
pub open spec fn holds_real(n: int) -> bool {
    i128::MIN <= n <= i128::MAX
}

/// A sum of integers is their sum, where an integer can hold it, and else an
/// error; likewise a difference and a product.
pub proof fn law_integers_calculate(
    a: i64,
    b: i64,
    plus: Op,
    minus: Op,
    by: Op,
    ctx: Ctx,
)
    requires
        stands_between(Sym::Plus, plus),
        stands_between(Sym::Minus, minus),
        stands_between(Sym::Star, by),
    ensures
        ({
            let args = seq![Value::Int(a), Value::Int(b)];
            let over = Err::<Value, Fault>(fault(ErrKind::Overflow));
            &&& apply_op(plus, args, ctx) == if holds_int(a + b) {
                Ok::<Value, Fault>(Value::Int((a + b) as i64))
            } else {
                over
            }
            &&& apply_op(minus, args, ctx) == if holds_int(a - b) {
                Ok::<Value, Fault>(Value::Int((a - b) as i64))
            } else {
                over
            }
            &&& apply_op(by, args, ctx) == if holds_int(a * b) {
                Ok::<Value, Fault>(Value::Int((a * b) as i64))
            } else {
                over
            }
        }),
{
    let args = seq![Value::Int(a), Value::Int(b)];
    assert(args.len() == 2 && args[0] == Value::Int(a) && args[1] == Value::Int(b));
    assert(plus == Op::Add && minus == Op::Sub && by == Op::Mul);
}

proof fn lemma_quot(a: int, b: int)
    requires
        b != 0,
    ensures
        ({
            let r = a - quot(a, b) * b;
            &&& (b > 0 ==> -b < r < b) && (b < 0 ==> b < r < -b)
            &&& (a >= 0 ==> r >= 0) && (a <= 0 ==> r <= 0)
        }),
{
    let m = if a < 0 { -a } else { a };
    let n = if b < 0 { -b } else { b };
    let q = m / n;
    vstd::arithmetic::div_mod::lemma_fundamental_div_mod(m, n);
    assert(0 <= m % n < n) by (nonlinear_arith)
        requires
            n > 0,
    ;
    assert(n * q == q * n) by (nonlinear_arith);
    assert((-q) * b == -(q * b) && q * (-b) == -(q * b) && (-q) * (-b) == q * b)
        by (nonlinear_arith);
}

/// With a real among them, numbers are added and subtracted exactly, and their
/// products and quotients are cut off behind the millionths, toward zero; where a
/// real can hold it.
pub proof fn law_reals_calculate(
    a: Value,
    b: Value,
    plus: Op,
    minus: Op,
    by: Op,
    over: Op,
    ctx: Ctx,
)
    requires
        stands_between(Sym::Plus, plus),
        stands_between(Sym::Minus, minus),
        stands_between(Sym::Star, by),
        stands_between(Sym::Slash, over),
        a is Int || a is Real,
        b is Int || b is Real,
    ensures
        ({
            let args = seq![a, b];
            let wide = a is Real || b is Real;
            &&& wide && holds_real(worth(a) + worth(b)) ==> (apply_op(plus, args, ctx) matches Ok(
                v,
            ) && v is Real && worth(v) == worth(a) + worth(b))
            &&& wide && holds_real(worth(a) - worth(b)) ==> (apply_op(minus, args, ctx) matches Ok(
                v,
            ) && v is Real && worth(v) == worth(a) - worth(b))
            &&& wide ==> (apply_op(by, args, ctx) matches Ok(v) && v is Real && (i128::MIN
                < worth(v) < i128::MAX ==> cut_off(worth(a) * worth(b), 1_000_000, worth(v))))
            &&& worth(b) == 0 ==> apply_op(over, args, ctx) == Err::<Value, Fault>(
                fault(ErrKind::DivisionByZero),
            )
            &&& worth(b) != 0 ==> (apply_op(over, args, ctx) matches Ok(v) && v is Real && (
            i128::MIN < worth(v) < i128::MAX ==> cut_off(
                worth(a) * 1_000_000,
                worth(b),
                worth(v),
            )))
        }),
{
    let args = seq![a, b];
    assert(args.len() == 2 && args[0] == a && args[1] == b);
    assert(plus == Op::Add && minus == Op::Sub && by == Op::Mul && over == Op::Div);
    lemma_quot(worth(a) * worth(b), 1_000_000);
    if worth(b) != 0 {
        lemma_quot(worth(a) * 1_000_000, worth(b));
    }
}

/// Whether a number is what a quotient comes to, cut off toward zero.
pub open spec fn cut_off(a: int, b: int, q: int) -> bool {
    let r = a - q * b;
    &&& (b > 0 ==> -b < r < b) && (b < 0 ==> b < r < -b)
    &&& (a >= 0 ==> r >= 0) && (a <= 0 ==> r <= 0)
}

/// A remainder is what a quotient, cut off toward zero, leaves.
pub proof fn law_remainder_is_left(a: i64, b: i64, rest: Op, ctx: Ctx)
    requires
        stands_between(Sym::Percent, rest),
        b != 0,
    ensures
        apply_op(rest, seq![Value::Int(a), Value::Int(b)], ctx) matches Ok(Value::Int(r))
            && exists|q: int| #[trigger] cut_off(a as int, b as int, q) && r == a - q * b,
{
    let args = seq![Value::Int(a), Value::Int(b)];
    assert(args.len() == 2 && args[0] == Value::Int(a) && args[1] == Value::Int(b));
    assert(rest == Op::Mod);
    lemma_quot(a as int, b as int);
    let q = quot(a as int, b as int);
    let m = if a < 0 { -a } else { a as int };
    let n = if b < 0 { -b } else { b as int };
    vstd::arithmetic::div_mod::lemma_fundamental_div_mod(m, n);
    assert(n * (m / n) == (m / n) * n) by (nonlinear_arith);
    let d = m / n;
    assert((-d) * b == -(d * b) && d * (-b) == -(d * b) && (-d) * (-b) == d * b)
        by (nonlinear_arith);
    assert(remainder(a as int, b as int) == a - q * b);
    assert(cut_off(a as int, b as int, q));
}

/// Numbers compare by what they are worth.
pub proof fn law_numbers_compare(
    a: Value,
    b: Value,
    lt: Op,
    le: Op,
    gt: Op,
    ge: Op,
    eq: Op,
    ne: Op,
    ctx: Ctx,
)
    requires
        a is Int || a is Real,
        b is Int || b is Real,
        stands_between(Sym::Less, lt),
        stands_between(Sym::AtMost, le),
        stands_between(Sym::More, gt),
        stands_between(Sym::AtLeast, ge),
        stands_between(Sym::Same, eq),
        stands_between(Sym::Differs, ne),
    ensures
        ({
            let args = seq![a, b];
            &&& apply_op(lt, args, ctx) == Ok::<Value, Fault>(Value::Bool(is_less(a, b)))
            &&& apply_op(le, args, ctx) == Ok::<Value, Fault>(Value::Bool(!is_less(b, a)))
            &&& apply_op(gt, args, ctx) == Ok::<Value, Fault>(Value::Bool(is_less(b, a)))
            &&& apply_op(ge, args, ctx) == Ok::<Value, Fault>(Value::Bool(!is_less(a, b)))
            &&& apply_op(eq, args, ctx) == Ok::<Value, Fault>(
                Value::Bool(!is_less(a, b) && !is_less(b, a)),
            )
            &&& apply_op(ne, args, ctx) == Ok::<Value, Fault>(
                Value::Bool(is_less(a, b) || is_less(b, a)),
            )
        }),
{
    let args = seq![a, b];
    assert(args.len() == 2 && args[0] == a && args[1] == b);
    law_numbers_by_worth(a, b);
    assert(lt == Op::Lt && le == Op::Le && gt == Op::Gt && ge == Op::Ge && eq == Op::Eq && ne
        == Op::Ne);
}

/// Other values compare by the order of values, and are equal where they are the
/// same.
pub proof fn law_values_compare(
    a: Value,
    b: Value,
    lt: Op,
    le: Op,
    gt: Op,
    ge: Op,
    eq: Op,
    ne: Op,
    ctx: Ctx,
)
    requires
        !(a is Int || a is Real) || !(b is Int || b is Real),
        stands_between(Sym::Less, lt),
        stands_between(Sym::AtMost, le),
        stands_between(Sym::More, gt),
        stands_between(Sym::AtLeast, ge),
        stands_between(Sym::Same, eq),
        stands_between(Sym::Differs, ne),
    ensures
        ({
            let args = seq![a, b];
            &&& apply_op(lt, args, ctx) == Ok::<Value, Fault>(
                Value::Bool(order(a, b) == Sign::Less),
            )
            &&& apply_op(le, args, ctx) == Ok::<Value, Fault>(
                Value::Bool(order(a, b) == Sign::Less || a == b),
            )
            &&& apply_op(gt, args, ctx) == Ok::<Value, Fault>(
                Value::Bool(order(b, a) == Sign::Less),
            )
            &&& apply_op(ge, args, ctx) == Ok::<Value, Fault>(
                Value::Bool(order(b, a) == Sign::Less || a == b),
            )
            &&& apply_op(eq, args, ctx) == Ok::<Value, Fault>(Value::Bool(a == b))
            &&& apply_op(ne, args, ctx) == Ok::<Value, Fault>(Value::Bool(a != b))
        }),
{
    let args = seq![a, b];
    assert(args.len() == 2 && args[0] == a && args[1] == b);
    law_comparisons_agree(a, b);
    lemma_order_same(a, b);
    law_order_flips(a, b);
    assert(lt == Op::Lt && le == Op::Le && gt == Op::Gt && ge == Op::Ge && eq == Op::Eq && ne
        == Op::Ne);
}

/// Truth values combine as they do.
pub proof fn law_truths_combine(a: bool, b: bool, both: Op, either: Op, ctx: Ctx)
    requires
        stands_between(Sym::Both, both),
        stands_between(Sym::Either, either),
    ensures
        ({
            let args = seq![Value::Bool(a), Value::Bool(b)];
            &&& apply_op(both, args, ctx) == Ok::<Value, Fault>(Value::Bool(a && b))
            &&& apply_op(either, args, ctx) == Ok::<Value, Fault>(Value::Bool(a || b))
            &&& apply_op(Op::Not, seq![Value::Bool(a)], ctx) == Ok::<Value, Fault>(Value::Bool(!a))
        }),
{
    let args = seq![Value::Bool(a), Value::Bool(b)];
    assert(args.len() == 2 && args[0] == Value::Bool(a) && args[1] == Value::Bool(b));
    let one = seq![Value::Bool(a)];
    assert(one.len() == 1 && one[0] == Value::Bool(a));
    assert(both == Op::And && either == Op::Or);
}

/// A sign before a number takes it to the other side of zero.
pub proof fn law_negation_turns(v: Value, ctx: Ctx)
    requires
        v is Int || v is Real,
    ensures
        v is Int && holds_int(-(v->Int_0)) ==> apply_op(Op::Neg, seq![v], ctx) == Ok::<
            Value,
            Fault,
        >(Value::Int((-(v->Int_0)) as i64)),
        v is Real && holds_real(-worth(v)) ==> (apply_op(Op::Neg, seq![v], ctx) matches Ok(w) && w
            is Real && worth(w) == -worth(v)),
{
    let one = seq![v];
    assert(one.len() == 1 && one[0] == v);
}

proof fn lemma_functions()
    ensures
        function_of("max"@) == Some(Op::Max),
        function_of("min"@) == Some(Op::Min),
        function_of("concat"@) == Some(Op::Concat),
        function_of("first"@) == Some(Op::First),
        function_of("last"@) == Some(Op::Last),
        function_of("length"@) == Some(Op::Length),
        function_of("int_range"@) == Some(Op::IntRange),
        function_of("is_null"@) == Some(Op::IsNull),
        function_of("to_int"@) == Some(Op::ToInt),
        function_of("floor"@) == Some(Op::Floor),
{
    reveal_strlit("max");
    reveal_strlit("min");
    reveal_strlit("concat");
    reveal_strlit("first");
    reveal_strlit("last");
    reveal_strlit("length");
    reveal_strlit("int_range");
    reveal_strlit("now");
    reveal_strlit("rand_uuid_v1");
    reveal_strlit("is_null");
    reveal_strlit("to_int");
    reveal_strlit("floor");
    assert("max"@.len() == 3 && "max"@[1] == 'a');
    assert("min"@.len() == 3 && "min"@[1] == 'i');
    assert("concat"@.len() == 6 && "concat"@[0] == 'c');
    assert("first"@.len() == 5 && "first"@[1] == 'i');
    assert("last"@.len() == 4);
    assert("length"@.len() == 6 && "length"@[0] == 'l');
    assert("int_range"@.len() == 9);
    assert("now"@.len() == 3);
    assert("rand_uuid_v1"@.len() == 12);
    assert("is_null"@.len() == 7);
    assert("to_int"@.len() == 6 && "to_int"@[0] == 't');
    assert("floor"@.len() == 5 && "floor"@[1] == 'l');
}

proof fn lemma_extreme(args: Seq<Value>, i: int, best: Value, want: Sign)
    requires
        1 <= i <= args.len(),
        args.take(i).contains(best),
        want == Sign::Less || want == Sign::More,
        forall|k: int| 0 <= k < i ==> loose_order(#[trigger] args[k], best) != want,
    ensures
        args.contains(extreme_from(args, i, best, want)),
        forall|k: int|
            0 <= k < args.len() ==> loose_order(
                #[trigger] args[k],
                extreme_from(args, i, best, want),
            ) != want,
    decreases args.len() - i,
{
    if i == args.len() {
        assert(args.take(i) =~= args);
    } else {
        let x = args[i];
        let next = if loose_order(x, best) == want {
            x
        } else {
            best
        };
        assert(args.take(i + 1).contains(next)) by {
            if next == x {
                assert(args.take(i + 1)[i] == x);
            } else {
                let k = choose|k: int| 0 <= k < i && args.take(i)[k] == best;
                assert(args.take(i + 1)[k] == best);
            }
        }
        assert forall|k: int| 0 <= k < i + 1 implies loose_order(#[trigger] args[k], next)
            != want by {
            lemma_order_same(next, next);
            if k < i && next == x && loose_order(args[k], next) == want {
                lemma_loose_chain(args[k], x, best, want);
            }
        }
        lemma_extreme(args, i + 1, next, want);
    }
}

proof fn lemma_loose_chain(a: Value, b: Value, c: Value, want: Sign)
    requires
        want == Sign::Less || want == Sign::More,
        loose_order(a, b) == want,
        loose_order(b, c) == want,
    ensures
        loose_order(a, c) == want,
{
    law_order_flips(a, b);
    law_order_flips(b, c);
    law_order_flips(a, c);
    if is_number(a) && is_number(b) {
    } else if is_number(b) && is_number(c) {
    } else if want == Sign::Less {
        if order(a, b) == Sign::Less && order(b, c) == Sign::Less {
            law_order_chains(a, b, c);
        }
    } else if order(c, b) == Sign::Less && order(b, a) == Sign::Less {
        law_order_chains(c, b, a);
    }
}

/// `max` and `min` give one of their arguments, than which no other is greater or
/// less.
pub proof fn law_extremes_of_arguments(args: Seq<Value>, max: Op, min: Op, ctx: Ctx)
    requires
        args.len() > 0,
        function_of("max"@) == Some(max),
        function_of("min"@) == Some(min),
    ensures
        apply_op(max, args, ctx) matches Ok(v) && args.contains(v) && forall|k: int|
            0 <= k < args.len() ==> loose_order(#[trigger] args[k], v) != Sign::More && !is_less(
                v,
                args[k],
            ),
        apply_op(min, args, ctx) matches Ok(v) && args.contains(v) && forall|k: int|
            0 <= k < args.len() ==> loose_order(#[trigger] args[k], v) != Sign::Less && !is_less(
                args[k],
                v,
            ),
{
    lemma_functions();
    assert(args.take(1)[0] == args[0]);
    lemma_order_same(args[0], args[0]);
    lemma_extreme(args, 1, args[0], Sign::More);
    lemma_extreme(args, 1, args[0], Sign::Less);
    let hi = extreme_from(args, 1, args[0], Sign::More);
    let lo = extreme_from(args, 1, args[0], Sign::Less);
    assert forall|k: int| 0 <= k < args.len() implies (is_less(hi, args[k]) ==> loose_order(
        #[trigger] args[k],
        hi,
    ) == Sign::More) && (is_less(args[k], lo) ==> loose_order(args[k], lo) == Sign::Less) by {
        if is_number(args[k]) && is_number(hi) {
            law_numbers_by_worth(args[k], hi);
        }
        if is_number(args[k]) && is_number(lo) {
            law_numbers_by_worth(args[k], lo);
        }
    }
}

proof fn lemma_ints(a: int, b: int, acc: Seq<Value>)
    requires
        a <= b,
    ensures
        ints_between(a, b, acc).len() == acc.len() + (b - a),
        forall|i: int|
            0 <= i < acc.len() ==> #[trigger] ints_between(a, b, acc)[i] == acc[i],
        forall|i: int|
            acc.len() <= i < acc.len() + (b - a) ==> #[trigger] ints_between(a, b, acc)[i]
                == Value::Int((a + (i - acc.len())) as i64),
    decreases b - a,
{
    if a < b {
        let more = acc.push(Value::Int(a as i64));
        lemma_ints(a + 1, b, more);
        let out = ints_between(a, b, acc);
        assert forall|i: int| 0 <= i < acc.len() implies #[trigger] out[i] == acc[i] by {
            assert(out[i] == more[i]);
        }
        assert forall|i: int| acc.len() <= i < acc.len() + (b - a) implies #[trigger] out[i]
            == Value::Int((a + (i - acc.len())) as i64) by {
            if i == acc.len() {
                assert(out[i] == more[i]);
            }
        }
    }
}

/// The functions on lists and texts: the first and the last element, the number
/// of elements, one list behind the other, and the integers from one up to
/// another.
pub proof fn law_lists(
    l: Seq<Value>,
    m: Seq<Value>,
    s: Seq<char>,
    t: Seq<char>,
    a: i64,
    b: i64,
    first: Op,
    last: Op,
    length: Op,
    concat: Op,
    range: Op,
    ctx: Ctx,
)
    requires
        function_of("first"@) == Some(first),
        function_of("last"@) == Some(last),
        function_of("length"@) == Some(length),
        function_of("concat"@) == Some(concat),
        function_of("int_range"@) == Some(range),
        l.len() <= i64::MAX,
        s.len() <= i64::MAX,
    ensures
        l.len() > 0 ==> apply_op(first, seq![Value::List(l)], ctx) == Ok::<Value, Fault>(l.first()),
        l.len() > 0 ==> apply_op(last, seq![Value::List(l)], ctx) == Ok::<Value, Fault>(l.last()),
        l.len() == 0 ==> apply_op(first, seq![Value::List(l)], ctx) == Ok::<Value, Fault>(
            Value::Null,
        ) && apply_op(last, seq![Value::List(l)], ctx) == Ok::<Value, Fault>(Value::Null),
        apply_op(length, seq![Value::List(l)], ctx) == Ok::<Value, Fault>(
            Value::Int(l.len() as i64),
        ),
        apply_op(length, seq![Value::Str(s)], ctx) == Ok::<Value, Fault>(
            Value::Int(s.len() as i64),
        ),
        apply_op(concat, seq![Value::List(l), Value::List(m)], ctx) == Ok::<Value, Fault>(
            Value::List(l + m),
        ),
        apply_op(concat, seq![Value::Str(s), Value::Str(t)], ctx) == Ok::<Value, Fault>(
            Value::Str(s + t),
        ),
        a <= b ==> (apply_op(range, seq![Value::Int(a), Value::Int(b)], ctx) matches Ok(
            Value::List(r),
        ) && r.len() == b - a && forall|i: int|
            0 <= i < r.len() ==> #[trigger] r[i] == Value::Int((a + i) as i64)),
        0 <= b ==> (apply_op(range, seq![Value::Int(b)], ctx) matches Ok(Value::List(r)) && r.len()
            == b && forall|i: int| 0 <= i < r.len() ==> #[trigger] r[i] == Value::Int(i as i64)),
{
    lemma_functions();
    let one = seq![Value::List(l)];
    let text = seq![Value::Str(s)];
    let lists = seq![Value::List(l), Value::List(m)];
    let texts = seq![Value::Str(s), Value::Str(t)];
    let ends = seq![Value::Int(a), Value::Int(b)];
    let end = seq![Value::Int(b)];
    assert(one.len() == 1 && one[0] == Value::List(l));
    assert(text.len() == 1 && text[0] == Value::Str(s));
    assert(lists.len() == 2 && lists[0] == Value::List(l) && lists[1] == Value::List(m));
    assert(texts.len() == 2 && texts[0] == Value::Str(s) && texts[1] == Value::Str(t));
    assert(ends.len() == 2 && ends[0] == Value::Int(a) && ends[1] == Value::Int(b));
    assert(end.len() == 1 && end[0] == Value::Int(b));
    if a <= b {
        lemma_ints(a as int, b as int, Seq::empty());
    }
    if 0 <= b {
        lemma_ints(0, b as int, Seq::empty());
    }
}

/// Whether a value is null can be asked; a number is cut off toward zero, or goes
/// down to a whole one.
pub proof fn law_numbers_are_cut(v: Value, is_null: Op, to_int: Op, floor: Op, ctx: Ctx)
    requires
        function_of("is_null"@) == Some(is_null),
        function_of("to_int"@) == Some(to_int),
        function_of("floor"@) == Some(floor),
    ensures
        apply_op(is_null, seq![v], ctx) == Ok::<Value, Fault>(Value::Bool(v is Null)),
        v is Int ==> apply_op(to_int, seq![v], ctx) == Ok::<Value, Fault>(v) && apply_op(
            floor,
            seq![v],
            ctx,
        ) == Ok::<Value, Fault>(v),
        v is Real ==> (apply_op(to_int, seq![v], ctx) matches Ok(w) ==> w is Int && cut_off(
            worth(v),
            1_000_000,
            w->Int_0 as int,
        )),
        v is Real && worth(v) >= i128::MIN + 1_000_000 ==> (apply_op(floor, seq![v], ctx) matches Ok(
            w,
        ) && w is Real && worth(w) % 1_000_000 == 0 && worth(w) <= worth(v) < worth(w)
            + 1_000_000),
{
    lemma_functions();
    let one = seq![v];
    assert(one.len() == 1 && one[0] == v);
    lemma_quot(worth(v), 1_000_000);
}

} // verus!
