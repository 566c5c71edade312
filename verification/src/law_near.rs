//! What distances of vectors are, and which vectors a search finds first.
use vstd::prelude::*;

use crate::error::Fault;
use crate::expr::{Ctx, ExprV, Op, add_of, apply_op, mul_of, sub_of};
use crate::fixed_point::quot;
use crate::law_columns::worth;
use crate::law_expr::cut_off;
use crate::law_order::{is_less, law_numbers_by_worth};
use crate::law_words::told;
use crate::lookup::metric_option;
use crate::parse::function_of;
use crate::query::FieldV;
use crate::search::{
    AskV, alike, found_from, given_option, hit_row, hits_from, rank_of, shared_from, wanted_row,
};
use crate::store::{Lookup, SearchV};
use crate::table::{law_sorted, sorted_of};
use crate::value::{Sign, Value, order, order_rows};
use crate::vector::{Metric, distance_of, inner_from, inner_of, is_root, root_of, squared_from};

verus! {

/// Whether a vector consists of numbers of a moderate size, and not of too many.
pub open spec fn moderate(a: Seq<Value>) -> bool {
    &&& a.len() <= 0x10_0000
    &&& forall|i: int|
        0 <= i < a.len() ==> ((#[trigger] a[i]) is Int || a[i] is Real) && -0x100_0000_0000
            <= worth(a[i]) <= 0x100_0000_0000
}

/// The sum of the squared differences of the first `n` numbers, each cut off
/// behind the millionths.
pub open spec fn squares(a: Seq<Value>, b: Seq<Value>, n: nat) -> int
    decreases n,
{
    if n == 0 {
        0
    } else {
        let d = worth(a[n - 1]) - worth(b[n - 1]);
        squares(a, b, (n - 1) as nat) + (d * d) / 1_000_000
    }
}

/// The sum of the products of the first `n` numbers, each cut off behind the
/// millionths toward zero.
pub open spec fn products(a: Seq<Value>, b: Seq<Value>, n: nat) -> int
    decreases n,
{
    if n == 0 {
        0
    } else {
        products(a, b, (n - 1) as nat) + cut(worth(a[n - 1]) * worth(b[n - 1]))
    }
}

/// A number of millionths of millionths in millionths, cut off toward zero.
pub open spec fn cut(n: int) -> int {
    if n >= 0 {
        n / 1_000_000
    } else {
        -((-n) / 1_000_000)
    }
}

proof fn lemma_square_bound(d: int)
    requires
        -0x200_0000_0000 <= d <= 0x200_0000_0000,
    ensures
        0 <= d * d <= 0x4_0000_0000_0000_0000_0000,
        0 <= (d * d) / 1_000_000 <= 0x4_0000_0000_0000_0000_0000,
{
    assert(0 <= d * d <= 0x4_0000_0000_0000_0000_0000) by (nonlinear_arith)
        requires
            -0x200_0000_0000 <= d <= 0x200_0000_0000,
    ;
}

proof fn lemma_product_bound(x: int, y: int)
    requires
        -0x100_0000_0000 <= x <= 0x100_0000_0000,
        -0x100_0000_0000 <= y <= 0x100_0000_0000,
    ensures
        -0x1_0000_0000_0000_0000_0000 <= x * y <= 0x1_0000_0000_0000_0000_0000,
        -0x1_0000_0000_0000_0000_0000 <= cut(x * y) <= 0x1_0000_0000_0000_0000_0000,
{
    assert(-0x1_0000_0000_0000_0000_0000 <= x * y <= 0x1_0000_0000_0000_0000_0000)
        by (nonlinear_arith)
        requires
            -0x100_0000_0000 <= x <= 0x100_0000_0000,
            -0x100_0000_0000 <= y <= 0x100_0000_0000,
    ;
}

proof fn lemma_whole(x: int)
    ensures
        ((x * 1_000_000) * (x * 1_000_000)) / 1_000_000 == (x * x) * 1_000_000,
{
    assert((x * 1_000_000) * (x * 1_000_000) == ((x * x) * 1_000_000) * 1_000_000)
        by (nonlinear_arith);
}

proof fn lemma_whole_product(x: int, y: int)
    ensures
        cut((x * 1_000_000) * (y * 1_000_000)) == (x * y) * 1_000_000,
{
    assert((x * 1_000_000) * (y * 1_000_000) == ((x * y) * 1_000_000) * 1_000_000)
        by (nonlinear_arith);
    assert(-((x * 1_000_000) * (y * 1_000_000)) == (-((x * y) * 1_000_000)) * 1_000_000);
}

/// The square of the difference of two numbers.
proof fn lemma_one_square(x: Value, y: Value) -> (v: Value)
    requires
        x is Int || x is Real,
        y is Int || y is Real,
        -0x100_0000_0000 <= worth(x) <= 0x100_0000_0000,
        -0x100_0000_0000 <= worth(y) <= 0x100_0000_0000,
    ensures
        sub_of(x, y) matches Ok(d) && mul_of(d, d) == Ok::<Value, Fault>(v),
        v is Int || v is Real,
        worth(v) == ((worth(x) - worth(y)) * (worth(x) - worth(y))) / 1_000_000,
        0 <= worth(v) <= 0x4_0000_0000_0000_0000_0000,
{
    let w = worth(x) - worth(y);
    lemma_square_bound(w);
    let d = sub_of(x, y)->Ok_0;
    assert(worth(d) == w);
    if let (Value::Int(a), Value::Int(b)) = (x, y) {
        let e = a - b;
        assert(d == Value::Int(e as i64) && w == e * 1_000_000);
        lemma_whole(e);
        assert(-0x200_0000 <= e <= 0x200_0000);
        assert(0 <= e * e <= 0x4_0000_0000_0000) by (nonlinear_arith)
            requires
                -0x200_0000 <= e <= 0x200_0000,
        ;
    }
    mul_of(d, d)->Ok_0
}

proof fn lemma_squared(a: Seq<Value>, b: Seq<Value>, i: int, acc: Value)
    requires
        moderate(a),
        moderate(b),
        a.len() == b.len(),
        0 <= i <= a.len(),
        acc is Real,
        worth(acc) == squares(a, b, i as nat),
        0 <= worth(acc) <= i * 0x4_0000_0000_0000_0000_0000,
    ensures
        squared_from(a, b, i, acc) matches Ok(v) && v is Real && worth(v) == squares(
            a,
            b,
            a.len(),
        ),
    decreases a.len() - i,
{
    if i < a.len() {
        let m = lemma_one_square(a[i], b[i]);
        let next = add_of(acc, m)->Ok_0;
        assert(next is Real);
        lemma_squared(a, b, i + 1, next);
    }
}

/// The squared distance of two vectors is the sum of the squares of their
/// differences; it does not depend on which comes first, and is none from a
/// vector to itself.
pub proof fn law_squared_distance(a: Seq<Value>, b: Seq<Value>)
    requires
        moderate(a),
        moderate(b),
        a.len() == b.len(),
    ensures
        distance_of(Metric::Squared, a, b) matches Ok(v) && v is Real && worth(v) == squares(
            a,
            b,
            a.len(),
        ),
        distance_of(Metric::Squared, a, b) == distance_of(Metric::Squared, b, a),
        a == b ==> distance_of(Metric::Squared, a, b) == Ok::<Value, Fault>(Value::Real(0)),
{
    lemma_squared(a, b, 0, Value::Real(0));
    lemma_squared(b, a, 0, Value::Real(0));
    lemma_squares_turn(a, b, a.len());
    if a == b {
        lemma_squares_none(a, a.len());
    }
}

proof fn lemma_squares_turn(a: Seq<Value>, b: Seq<Value>, n: nat)
    ensures
        squares(a, b, n) == squares(b, a, n),
    decreases n,
{
    if n > 0 {
        lemma_squares_turn(a, b, (n - 1) as nat);
        let d = worth(a[n - 1]) - worth(b[n - 1]);
        assert((-d) * (-d) == d * d) by (nonlinear_arith);
    }
}

proof fn lemma_squares_none(a: Seq<Value>, n: nat)
    ensures
        squares(a, a, n) == 0,
    decreases n,
{
    if n > 0 {
        lemma_squares_none(a, (n - 1) as nat);
    }
}

proof fn lemma_one_product(x: Value, y: Value) -> (v: Value)
    requires
        x is Int || x is Real,
        y is Int || y is Real,
        -0x100_0000_0000 <= worth(x) <= 0x100_0000_0000,
        -0x100_0000_0000 <= worth(y) <= 0x100_0000_0000,
    ensures
        mul_of(x, y) == Ok::<Value, Fault>(v),
        v is Int || v is Real,
        worth(v) == cut(worth(x) * worth(y)),
        -0x1_0000_0000_0000_0000_0000 <= worth(v) <= 0x1_0000_0000_0000_0000_0000,
{
    lemma_product_bound(worth(x), worth(y));
    if let (Value::Int(a), Value::Int(b)) = (x, y) {
        lemma_whole_product(a as int, b as int);
        assert(-0x100_0000 <= a <= 0x100_0000 && -0x100_0000 <= b <= 0x100_0000);
        assert(-0x1_0000_0000_0000 <= a * b <= 0x1_0000_0000_0000) by (nonlinear_arith)
            requires
                -0x100_0000 <= a <= 0x100_0000,
                -0x100_0000 <= b <= 0x100_0000,
        ;
    }
    mul_of(x, y)->Ok_0
}

proof fn lemma_inner(a: Seq<Value>, b: Seq<Value>, i: int, acc: Value)
    requires
        moderate(a),
        moderate(b),
        a.len() == b.len(),
        0 <= i <= a.len(),
        acc is Real,
        worth(acc) == products(a, b, i as nat),
        -i * 0x1_0000_0000_0000_0000_0000 <= worth(acc) <= i * 0x1_0000_0000_0000_0000_0000,
    ensures
        inner_from(a, b, i, acc) matches Ok(v) && v is Real && worth(v) == products(a, b, a.len()),
        inner_from(a, b, i, acc) matches Ok(v) ==> -0x10_0001 * 0x1_0000_0000_0000_0000_0000
            <= worth(v) <= 0x10_0001 * 0x1_0000_0000_0000_0000_0000,
    decreases a.len() - i,
{
    if i < a.len() {
        let m = lemma_one_product(a[i], b[i]);
        let next = add_of(acc, m)->Ok_0;
        assert(next is Real);
        lemma_inner(a, b, i + 1, next);
    }
}

/// The distance by the inner product is what that falls short of one. The
/// distance by the angle is what falls short of one of the inner product, divided
/// by the root of the product of the squares of both vectors.
pub proof fn law_inner_and_cosine(a: Seq<Value>, b: Seq<Value>)
    requires
        moderate(a),
        moderate(b),
        a.len() == b.len(),
    ensures
        distance_of(Metric::Inner, a, b) matches Ok(v) && v is Real && worth(v) == 1_000_000
            - products(a, b, a.len()),
        0 < products(a, a, a.len()) <= i64::MAX && 0 < products(b, b, b.len()) <= i64::MAX ==> (
        distance_of(Metric::Cosine, a, b) matches Ok(v) && v is Real && exists|r: int|
            #[trigger] is_root(products(a, a, a.len()) * products(b, b, b.len()), r) && r > 0
                && cut_off(products(a, b, a.len()) * 1_000_000, r, 1_000_000 - worth(v))),
{
    lemma_inner(a, b, 0, Value::Real(0));
    lemma_inner(a, a, 0, Value::Real(0));
    lemma_inner(b, b, 0, Value::Real(0));
    let ab = products(a, b, a.len());
    let aa = products(a, a, a.len());
    let bb = products(b, b, b.len());
    assert(inner_of(a, b) matches Ok(m) && m == ab);
    assert(inner_of(a, a) matches Ok(m) && m == aa);
    assert(inner_of(b, b) matches Ok(m) && m == bb);
    if 0 < aa <= i64::MAX && 0 < bb <= i64::MAX {
        let n = aa * bb;
        assert(n >= 1) by (nonlinear_arith)
            requires
                aa >= 1,
                bb >= 1,
                n == aa * bb,
        ;
        assert(n < (n + 1) * (n + 1)) by (nonlinear_arith)
            requires
                n >= 1,
        ;
        lemma_has_root(n, n);
        let r = root_of(aa * bb);
        assert(is_root(aa * bb, r));
        if r == 0 {
            assert(false) by (nonlinear_arith)
                requires
                    is_root(aa * bb, r),
                    r == 0,
                    aa * bb >= 1,
                    aa * bb < (r + 1) * (r + 1),
            ;
        }
        lemma_quot_cut(ab * 1_000_000, r);
        let v = distance_of(Metric::Cosine, a, b)->Ok_0;
        assert(worth(v) == 1_000_000 - quot(ab * 1_000_000, r));
        assert(is_root(aa * bb, r) && cut_off(ab * 1_000_000, r, 1_000_000 - worth(v)));
    }
}

proof fn lemma_quot_cut(a: int, b: int)
    requires
        b > 0,
    ensures
        cut_off(a, b, quot(a, b)),
        -(if a < 0 { -a } else { a }) <= quot(a, b) <= (if a < 0 { -a } else { a }),
{
    let m = if a < 0 { -a } else { a };
    vstd::arithmetic::div_mod::lemma_fundamental_div_mod(m, b);
    let q = m / b;
    assert(0 <= m % b < b && 0 <= q <= m) by (nonlinear_arith)
        requires
            b > 0,
            m >= 0,
            q == m / b,
    ;
    assert(b * q == q * b && (-q) * b == -(q * b)) by (nonlinear_arith);
}

proof fn lemma_has_root(n: int, k: int)
    requires
        0 <= n,
        0 <= k,
        n < (k + 1) * (k + 1),
    ensures
        is_root(n, root_of(n)),
    decreases k,
{
    if k * k <= n {
        assert(is_root(n, k));
    } else {
        assert(k > 0) by (nonlinear_arith)
            requires
                k * k > n,
                n >= 0,
                k >= 0,
        ;
        lemma_has_root(n, k - 1);
    }
}

/// Whether a row that was found by its vector is ranked by its distance.
spec fn ranked(hit: Seq<Value>) -> bool {
    hit.len() >= 3 && hit[0] == told(hit)
}

proof fn lemma_hits_ranked(
    s: SearchV,
    cols: Seq<Seq<char>>,
    key: Seq<Value>,
    row: Seq<Value>,
    a: AskV,
    ctx: Ctx,
    j: int,
    acc: Seq<Seq<Value>>,
    out: Seq<Seq<Value>>,
)
    requires
        s.kind == Lookup::Vectors,
        0 <= j,
        forall|i: int| 0 <= i < acc.len() ==> ranked(#[trigger] acc[i]),
        hits_from(s, cols, key, row, a, ctx, j, acc) == Ok::<Seq<Seq<Value>>, Fault>(out),
    ensures
        forall|i: int| 0 <= i < out.len() ==> ranked(#[trigger] out[i]),
    decreases s.fields.len() - j,
{
    if j < s.fields.len() {
        match rank_of(s, key, j, a.query)->Ok_0 {
            None => lemma_hits_ranked(s, cols, key, row, a, ctx, j + 1, acc, out),
            Some(r) => {
                let hit = hit_row(r, row);
                assert(r.len() == 3 && r[0] == r[1]);
                assert(hit.len() == row.len() + 3);
                assert(hit[0] == r[0]);
                assert(hit[hit.len() - 2] == r.skip(1)[0]);
                assert(ranked(hit));
                if wanted_row(a, cols, row, r[1], ctx)->Ok_0 {
                    lemma_hits_ranked(s, cols, key, row, a, ctx, j + 1, acc.push(hit), out);
                } else {
                    lemma_hits_ranked(s, cols, key, row, a, ctx, j + 1, acc, out);
                }
            },
        }
    }
}

proof fn lemma_found_ranked(
    s: SearchV,
    cols: Seq<Seq<char>>,
    nk: int,
    rows: Seq<Seq<Value>>,
    a: AskV,
    ctx: Ctx,
    i: int,
    acc: Seq<Seq<Value>>,
    out: Seq<Seq<Value>>,
)
    requires
        s.kind == Lookup::Vectors,
        0 <= i,
        forall|k: int| 0 <= k < acc.len() ==> ranked(#[trigger] acc[k]),
        found_from(s, cols, nk, rows, a, ctx, i, acc) == Ok::<Seq<Seq<Value>>, Fault>(out),
    ensures
        forall|k: int| 0 <= k < out.len() ==> ranked(#[trigger] out[k]),
    decreases rows.len() - i,
{
    if i < rows.len() {
        if nk > rows[i].len() {
            lemma_found_ranked(s, cols, nk, rows, a, ctx, i + 1, acc, out);
        } else {
            let more = hits_from(s, cols, rows[i].take(nk), rows[i], a, ctx, 0, acc)->Ok_0;
            lemma_hits_ranked(s, cols, rows[i].take(nk), rows[i], a, ctx, 0, acc, more);
            lemma_found_ranked(s, cols, nk, rows, a, ctx, i + 1, more, out);
        }
    }
}

/// Of the rows that a search by vectors finds, the nearest come first: what is
/// cut off by a limit is no nearer than what is shown.
pub proof fn law_nearest_come_first(
    s: SearchV,
    cols: Seq<Seq<char>>,
    nk: int,
    rows: Seq<Seq<Value>>,
    a: AskV,
    ctx: Ctx,
    ranks: Seq<Seq<Value>>,
)
    requires
        s.kind == Lookup::Vectors,
        found_from(s, cols, nk, rows, a, ctx, 0, Seq::empty()) == Ok::<Seq<Seq<Value>>, Fault>(
            ranks,
        ),
    ensures
        forall|i: int, j: int|
            0 <= i < j < sorted_of(ranks).len() ==> !is_less(
                told(#[trigger] sorted_of(ranks)[j]),
                told(#[trigger] sorted_of(ranks)[i]),
            ),
{
    lemma_found_ranked(s, cols, nk, rows, a, ctx, 0, Seq::empty(), ranks);
    law_sorted(ranks);
    let out = sorted_of(ranks);
    assert forall|i: int, j: int| 0 <= i < j < out.len() implies !is_less(
        told(#[trigger] out[j]),
        told(#[trigger] out[i]),
    ) by {
        assert(out.contains(out[i]) && out.contains(out[j]));
        assert(ranks.contains(out[i]) && ranks.contains(out[j]));
        assert(ranked(out[i]) && ranked(out[j]));
        assert(order_rows(out[i], out[j], 0) == Sign::Less);
        assert(order(out[i][0], out[j][0]) != Sign::More);
        if is_less(told(out[j]), told(out[i])) {
            law_numbers_by_worth(told(out[i]), told(out[j]));
        }
    }
}

/// The distance of an index is the one that its option names, and the squared one
/// where it names none.
pub proof fn law_named_distance(opts: Seq<FieldV>, name: Seq<char>)
    ensures
        given_option(opts, "distance"@) is None ==> metric_option(opts) == Ok::<Metric, Fault>(
            Metric::Squared,
        ),
        given_option(opts, "distance"@) == Some(ExprV::Var(name)) && name == "L2"@ ==> metric_option(
            opts,
        ) == Ok::<Metric, Fault>(Metric::Squared),
        given_option(opts, "distance"@) == Some(ExprV::Var(name)) && name == "Cosine"@
            ==> metric_option(opts) == Ok::<Metric, Fault>(Metric::Cosine),
        given_option(opts, "distance"@) == Some(ExprV::Var(name)) && name == "IP"@ ==> metric_option(
            opts,
        ) == Ok::<Metric, Fault>(Metric::Inner),
{
    reveal_strlit("L2");
    reveal_strlit("Cosine");
    reveal_strlit("IP");
    assert("L2"@.len() == 2 && "L2"@[0] == 'L');
    assert("Cosine"@.len() == 6);
    assert("IP"@.len() == 2 && "IP"@[0] == 'I');
}

/// The functions of distances measure by what they are named for.
pub proof fn law_distance_functions(
    a: Seq<Value>,
    b: Seq<Value>,
    l2: Op,
    cos: Op,
    ip: Op,
    ctx: Ctx,
)
    requires
        function_of("l2_dist"@) == Some(l2),
        function_of("cos_dist"@) == Some(cos),
        function_of("ip_dist"@) == Some(ip),
    ensures
        ({
            let args = seq![Value::List(a), Value::List(b)];
            &&& apply_op(l2, args, ctx) == distance_of(Metric::Squared, a, b)
            &&& apply_op(cos, args, ctx) == distance_of(Metric::Cosine, a, b)
            &&& apply_op(ip, args, ctx) == distance_of(Metric::Inner, a, b)
        }),
{
    let args = seq![Value::List(a), Value::List(b)];
    assert(args.len() == 2 && args[0] == Value::List(a) && args[1] == Value::List(b));
    reveal_strlit("max");
    reveal_strlit("min");
    reveal_strlit("concat");
    reveal_strlit("first");
    reveal_strlit("last");
    reveal_strlit("length");
    reveal_strlit("int_range");
    reveal_strlit("now");
    reveal_strlit("rand_uuid_v1");
    reveal_strlit("is_null");
    reveal_strlit("to_int");
    reveal_strlit("floor");
    reveal_strlit("rand_vec");
    reveal_strlit("l2_dist");
    reveal_strlit("cos_dist");
    reveal_strlit("ip_dist");
    assert("max"@.len() == 3 && "min"@.len() == 3 && "concat"@.len() == 6 && "first"@.len() == 5
        && "last"@.len() == 4 && "length"@.len() == 6 && "int_range"@.len() == 9 && "now"@.len()
        == 3 && "rand_uuid_v1"@.len() == 12 && "to_int"@.len() == 6 && "floor"@.len() == 5);
    assert("is_null"@.len() == 7 && "is_null"@[0] == 'i' && "is_null"@[1] == 's');
    assert("rand_vec"@.len() == 8 && "rand_vec"@[0] == 'r');
    assert("l2_dist"@.len() == 7 && "l2_dist"@[0] == 'l');
    assert("cos_dist"@.len() == 8 && "cos_dist"@[0] == 'c');
    assert("ip_dist"@.len() == 7 && "ip_dist"@[0] == 'i' && "ip_dist"@[1] == 'p');
}

proof fn lemma_shared(a: Seq<Value>, b: Seq<Value>, i: int, acc: nat)
    requires
        a.no_duplicates(),
        0 <= i <= a.len(),
        acc == a.take(i).to_set().intersect(b.to_set()).len(),
    ensures
        shared_from(a, b, i, acc) == a.to_set().intersect(b.to_set()).len(),
    decreases a.len() - i,
{
    if i == a.len() {
        assert(a.take(i) =~= a);
    } else {
        let x = a[i];
        let old = a.take(i).to_set().intersect(b.to_set());
        let new = a.take(i + 1).to_set().intersect(b.to_set());
        a.take(i).lemma_cardinality_of_set();
        assert(a.take(i + 1) =~= a.take(i).push(x));
        let before = a.take(i);
        let after = a.take(i + 1);
        assert forall|y: Value| #[trigger] after.contains(y) <==> before.contains(y) || y == x by {
            if before.contains(y) {
                let k = choose|k: int| 0 <= k < before.len() && before[k] == y;
                assert(after[k] == y);
            }
            if y == x {
                assert(after[i] == y);
            }
            if after.contains(y) {
                let k = choose|k: int| 0 <= k < after.len() && after[k] == y;
                if k < i {
                    assert(before[k] == y);
                }
            }
        }
        if b.contains(x) {
            assert(new =~= old.insert(x));
            assert(!old.contains(x)) by {
                if before.contains(x) {
                    let k = choose|k: int| 0 <= k < before.len() && before[k] == x;
                    assert(a[k] == a[i]);
                }
            }
            lemma_shared(a, b, i + 1, acc + 1);
        } else {
            assert(new =~= old);
            lemma_shared(a, b, i + 1, acc);
        }
    }
}

/// Two texts are alike exactly where what they share is the part that is wanted of
/// what they have together; it does not matter which comes first.
pub proof fn law_alike_by_shared_part(a: Seq<Value>, b: Seq<Value>, target: u32)
    requires
        a.no_duplicates(),
        b.no_duplicates(),
    ensures
        alike(a, b, target) <==> a.to_set().intersect(b.to_set()).len() * 1_000_000 >= target
            * a.to_set().union(b.to_set()).len(),
        alike(a, b, target) == alike(b, a, target),
{
    let x = a.to_set();
    let y = b.to_set();
    assert(a.take(0).to_set().intersect(y) =~= Set::empty());
    assert(b.take(0).to_set().intersect(x) =~= Set::empty());
    lemma_shared(a, b, 0, 0);
    lemma_shared(b, a, 0, 0);
    assert(x.intersect(y) =~= y.intersect(x));
    a.unique_seq_to_set();
    b.unique_seq_to_set();
    vstd::set_lib::lemma_set_intersect_union_lens(x, y);
}

} // verus!
