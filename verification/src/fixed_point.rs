//! Arithmetic on reals, which are counted in millionths: exact but for what is
//! smaller than one of them, and ending at the outermost of them.
use vstd::prelude::*;

verus! {

/// The nearest number of millionths that a real can hold.
pub open spec fn clamped(n: int) -> i128 {
    if n < i128::MIN {
        i128::MIN
    } else if n > i128::MAX {
        i128::MAX
    } else {
        n as i128
    }
}

/// The sum of two reals.
pub fn sum(a: i128, b: i128) -> (r: i128)
    ensures
        r == clamped(a + b),
{
    if b >= 0 {
        if a > i128::MAX - b {
            i128::MAX
        } else {
            a + b
        }
    } else if a < i128::MIN - b {
        i128::MIN
    } else {
        a + b
    }
}

/// The difference of two reals.
pub fn difference(a: i128, b: i128) -> (r: i128)
    ensures
        r == clamped(a - b),
{
    if b >= 0 {
        if a < i128::MIN + b {
            i128::MIN
        } else {
            a - b
        }
    } else if a > i128::MAX + b {
        i128::MAX
    } else {
        a - b
    }
}

/// The quotient rounded toward zero.
pub open spec fn quot(a: int, b: int) -> int {
    let q = (if a < 0 { -a } else { a }) / (if b < 0 { -b } else { b });
    if (a < 0) == (b < 0) {
        q
    } else {
        -q
    }
}

pub fn product(x: i64, y: i64) -> (r: i128)
    ensures
        r == x * y,
        -0x4000_0000_0000_0000_0000_0000_0000_0000 <= r
            <= 0x4000_0000_0000_0000_0000_0000_0000_0000,
{
    assert(-0x4000_0000_0000_0000_0000_0000_0000_0000 <= x * y
        <= 0x4000_0000_0000_0000_0000_0000_0000_0000) by (nonlinear_arith)
        requires
            -0x8000_0000_0000_0000 <= x <= 0x7fff_ffff_ffff_ffff,
            -0x8000_0000_0000_0000 <= y <= 0x7fff_ffff_ffff_ffff,
    ;
    x as i128 * y as i128
}

/// A number without its sign.
pub fn magnitude(a: i128) -> (r: u128)
    ensures
        r == (if a < 0 { -a } else { a as int }),
        r <= 0x8000_0000_0000_0000_0000_0000_0000_0000,
        a > i128::MIN ==> r <= i128::MAX,
{
    if a < 0 {
        (-(a + 1)) as u128 + 1
    } else {
        a as u128
    }
}

/// The quotient rounded toward zero.
pub fn quotient(a: i128, b: i128) -> (r: i128)
    requires
        b != 0,
        a > i128::MIN || b > 1,
    ensures
        r == quot(a as int, b as int),
{
    let m = magnitude(a);
    let n = magnitude(b);
    let q: u128 = m / n;
    assert(0 <= q <= m && (n >= 2 ==> 2 * q <= m)) by (nonlinear_arith)
        requires
            q == m / n,
            n > 0,
            m >= 0,
    ;
    let s: i128 = q as i128;
    if (a < 0) == (b < 0) {
        s
    } else {
        -s
    }
}

/// The greatest magnitude of a real.
pub const WIDEST: u128 = 0x8000_0000_0000_0000_0000_0000_0000_0000;

/// The sum of two numbers that are given by their quotients and remainders,
/// unless its quotient is wider than a real.
fn added(q: u128, m: u128, p: u128, n: u128, c: u128) -> (r: Option<(u128, u128)>)
    requires
        m < c,
        n < c,
        c <= WIDEST,
        q <= WIDEST,
    ensures
        match r {
            Some((s, t)) => s * c + t == q * c + m + p * c + n && t < c && s <= WIDEST,
            None => q * c + m + p * c + n >= (WIDEST + 1) * c,
        },
{
    assert((q + p) * c == q * c + p * c) by (nonlinear_arith);
    if p > WIDEST - q {
        assert((q + p) * c >= (WIDEST + 1) * c) by (nonlinear_arith)
            requires
                q + p >= WIDEST + 1,
                c >= 0,
        ;
        return None;
    }
    let s: u128 = q + p;
    if m >= c - n {
        assert((s + 1) * c == s * c + c) by (nonlinear_arith);
        if s == WIDEST {
            None
        } else {
            Some((s + 1, (m - (c - n)) as u128))
        }
    } else {
        Some((s, m + n))
    }
}

/// The quotient and the remainder of a product, unless the quotient is wider
/// than a real.
fn divided(a: u128, b: u128, c: u128) -> (r: Option<(u128, u128)>)
    requires
        0 < c <= WIDEST,
    ensures
        match r {
            Some((q, m)) => a * b == q * c + m && m < c && q <= WIDEST,
            None => a * b >= (WIDEST + 1) * c,
        },
    decreases b,
{
    if b == 0 {
        assert(a * b == 0 * c + 0) by (nonlinear_arith)
            requires
                b == 0,
        ;
        return Some((0, 0));
    }
    let h: u128 = b / 2;
    assert(a * (2 * h) == 2 * (a * h) && a * b >= a * (2 * h) && a * b >= a * h && a * (2 * h + 1)
        == a * (2 * h) + a) by (nonlinear_arith)
        requires
            b >= 2 * h,
            h >= 0,
            a >= 0,
    ;
    match divided(a, h, c) {
        None => None,
        Some((q, m)) => match added(q, m, q, m, c) {
            None => None,
            Some((s, t)) => if b % 2 == 0 {
                Some((s, t))
            } else {
                let p: u128 = a / c;
                let n: u128 = a % c;
                proof {
                    vstd::arithmetic::div_mod::lemma_fundamental_div_mod(a as int, c as int);
                    assert(c * p == p * c) by (nonlinear_arith);
                    assert(0 <= a % c < c) by (nonlinear_arith)
                        requires
                            c > 0,
                    ;
                }
                added(s, t, p, n, c)
            },
        },
    }
}

proof fn lemma_signs(a: int, b: int)
    ensures
        a * b < 0 <==> (a < 0 && b > 0) || (a > 0 && b < 0),
        (if a * b < 0 { -(a * b) } else { a * b }) == (if a < 0 { -a } else { a }) * (if b < 0 {
            -b
        } else {
            b
        }),
{
    assert(a * b < 0 <==> (a < 0 && b > 0) || (a > 0 && b < 0)) by (nonlinear_arith);
    assert((-a) * b == -(a * b) && a * (-b) == -(a * b) && (-a) * (-b) == a * b)
        by (nonlinear_arith);
}

/// A product divided by a number, rounded toward zero.
pub fn scaled(a: i128, b: i128, c: i128) -> (r: i128)
    requires
        c != 0,
    ensures
        r == clamped(quot(a * b, c as int)),
{
    let x = magnitude(a);
    let y = magnitude(b);
    let z = magnitude(c);
    let none = a == 0 || b == 0;
    let down = !none && ((a < 0) != (b < 0));
    proof {
        lemma_signs(a as int, b as int);
        if none {
            assert(a * b == 0) by (nonlinear_arith)
                requires
                    a == 0 || b == 0,
            ;
        }
        assert((a * b < 0) == down);
    }
    match divided(x, y, z) {
        Some((q, m)) => {
            proof {
                vstd::arithmetic::div_mod::lemma_fundamental_div_mod_converse(
                    x * y,
                    z as int,
                    q as int,
                    m as int,
                );
            }
            if down == (c < 0) {
                if q == WIDEST {
                    i128::MAX
                } else {
                    q as i128
                }
            } else if q == WIDEST {
                i128::MIN
            } else {
                -(q as i128)
            }
        },
        None => {
            assert((x * y) / (z as int) >= WIDEST + 1) by (nonlinear_arith)
                requires
                    x * y >= (WIDEST + 1) * z,
                    z > 0,
            ;
            if down == (c < 0) {
                i128::MAX
            } else {
                i128::MIN
            }
        },
    }
}

} // verus!
