//! Parsing expressions, types and columns.
//!
//! Every parser takes the tokens, the parameters of the script and the place
//! where it begins, and gives what it read together with the place behind it.
//! `fuel` bounds how deep parsers may call each other.
use vstd::prelude::*;

use crate::error::{DbError, ErrKind, Fault, err, err_on, fault, fault_on, outcome, outcome_opt};
use crate::expr::{Expr, ExprV, Op, call, call1, call2};
use crate::lex::{Sym, Tok, TokV};
use crate::list::{Dup, List, opt_of};
use crate::query::{Field, FieldV};
use crate::schema::{ColType, Column, ColumnV};
use crate::stmt::{Param, ParamV};
use crate::value::{DataValue, Value};

verus! {

/// What a parser read, and the place behind it.
pub struct At<T> {
    pub v: T,
    pub i: usize,
}

impl<T: View> View for At<T> {
    type V = (T::V, int);
    open spec fn view(&self) -> (T::V, int) {
        (self.v@, self.i as int)
    }
}

/// A list with one more element.
pub fn pushed<T: View>(l: List<T>, x: T) -> (r: List<T>)
    ensures
        r@ == l@.push(x@),
{
    let mut out = l;
    out.push(x);
    out
}

/// Whether a mark stands at a place.
pub open spec fn is_mark(t: Seq<TokV>, i: int, s: Sym) -> bool {
    0 <= i < t.len() && t[i] == TokV::Mark(s)
}

/// Whether a mark stands at a place.
pub fn at_mark(t: &List<Tok>, i: usize, s: Sym) -> (r: bool)
    ensures
        r == is_mark(t@, i as int, s),
        r ==> i < t@.len() <= usize::MAX,
{
    if i < t.len() {
        match t.get(i) {
            Tok::Mark(x) => *x == s,
            _ => false,
        }
    } else {
        false
    }
}

/// The word at a place.
pub open spec fn word_at(t: Seq<TokV>, i: int) -> Option<Seq<char>> {
    if 0 <= i < t.len() {
        match t[i] {
            TokV::Word(w) => Some(w),
            _ => None,
        }
    } else {
        None
    }
}

/// The word at a place.
pub fn get_word(t: &List<Tok>, i: usize) -> (r: Option<String>)
    ensures
        opt_of(r) == word_at(t@, i as int),
        r is Some ==> i < t@.len() <= usize::MAX,
{
    if i < t.len() {
        match t.get(i) {
            Tok::Word(w) => Some(w.clone()),
            _ => None,
        }
    } else {
        None
    }
}

/// Whether a certain word stands at a place.
pub open spec fn is_word(t: Seq<TokV>, i: int, w: Seq<char>) -> bool {
    word_at(t, i) == Some(w)
}

/// Whether a certain word stands at a place.
pub fn at_word(t: &List<Tok>, i: usize, w: &str) -> (r: bool)
    ensures
        r == is_word(t@, i as int, w@),
        r ==> i < t@.len() <= usize::MAX,
{
    match get_word(t, i) {
        Some(x) => x == w.to_owned(),
        None => false,
    }
}

/// Whether the number that stands for the least integer, but for its sign, is at
/// a place.
pub open spec fn is_edge(t: Seq<TokV>, i: int) -> bool {
    0 <= i < t.len() && t[i] is Edge
}

fn at_edge(t: &List<Tok>, i: usize) -> (r: bool)
    ensures
        r == is_edge(t@, i as int),
        r ==> i < t@.len() <= usize::MAX,
{
    i < t.len() && matches!(t.get(i), Tok::Edge)
}

/// The integer at a place.
pub open spec fn int_at(t: Seq<TokV>, i: int) -> Option<i64> {
    if 0 <= i < t.len() {
        match t[i] {
            TokV::Int(n) => Some(n),
            _ => None,
        }
    } else {
        None
    }
}

/// The integer at a place.
pub fn get_int(t: &List<Tok>, i: usize) -> (r: Option<i64>)
    ensures
        r == int_at(t@, i as int),
        r is Some ==> i < t@.len() <= usize::MAX,
{
    if i < t.len() {
        match t.get(i) {
            Tok::Int(n) => Some(*n),
            _ => None,
        }
    } else {
        None
    }
}

/// The place of a parameter from place `k` on, and the length where there is
/// none of the name.
pub open spec fn param_from(ps: Seq<ParamV>, name: Seq<char>, k: int) -> int
    decreases ps.len() - k,
{
    if k < 0 || k >= ps.len() {
        ps.len() as int
    } else if ps[k].name == name {
        k
    } else {
        param_from(ps, name, k + 1)
    }
}

fn find_param(ps: &List<Param>, name: &String) -> (r: usize)
    ensures
        r == param_from(ps@, name@, 0),
        r <= ps@.len(),
{
    let mut k: usize = 0;
    while k < ps.len()
        invariant
            k <= ps@.len(),
            param_from(ps@, name@, 0) == param_from(ps@, name@, k as int),
        decreases ps@.len() - k,
    {
        if ps.get(k).name == *name {
            return k;
        }
        k = k + 1;
    }
    k
}

/// The value that a single token stands for.
pub open spec fn literal_at(t: Seq<TokV>, ps: Seq<ParamV>, i: int) -> Result<Option<Value>, Fault> {
    if 0 <= i < t.len() {
        match t[i] {
            TokV::Int(n) => Ok(Some(Value::Int(n))),
            TokV::Real(n) => Ok(Some(Value::Real(n))),
            TokV::Text(s) => Ok(Some(Value::Str(s))),
            TokV::Param(n) => if param_from(ps, n, 0) < ps.len() {
                Ok(Some(ps[param_from(ps, n, 0)].value))
            } else {
                Err(fault_on(ErrKind::MissingParam, n))
            },
            TokV::Word(w) => if w == "true"@ {
                Ok(Some(Value::Bool(true)))
            } else if w == "false"@ {
                Ok(Some(Value::Bool(false)))
            } else if w == "null"@ {
                Ok(Some(Value::Null))
            } else {
                Ok(None)
            },
            TokV::Mark(_) => Ok(None),
            TokV::Edge => Ok(None),
        }
    } else {
        Ok(None)
    }
}

/// The value that a single token stands for.
pub fn get_literal(t: &List<Tok>, ps: &List<Param>, i: usize) -> (r: Result<
    Option<DataValue>,
    DbError,
    >)
    ensures
        outcome_opt(r) == literal_at(t@, ps@, i as int),
        r matches Ok(Some(_)) ==> i < t@.len() <= usize::MAX,
{
    if i < t.len() {
        match t.get(i) {
            Tok::Int(n) => Ok(Some(DataValue::Int(*n))),
            Tok::Real(n) => Ok(Some(DataValue::Real(*n))),
            Tok::Text(s) => Ok(Some(DataValue::Str(s.clone()))),
            Tok::Param(n) => {
                let k = find_param(ps, n);
                if k < ps.len() {
                    Ok(Some(ps.get(k).value.dup()))
                } else {
                    Err(err_on(ErrKind::MissingParam, n.as_str()))
                }
            },
            Tok::Word(w) => {
                if *w == "true".to_owned() {
                    Ok(Some(DataValue::Bool(true)))
                } else if *w == "false".to_owned() {
                    Ok(Some(DataValue::Bool(false)))
                } else if *w == "null".to_owned() {
                    Ok(Some(DataValue::Null))
                } else {
                    Ok(None)
                }
            },
            Tok::Mark(_) => Ok(None),
            Tok::Edge => Ok(None),
        }
    } else {
        Ok(None)
    }
}

/// The operator that a mark is on a level of precedence, the loosest first.
pub open spec fn operator_of(level: u64, s: Sym) -> Option<Op> {
    if level == 0 && s == Sym::Either {
        Some(Op::Or)
    } else if level == 1 && s == Sym::Both {
        Some(Op::And)
    } else if level == 2 && s == Sym::Same {
        Some(Op::Eq)
    } else if level == 2 && s == Sym::Differs {
        Some(Op::Ne)
    } else if level == 2 && s == Sym::Less {
        Some(Op::Lt)
    } else if level == 2 && s == Sym::AtMost {
        Some(Op::Le)
    } else if level == 2 && s == Sym::More {
        Some(Op::Gt)
    } else if level == 2 && s == Sym::AtLeast {
        Some(Op::Ge)
    } else if level == 3 && s == Sym::Plus {
        Some(Op::Add)
    } else if level == 3 && s == Sym::Minus {
        Some(Op::Sub)
    } else if level == 4 && s == Sym::Star {
        Some(Op::Mul)
    } else if level == 4 && s == Sym::Slash {
        Some(Op::Div)
    } else if level == 4 && s == Sym::Percent {
        Some(Op::Mod)
    } else {
        None
    }
}

/// The operator at a place on a level of precedence.
pub open spec fn operator_at(t: Seq<TokV>, i: int, level: u64) -> Option<Op> {
    if 0 <= i < t.len() {
        match t[i] {
            TokV::Mark(s) => operator_of(level, s),
            _ => None,
        }
    } else {
        None
    }
}

fn operator(level: u64, s: Sym) -> (r: Option<Op>)
    ensures
        r == operator_of(level, s),
{
    if level == 0 && s == Sym::Either {
        Some(Op::Or)
    } else if level == 1 && s == Sym::Both {
        Some(Op::And)
    } else if level == 2 && s == Sym::Same {
        Some(Op::Eq)
    } else if level == 2 && s == Sym::Differs {
        Some(Op::Ne)
    } else if level == 2 && s == Sym::Less {
        Some(Op::Lt)
    } else if level == 2 && s == Sym::AtMost {
        Some(Op::Le)
    } else if level == 2 && s == Sym::More {
        Some(Op::Gt)
    } else if level == 2 && s == Sym::AtLeast {
        Some(Op::Ge)
    } else if level == 3 && s == Sym::Plus {
        Some(Op::Add)
    } else if level == 3 && s == Sym::Minus {
        Some(Op::Sub)
    } else if level == 4 && s == Sym::Star {
        Some(Op::Mul)
    } else if level == 4 && s == Sym::Slash {
        Some(Op::Div)
    } else if level == 4 && s == Sym::Percent {
        Some(Op::Mod)
    } else {
        None
    }
}

fn get_operator(t: &List<Tok>, i: usize, level: u64) -> (r: Option<Op>)
    ensures
        r == operator_at(t@, i as int, level),
        r is Some ==> i < t@.len() <= usize::MAX,
{
    if i < t.len() {
        match t.get(i) {
            Tok::Mark(s) => operator(level, *s),
            _ => None,
        }
    } else {
        None
    }
}

/// The function that a name stands for.
pub open spec fn function_of(n: Seq<char>) -> Option<Op> {
    if n == "max"@ {
        Some(Op::Max)
    } else if n == "min"@ {
        Some(Op::Min)
    } else if n == "concat"@ {
        Some(Op::Concat)
    } else if n == "first"@ {
        Some(Op::First)
    } else if n == "last"@ {
        Some(Op::Last)
    } else if n == "length"@ {
        Some(Op::Length)
    } else if n == "int_range"@ {
        Some(Op::IntRange)
    } else if n == "now"@ {
        Some(Op::Now)
    } else if n == "rand_uuid_v1"@ {
        Some(Op::RandUuid)
    } else if n == "is_null"@ {
        Some(Op::IsNull)
    } else if n == "to_int"@ {
        Some(Op::ToInt)
    } else if n == "floor"@ {
        Some(Op::Floor)
    } else if n == "rand_vec"@ {
        Some(Op::RandVec)
    } else if n == "l2_dist"@ {
        Some(Op::SquaredDist)
    } else if n == "cos_dist"@ {
        Some(Op::CosineDist)
    } else if n == "ip_dist"@ {
        Some(Op::InnerDist)
    } else if n == "l2_normalize"@ {
        Some(Op::Normalize)
    } else if n == "Stemmer"@ {
        Some(Op::Stemmer)
    } else if n == "Stopwords"@ {
        Some(Op::Stopwords)
    } else if n == "vec"@ {
        Some(Op::Vector)
    } else {
        None
    }
}

fn function(n: &String) -> (r: Option<Op>)
    ensures
        r == function_of(n@),
{
    if *n == "max".to_owned() {
        Some(Op::Max)
    } else if *n == "min".to_owned() {
        Some(Op::Min)
    } else if *n == "concat".to_owned() {
        Some(Op::Concat)
    } else if *n == "first".to_owned() {
        Some(Op::First)
    } else if *n == "last".to_owned() {
        Some(Op::Last)
    } else if *n == "length".to_owned() {
        Some(Op::Length)
    } else if *n == "int_range".to_owned() {
        Some(Op::IntRange)
    } else if *n == "now".to_owned() {
        Some(Op::Now)
    } else if *n == "rand_uuid_v1".to_owned() {
        Some(Op::RandUuid)
    } else if *n == "is_null".to_owned() {
        Some(Op::IsNull)
    } else if *n == "to_int".to_owned() {
        Some(Op::ToInt)
    } else if *n == "floor".to_owned() {
        Some(Op::Floor)
    } else if *n == "rand_vec".to_owned() {
        Some(Op::RandVec)
    } else if *n == "l2_dist".to_owned() {
        Some(Op::SquaredDist)
    } else if *n == "cos_dist".to_owned() {
        Some(Op::CosineDist)
    } else if *n == "ip_dist".to_owned() {
        Some(Op::InnerDist)
    } else if *n == "l2_normalize".to_owned() {
        Some(Op::Normalize)
    } else if *n == "Stemmer".to_owned() {
        Some(Op::Stemmer)
    } else if *n == "Stopwords".to_owned() {
        Some(Op::Stopwords)
    } else if *n == "vec".to_owned() {
        Some(Op::Vector)
    } else {
        None
    }
}

/// An expression.
#[verifier::opaque]
pub open spec fn p_expr(
    t: Seq<TokV>,
    ps: Seq<ParamV>,
    i: int,
    fuel: nat,
) -> Result<(ExprV, int), Fault>
    decreases fuel,
{
    if fuel == 0 {
        Err(fault(ErrKind::Parse))
    } else {
        p_level(t, ps, i, 0, (fuel - 1) as nat)
    }
}

pub fn parse_expr(
    t: &List<Tok>,
    ps: &List<Param>,
    i: usize,
    fuel: usize,
) -> (r: Result<At<Expr>, DbError>)
    requires
        i <= t@.len(),
    ensures
        outcome(r) == p_expr(t@, ps@, i as int, fuel as nat),
        r matches Ok(a) ==> a.i <= t@.len(),
    decreases fuel,
{
    reveal(p_expr);
    reveal(p_level);
    reveal(p_rest);
    reveal(p_unary);
    reveal(p_operand);
    reveal(p_exprs);
    reveal(p_pairs);
    if fuel == 0 {
        Err(err(ErrKind::Parse))
    } else {
        parse_level(t, ps, i, 0, fuel - 1)
    }
}

/// An expression of operators that bind at least as tight as a level.
#[verifier::opaque]
pub open spec fn p_level(
    t: Seq<TokV>,
    ps: Seq<ParamV>,
    i: int,
    level: u64,
    fuel: nat,
) -> Result<(ExprV, int), Fault>
    decreases fuel,
{
    if fuel == 0 {
        Err(fault(ErrKind::Parse))
    } else {
        if level >= 5 {
            p_unary(t, ps, i, (fuel - 1) as nat)
        } else {
            match p_level(t, ps, i, (level + 1) as u64, (fuel - 1) as nat) {
                Err(f) => Err(f),
                Ok((left, j)) => {
                    p_rest(t, ps, j, left, level, (fuel - 1) as nat)
                }
            }
        }
    }
}

fn parse_level(
    t: &List<Tok>,
    ps: &List<Param>,
    i: usize,
    level: u64,
    fuel: usize,
) -> (r: Result<At<Expr>, DbError>)
    requires
        i <= t@.len(),
    ensures
        outcome(r) == p_level(t@, ps@, i as int, level, fuel as nat),
        r matches Ok(a) ==> a.i <= t@.len(),
    decreases fuel,
{
    reveal(p_expr);
    reveal(p_level);
    reveal(p_rest);
    reveal(p_unary);
    reveal(p_operand);
    reveal(p_exprs);
    reveal(p_pairs);
    if fuel == 0 {
        Err(err(ErrKind::Parse))
    } else {
        if level >= 5 {
            parse_unary(t, ps, i, fuel - 1)
        } else {
            match parse_level(t, ps, i, level + 1, fuel - 1) {
                Err(e) => Err(e),
                Ok(At { v: left, i: j }) => {
                    parse_rest(t, ps, j, left, level, fuel - 1)
                }
            }
        }
    }
}

/// What follows an operand on a level of precedence.
#[verifier::opaque]
pub open spec fn p_rest(
    t: Seq<TokV>,
    ps: Seq<ParamV>,
    i: int,
    left: ExprV,
    level: u64,
    fuel: nat,
) -> Result<(ExprV, int), Fault>
    decreases fuel,
{
    if fuel == 0 {
        Err(fault(ErrKind::Parse))
    } else {
        if level >= 5 {
            Ok((left, i))
        } else {
            match operator_at(t, i, level) {
                None => Ok((left, i)),
                Some(op) => match p_level(t, ps, i + 1, (level + 1) as u64, (fuel - 1) as nat) {
                    Err(f) => Err(f),
                    Ok((right, j)) => {
                        p_rest(
                            t,
                            ps,
                            j,
                            ExprV::Call(op, seq![left, right]),
                            level,
                            (fuel - 1) as nat,
                        )
                    }
                }
            }
        }
    }
}

fn parse_rest(
    t: &List<Tok>,
    ps: &List<Param>,
    i: usize,
    left: Expr,
    level: u64,
    fuel: usize,
) -> (r: Result<At<Expr>, DbError>)
    requires
        i <= t@.len(),
    ensures
        outcome(r) == p_rest(t@, ps@, i as int, left@, level, fuel as nat),
        r matches Ok(a) ==> a.i <= t@.len(),
    decreases fuel,
{
    reveal(p_expr);
    reveal(p_level);
    reveal(p_rest);
    reveal(p_unary);
    reveal(p_operand);
    reveal(p_exprs);
    reveal(p_pairs);
    if fuel == 0 {
        Err(err(ErrKind::Parse))
    } else {
        if level >= 5 {
            Ok(At { v: left, i })
        } else {
            match get_operator(t, i, level) {
                None => Ok(At { v: left, i }),
                Some(op) => match parse_level(t, ps, i + 1, level + 1, fuel - 1) {
                    Err(e) => Err(e),
                    Ok(At { v: right, i: j }) => {
                        parse_rest(t, ps, j, call2(op, left, right), level, fuel - 1)
                    }
                }
            }
        }
    }
}

/// An operand, perhaps negated.
#[verifier::opaque]
pub open spec fn p_unary(
    t: Seq<TokV>,
    ps: Seq<ParamV>,
    i: int,
    fuel: nat,
) -> Result<(ExprV, int), Fault>
    decreases fuel,
{
    if fuel == 0 {
        Err(fault(ErrKind::Parse))
    } else {
        if is_mark(t, i, Sym::Minus) && is_edge(t, i + 1) {
            Ok((ExprV::Const(Value::Int(i64::MIN)), i + 2))
        } else if is_mark(t, i, Sym::Minus) {
            match p_unary(t, ps, i + 1, (fuel - 1) as nat) {
                Err(f) => Err(f),
                Ok((e, j)) => {
                    Ok((ExprV::Call(Op::Neg, seq![e]), j))
                }
            }
        } else if is_mark(t, i, Sym::Bang) {
            match p_unary(t, ps, i + 1, (fuel - 1) as nat) {
                Err(f) => Err(f),
                Ok((e, j)) => {
                    Ok((ExprV::Call(Op::Not, seq![e]), j))
                }
            }
        } else {
            p_operand(t, ps, i, (fuel - 1) as nat)
        }
    }
}

fn parse_unary(
    t: &List<Tok>,
    ps: &List<Param>,
    i: usize,
    fuel: usize,
) -> (r: Result<At<Expr>, DbError>)
    requires
        i <= t@.len(),
    ensures
        outcome(r) == p_unary(t@, ps@, i as int, fuel as nat),
        r matches Ok(a) ==> a.i <= t@.len(),
    decreases fuel,
{
    reveal(p_expr);
    reveal(p_level);
    reveal(p_rest);
    reveal(p_unary);
    reveal(p_operand);
    reveal(p_exprs);
    reveal(p_pairs);
    if fuel == 0 {
        Err(err(ErrKind::Parse))
    } else {
        if at_mark(t, i, Sym::Minus) && at_edge(t, i + 1) {
            Ok(At { v: Expr::Const(DataValue::Int(i64::MIN)), i: i + 2 })
        } else if at_mark(t, i, Sym::Minus) {
            match parse_unary(t, ps, i + 1, fuel - 1) {
                Err(e) => Err(e),
                Ok(At { v: e, i: j }) => {
                    Ok(At { v: call1(Op::Neg, e), i: j })
                }
            }
        } else if at_mark(t, i, Sym::Bang) {
            match parse_unary(t, ps, i + 1, fuel - 1) {
                Err(e) => Err(e),
                Ok(At { v: e, i: j }) => {
                    Ok(At { v: call1(Op::Not, e), i: j })
                }
            }
        } else {
            parse_operand(t, ps, i, fuel - 1)
        }
    }
}

/// A value, a variable, a call, a list, an object, or an expression in
/// parentheses.
#[verifier::opaque]
pub open spec fn p_operand(
    t: Seq<TokV>,
    ps: Seq<ParamV>,
    i: int,
    fuel: nat,
) -> Result<(ExprV, int), Fault>
    decreases fuel,
{
    if fuel == 0 {
        Err(fault(ErrKind::Parse))
    } else {
        match literal_at(t, ps, i) {
            Err(f) => Err(f),
            Ok(Some(v)) => Ok((ExprV::Const(v), i + 1)),
            Ok(None) => match word_at(t, i) {
                Some(n) => if is_mark(t, i + 1, Sym::ParenL) {
                    match function_of(n) {
                        None => Err(fault_on(ErrKind::UnknownFunction, n)),
                        Some(op) => match p_exprs(
                            t,
                            ps,
                            i + 2,
                            Sym::ParenR,
                            Seq::empty(),
                            (fuel - 1) as nat,
                        ) {
                            Err(f) => Err(f),
                            Ok((args, j)) => {
                                Ok((ExprV::Call(op, args), j))
                            }
                        }
                    }
                } else {
                    Ok((ExprV::Var(n), i + 1))
                },
                None => if is_mark(t, i, Sym::BrackL) {
                    match p_exprs(t, ps, i + 1, Sym::BrackR, Seq::empty(), (fuel - 1) as nat) {
                        Err(f) => Err(f),
                        Ok((args, j)) => {
                            Ok((ExprV::Call(Op::MakeList, args), j))
                        }
                    }
                } else if is_mark(t, i, Sym::BraceL) {
                    match p_pairs(t, ps, i + 1, Seq::empty(), (fuel - 1) as nat) {
                        Err(f) => Err(f),
                        Ok((args, j)) => {
                            Ok((ExprV::Call(Op::MakeJson, args), j))
                        }
                    }
                } else if is_mark(t, i, Sym::ParenL) {
                    match p_expr(t, ps, i + 1, (fuel - 1) as nat) {
                        Err(f) => Err(f),
                        Ok((e, j)) => {
                            if is_mark(t, j, Sym::ParenR) {
                                Ok((e, j + 1))
                            } else {
                                Err(fault(ErrKind::Parse))
                            }
                        }
                    }
                } else {
                    Err(fault(ErrKind::Parse))
                },
            },
        }
    }
}

pub fn parse_operand(
    t: &List<Tok>,
    ps: &List<Param>,
    i: usize,
    fuel: usize,
) -> (r: Result<At<Expr>, DbError>)
    requires
        i <= t@.len(),
    ensures
        outcome(r) == p_operand(t@, ps@, i as int, fuel as nat),
        r matches Ok(a) ==> a.i <= t@.len(),
    decreases fuel,
{
    reveal(p_expr);
    reveal(p_level);
    reveal(p_rest);
    reveal(p_unary);
    reveal(p_operand);
    reveal(p_exprs);
    reveal(p_pairs);
    if fuel == 0 {
        Err(err(ErrKind::Parse))
    } else {
        match get_literal(t, ps, i) {
            Err(e) => Err(e),
            Ok(Some(v)) => Ok(At { v: Expr::Const(v), i: i + 1 }),
            Ok(None) => match get_word(t, i) {
                Some(n) => if at_mark(t, i + 1, Sym::ParenL) {
                    match function(&n) {
                        None => Err(err_on(ErrKind::UnknownFunction, n.as_str())),
                        Some(op) => match parse_exprs(
                            t,
                            ps,
                            i + 2,
                            Sym::ParenR,
                            List::new(),
                            fuel - 1,
                        ) {
                            Err(e) => Err(e),
                            Ok(At { v: args, i: j }) => {
                                Ok(At { v: call(op, args), i: j })
                            }
                        }
                    }
                } else {
                    Ok(At { v: Expr::Var(n), i: i + 1 })
                },
                None => if at_mark(t, i, Sym::BrackL) {
                    match parse_exprs(t, ps, i + 1, Sym::BrackR, List::new(), fuel - 1) {
                        Err(e) => Err(e),
                        Ok(At { v: args, i: j }) => {
                            Ok(At { v: call(Op::MakeList, args), i: j })
                        }
                    }
                } else if at_mark(t, i, Sym::BraceL) {
                    match parse_pairs(t, ps, i + 1, List::new(), fuel - 1) {
                        Err(e) => Err(e),
                        Ok(At { v: args, i: j }) => {
                            Ok(At { v: call(Op::MakeJson, args), i: j })
                        }
                    }
                } else if at_mark(t, i, Sym::ParenL) {
                    match parse_expr(t, ps, i + 1, fuel - 1) {
                        Err(e) => Err(e),
                        Ok(At { v: e, i: j }) => {
                            if at_mark(t, j, Sym::ParenR) {
                                Ok(At { v: e, i: j + 1 })
                            } else {
                                Err(err(ErrKind::Parse))
                            }
                        }
                    }
                } else {
                    Err(err(ErrKind::Parse))
                },
            },
        }
    }
}

/// Expressions up to a closing mark, after those in `acc`.
#[verifier::opaque]
pub open spec fn p_exprs(
    t: Seq<TokV>,
    ps: Seq<ParamV>,
    i: int,
    close: Sym,
    acc: Seq<ExprV>,
    fuel: nat,
) -> Result<(Seq<ExprV>, int), Fault>
    decreases fuel,
{
    if fuel == 0 {
        Err(fault(ErrKind::Parse))
    } else {
        if is_mark(t, i, close) {
            Ok((acc, i + 1))
        } else {
            match p_expr(t, ps, i, (fuel - 1) as nat) {
                Err(f) => Err(f),
                Ok((e, j)) => {
                    if is_mark(t, j, Sym::Comma) {
                        p_exprs(t, ps, j + 1, close, acc.push(e), (fuel - 1) as nat)
                    } else if is_mark(t, j, close) {
                        Ok((acc.push(e), j + 1))
                    } else {
                        Err(fault(ErrKind::Parse))
                    }
                }
            }
        }
    }
}

fn parse_exprs(
    t: &List<Tok>,
    ps: &List<Param>,
    i: usize,
    close: Sym,
    acc: List<Expr>,
    fuel: usize,
) -> (r: Result<At<List<Expr>>, DbError>)
    requires
        i <= t@.len(),
    ensures
        outcome(r) == p_exprs(t@, ps@, i as int, close, acc@, fuel as nat),
        r matches Ok(a) ==> a.i <= t@.len(),
    decreases fuel,
{
    reveal(p_expr);
    reveal(p_level);
    reveal(p_rest);
    reveal(p_unary);
    reveal(p_operand);
    reveal(p_exprs);
    reveal(p_pairs);
    if fuel == 0 {
        Err(err(ErrKind::Parse))
    } else {
        if at_mark(t, i, close) {
            Ok(At { v: acc, i: i + 1 })
        } else {
            match parse_expr(t, ps, i, fuel - 1) {
                Err(e) => Err(e),
                Ok(At { v: e, i: j }) => {
                    if at_mark(t, j, Sym::Comma) {
                        parse_exprs(t, ps, j + 1, close, pushed(acc, e), fuel - 1)
                    } else if at_mark(t, j, close) {
                        Ok(At { v: pushed(acc, e), i: j + 1 })
                    } else {
                        Err(err(ErrKind::Parse))
                    }
                }
            }
        }
    }
}

/// The names and values of an object up to its end, after those in `acc`.
#[verifier::opaque]
pub open spec fn p_pairs(
    t: Seq<TokV>,
    ps: Seq<ParamV>,
    i: int,
    acc: Seq<ExprV>,
    fuel: nat,
) -> Result<(Seq<ExprV>, int), Fault>
    decreases fuel,
{
    if fuel == 0 {
        Err(fault(ErrKind::Parse))
    } else {
        if is_mark(t, i, Sym::BraceR) {
            Ok((acc, i + 1))
        } else {
            match p_expr(t, ps, i, (fuel - 1) as nat) {
                Err(f) => Err(f),
                Ok((n, j)) => {
                    if is_mark(t, j, Sym::Colon) {
                        match p_expr(t, ps, j + 1, (fuel - 1) as nat) {
                            Err(f) => Err(f),
                            Ok((e, k)) => {
                                if is_mark(t, k, Sym::Comma) {
                                    p_pairs(t, ps, k + 1, acc.push(n).push(e), (fuel - 1) as nat)
                                } else if is_mark(t, k, Sym::BraceR) {
                                    Ok((acc.push(n).push(e), k + 1))
                                } else {
                                    Err(fault(ErrKind::Parse))
                                }
                            }
                        }
                    } else {
                        Err(fault(ErrKind::Parse))
                    }
                }
            }
        }
    }
}

fn parse_pairs(
    t: &List<Tok>,
    ps: &List<Param>,
    i: usize,
    acc: List<Expr>,
    fuel: usize,
) -> (r: Result<At<List<Expr>>, DbError>)
    requires
        i <= t@.len(),
    ensures
        outcome(r) == p_pairs(t@, ps@, i as int, acc@, fuel as nat),
        r matches Ok(a) ==> a.i <= t@.len(),
    decreases fuel,
{
    reveal(p_expr);
    reveal(p_level);
    reveal(p_rest);
    reveal(p_unary);
    reveal(p_operand);
    reveal(p_exprs);
    reveal(p_pairs);
    if fuel == 0 {
        Err(err(ErrKind::Parse))
    } else {
        if at_mark(t, i, Sym::BraceR) {
            Ok(At { v: acc, i: i + 1 })
        } else {
            match parse_expr(t, ps, i, fuel - 1) {
                Err(e) => Err(e),
                Ok(At { v: n, i: j }) => {
                    if at_mark(t, j, Sym::Colon) {
                        match parse_expr(t, ps, j + 1, fuel - 1) {
                            Err(e) => Err(e),
                            Ok(At { v: e, i: k }) => {
                                if at_mark(t, k, Sym::Comma) {
                                    parse_pairs(t, ps, k + 1, pushed(pushed(acc, n), e), fuel - 1)
                                } else if at_mark(t, k, Sym::BraceR) {
                                    Ok(At { v: pushed(pushed(acc, n), e), i: k + 1 })
                                } else {
                                    Err(err(ErrKind::Parse))
                                }
                            }
                        }
                    } else {
                        Err(err(ErrKind::Parse))
                    }
                }
            }
        }
    }
}

/// Names with terms, up to something that is neither, after those in `acc`. A
/// name alone stands for the variable of the name.
#[verifier::opaque]
pub open spec fn p_fields(
    t: Seq<TokV>,
    ps: Seq<ParamV>,
    i: int,
    acc: Seq<FieldV>,
    fuel: nat,
) -> Result<(Seq<FieldV>, int), Fault>
    decreases fuel,
{
    if fuel == 0 {
        Err(fault(ErrKind::Parse))
    } else {
        match word_at(t, i) {
            None => Ok((acc, i)),
            Some(n) => if is_mark(t, i + 1, Sym::Colon) {
                match p_expr(t, ps, i + 2, (fuel - 1) as nat) {
                    Err(f) => Err(f),
                    Ok((e, j)) => {
                        if is_mark(t, j, Sym::Comma) {
                            p_fields(
                                t,
                                ps,
                                j + 1,
                                acc.push(FieldV { name: n, term: e }),
                                (fuel - 1) as nat,
                            )
                        } else {
                            Ok((acc.push(FieldV { name: n, term: e }), j))
                        }
                    }
                }
            } else if is_mark(t, i + 1, Sym::Comma) {
                p_fields(
                    t,
                    ps,
                    i + 2,
                    acc.push(FieldV { name: n, term: ExprV::Var(n) }),
                    (fuel - 1) as nat,
                )
            } else {
                Ok((acc.push(FieldV { name: n, term: ExprV::Var(n) }), i + 1))
            },
        }
    }
}

pub fn parse_fields(
    t: &List<Tok>,
    ps: &List<Param>,
    i: usize,
    acc: List<Field>,
    fuel: usize,
) -> (r: Result<At<List<Field>>, DbError>)
    requires
        i <= t@.len(),
    ensures
        outcome(r) == p_fields(t@, ps@, i as int, acc@, fuel as nat),
        r matches Ok(a) ==> a.i <= t@.len(),
    decreases fuel,
{
    reveal(p_fields);
    if fuel == 0 {
        Err(err(ErrKind::Parse))
    } else {
        match get_word(t, i) {
            None => Ok(At { v: acc, i }),
            Some(n) => if at_mark(t, i + 1, Sym::Colon) {
                match parse_expr(t, ps, i + 2, fuel - 1) {
                    Err(e) => Err(e),
                    Ok(At { v: e, i: j }) => {
                        if at_mark(t, j, Sym::Comma) {
                            parse_fields(
                                t,
                                ps,
                                j + 1,
                                pushed(acc, Field { name: n, term: e }),
                                fuel - 1,
                            )
                        } else {
                            Ok(At { v: pushed(acc, Field { name: n, term: e }), i: j })
                        }
                    }
                }
            } else if at_mark(t, i + 1, Sym::Comma) {
                parse_fields(
                    t,
                    ps,
                    i + 2,
                    pushed(acc, Field { name: n.clone(), term: Expr::Var(n) }),
                    fuel - 1,
                )
            } else {
                Ok(At { v: pushed(acc, Field { name: n.clone(), term: Expr::Var(n) }), i: i + 1 })
            },
        }
    }
}

/// The type that a name stands for.
pub open spec fn type_of(n: Seq<char>) -> Option<ColType> {
    if n == "Any"@ {
        Some(ColType::Any)
    } else if n == "Bool"@ {
        Some(ColType::Bool)
    } else if n == "Int"@ {
        Some(ColType::Int)
    } else if n == "Float"@ {
        Some(ColType::Float)
    } else if n == "String"@ {
        Some(ColType::Str)
    } else if n == "Bytes"@ {
        Some(ColType::Bytes)
    } else if n == "Uuid"@ {
        Some(ColType::Uuid)
    } else if n == "Json"@ {
        Some(ColType::Json)
    } else if n == "Validity"@ {
        Some(ColType::Validity)
    } else if n == "TxTime"@ {
        Some(ColType::TxTime)
    } else {
        None
    }
}

fn type_by_name(n: &String) -> (r: Option<ColType>)
    ensures
        r == type_of(n@),
{
    if *n == "Any".to_owned() {
        Some(ColType::Any)
    } else if *n == "Bool".to_owned() {
        Some(ColType::Bool)
    } else if *n == "Int".to_owned() {
        Some(ColType::Int)
    } else if *n == "Float".to_owned() {
        Some(ColType::Float)
    } else if *n == "String".to_owned() {
        Some(ColType::Str)
    } else if *n == "Bytes".to_owned() {
        Some(ColType::Bytes)
    } else if *n == "Uuid".to_owned() {
        Some(ColType::Uuid)
    } else if *n == "Json".to_owned() {
        Some(ColType::Json)
    } else if *n == "Validity".to_owned() {
        Some(ColType::Validity)
    } else if *n == "TxTime".to_owned() {
        Some(ColType::TxTime)
    } else {
        None
    }
}

/// A type, perhaps nullable.
#[verifier::opaque]
pub open spec fn p_type(
    t: Seq<TokV>,
    ps: Seq<ParamV>,
    i: int,
    fuel: nat,
) -> Result<(ColType, int), Fault>
    decreases fuel,
{
    if fuel == 0 {
        Err(fault(ErrKind::Parse))
    } else {
        match p_base_type(t, ps, i, (fuel - 1) as nat) {
            Err(f) => Err(f),
            Ok((b, j)) => {
                if is_mark(t, j, Sym::Quest) {
                    Ok((ColType::Nullable(Box::new(b)), j + 1))
                } else {
                    Ok((b, j))
                }
            }
        }
    }
}

fn parse_type(
    t: &List<Tok>,
    ps: &List<Param>,
    i: usize,
    fuel: usize,
) -> (r: Result<At<ColType>, DbError>)
    requires
        i <= t@.len(),
    ensures
        outcome(r) == p_type(t@, ps@, i as int, fuel as nat),
        r matches Ok(a) ==> a.i <= t@.len(),
    decreases fuel,
{
    reveal(p_type);
    reveal(p_base_type);
    reveal(p_tuple_type);
    if fuel == 0 {
        Err(err(ErrKind::Parse))
    } else {
        match parse_base_type(t, ps, i, fuel - 1) {
            Err(e) => Err(e),
            Ok(At { v: b, i: j }) => {
                if at_mark(t, j, Sym::Quest) {
                    Ok(At { v: ColType::Nullable(Box::new(b)), i: j + 1 })
                } else {
                    Ok(At { v: b, i: j })
                }
            }
        }
    }
}

/// A type that is not marked nullable.
#[verifier::opaque]
pub open spec fn p_base_type(
    t: Seq<TokV>,
    ps: Seq<ParamV>,
    i: int,
    fuel: nat,
) -> Result<(ColType, int), Fault>
    decreases fuel,
{
    if fuel == 0 {
        Err(fault(ErrKind::Parse))
    } else {
        match word_at(t, i) {
            Some(n) => match type_of(n) {
                Some(b) => Ok((b, i + 1)),
                None => Err(fault_on(ErrKind::Parse, n)),
            },
            None => if is_mark(t, i, Sym::BrackL) {
                match p_type(t, ps, i + 1, (fuel - 1) as nat) {
                    Err(f) => Err(f),
                    Ok((b, j)) => {
                        if is_mark(t, j, Sym::BrackR) {
                            Ok((ColType::ListOf(Box::new(b)), j + 1))
                        } else {
                            Err(fault(ErrKind::Parse))
                        }
                    }
                }
            } else if is_mark(t, i, Sym::ParenL) {
                p_tuple_type(t, ps, i + 1, (fuel - 1) as nat)
            } else if is_mark(t, i, Sym::Less) && (
                is_word(t, i + 1, "F32"@) || is_word(t, i + 1, "F64"@)
            ) && is_mark(t, i + 2, Sym::Semi) {
                match int_at(t, i + 3) {
                    Some(n) => if is_mark(t, i + 4, Sym::More) && n >= 0 {
                        Ok((ColType::Vector(n as u64), i + 5))
                    } else {
                        Err(fault(ErrKind::Parse))
                    },
                    None => Err(fault(ErrKind::Parse)),
                }
            } else {
                Err(fault(ErrKind::Parse))
            },
        }
    }
}

fn parse_base_type(
    t: &List<Tok>,
    ps: &List<Param>,
    i: usize,
    fuel: usize,
) -> (r: Result<At<ColType>, DbError>)
    requires
        i <= t@.len(),
    ensures
        outcome(r) == p_base_type(t@, ps@, i as int, fuel as nat),
        r matches Ok(a) ==> a.i <= t@.len(),
    decreases fuel,
{
    reveal(p_type);
    reveal(p_base_type);
    reveal(p_tuple_type);
    if fuel == 0 {
        Err(err(ErrKind::Parse))
    } else {
        match get_word(t, i) {
            Some(n) => match type_by_name(&n) {
                Some(b) => Ok(At { v: b, i: i + 1 }),
                None => Err(err_on(ErrKind::Parse, n.as_str())),
            },
            None => if at_mark(t, i, Sym::BrackL) {
                match parse_type(t, ps, i + 1, fuel - 1) {
                    Err(e) => Err(e),
                    Ok(At { v: b, i: j }) => {
                        if at_mark(t, j, Sym::BrackR) {
                            Ok(At { v: ColType::ListOf(Box::new(b)), i: j + 1 })
                        } else {
                            Err(err(ErrKind::Parse))
                        }
                    }
                }
            } else if at_mark(t, i, Sym::ParenL) {
                parse_tuple_type(t, ps, i + 1, fuel - 1)
            } else if at_mark(t, i, Sym::Less) && (
                at_word(t, i + 1, "F32") || at_word(t, i + 1, "F64")
            ) && at_mark(t, i + 2, Sym::Semi) {
                match get_int(t, i + 3) {
                    Some(n) => if at_mark(t, i + 4, Sym::More) && n >= 0 {
                        Ok(At { v: ColType::Vector(n as u64), i: i + 5 })
                    } else {
                        Err(err(ErrKind::Parse))
                    },
                    None => Err(err(ErrKind::Parse)),
                }
            } else {
                Err(err(ErrKind::Parse))
            },
        }
    }
}

/// The types of a tuple up to its end.
#[verifier::opaque]
pub open spec fn p_tuple_type(
    t: Seq<TokV>,
    ps: Seq<ParamV>,
    i: int,
    fuel: nat,
) -> Result<(ColType, int), Fault>
    decreases fuel,
{
    if fuel == 0 {
        Err(fault(ErrKind::Parse))
    } else {
        if is_mark(t, i, Sym::ParenR) {
            Ok((ColType::TupleEnd, i + 1))
        } else {
            match p_type(t, ps, i, (fuel - 1) as nat) {
                Err(f) => Err(f),
                Ok((a, j)) => {
                    if is_mark(t, j, Sym::Comma) {
                        match p_tuple_type(t, ps, j + 1, (fuel - 1) as nat) {
                            Err(f) => Err(f),
                            Ok((b, k)) => {
                                Ok((ColType::TupleOf(Box::new(a), Box::new(b)), k))
                            }
                        }
                    } else if is_mark(t, j, Sym::ParenR) {
                        Ok((ColType::TupleOf(Box::new(a), Box::new(ColType::TupleEnd)), j + 1))
                    } else {
                        Err(fault(ErrKind::Parse))
                    }
                }
            }
        }
    }
}

fn parse_tuple_type(
    t: &List<Tok>,
    ps: &List<Param>,
    i: usize,
    fuel: usize,
) -> (r: Result<At<ColType>, DbError>)
    requires
        i <= t@.len(),
    ensures
        outcome(r) == p_tuple_type(t@, ps@, i as int, fuel as nat),
        r matches Ok(a) ==> a.i <= t@.len(),
    decreases fuel,
{
    reveal(p_type);
    reveal(p_base_type);
    reveal(p_tuple_type);
    if fuel == 0 {
        Err(err(ErrKind::Parse))
    } else {
        if at_mark(t, i, Sym::ParenR) {
            Ok(At { v: ColType::TupleEnd, i: i + 1 })
        } else {
            match parse_type(t, ps, i, fuel - 1) {
                Err(e) => Err(e),
                Ok(At { v: a, i: j }) => {
                    if at_mark(t, j, Sym::Comma) {
                        match parse_tuple_type(t, ps, j + 1, fuel - 1) {
                            Err(e) => Err(e),
                            Ok(At { v: b, i: k }) => {
                                Ok(At { v: ColType::TupleOf(Box::new(a), Box::new(b)), i: k })
                            }
                        }
                    } else if at_mark(t, j, Sym::ParenR) {
                        Ok(
                            At {
                                v: ColType::TupleOf(Box::new(a), Box::new(ColType::TupleEnd)),
                                i: j + 1,
                            },
                        )
                    } else {
                        Err(err(ErrKind::Parse))
                    }
                }
            }
        }
    }
}

/// The type of a column, where one is given.
#[verifier::opaque]
pub open spec fn p_column_type(
    t: Seq<TokV>,
    ps: Seq<ParamV>,
    i: int,
    fuel: nat,
) -> Result<(ColType, int), Fault>
    decreases fuel,
{
    if fuel == 0 {
        Err(fault(ErrKind::Parse))
    } else {
        if is_mark(t, i, Sym::Colon) {
            p_type(t, ps, i + 1, (fuel - 1) as nat)
        } else {
            Ok((ColType::Any, i))
        }
    }
}

fn parse_column_type(
    t: &List<Tok>,
    ps: &List<Param>,
    i: usize,
    fuel: usize,
) -> (r: Result<At<ColType>, DbError>)
    requires
        i <= t@.len(),
    ensures
        outcome(r) == p_column_type(t@, ps@, i as int, fuel as nat),
        r matches Ok(a) ==> a.i <= t@.len(),
    decreases fuel,
{
    reveal(p_column_type);
    if fuel == 0 {
        Err(err(ErrKind::Parse))
    } else {
        if at_mark(t, i, Sym::Colon) {
            parse_type(t, ps, i + 1, fuel - 1)
        } else {
            Ok(At { v: ColType::Any, i })
        }
    }
}

/// A column: a name, perhaps with a type and a default.
#[verifier::opaque]
pub open spec fn p_column(
    t: Seq<TokV>,
    ps: Seq<ParamV>,
    i: int,
    fuel: nat,
) -> Result<(ColumnV, int), Fault>
    decreases fuel,
{
    if fuel == 0 {
        Err(fault(ErrKind::Parse))
    } else {
        match word_at(t, i) {
            None => Err(fault(ErrKind::Parse)),
            Some(n) => match p_column_type(t, ps, i + 1, (fuel - 1) as nat) {
                Err(f) => Err(f),
                Ok((typ, j)) => {
                    if is_word(t, j, "default"@) {
                        match p_expr(t, ps, j + 1, (fuel - 1) as nat) {
                            Err(f) => Err(f),
                            Ok((e, k)) => {
                                Ok(((ColumnV { name: n, typ, default: Some(e) }), k))
                            }
                        }
                    } else {
                        Ok(((ColumnV { name: n, typ, default: None }), j))
                    }
                }
            }
        }
    }
}

fn parse_column(
    t: &List<Tok>,
    ps: &List<Param>,
    i: usize,
    fuel: usize,
) -> (r: Result<At<Column>, DbError>)
    requires
        i <= t@.len(),
    ensures
        outcome(r) == p_column(t@, ps@, i as int, fuel as nat),
        r matches Ok(a) ==> a.i <= t@.len(),
    decreases fuel,
{
    reveal(p_column);
    if fuel == 0 {
        Err(err(ErrKind::Parse))
    } else {
        match get_word(t, i) {
            None => Err(err(ErrKind::Parse)),
            Some(n) => match parse_column_type(t, ps, i + 1, fuel - 1) {
                Err(e) => Err(e),
                Ok(At { v: typ, i: j }) => {
                    if at_word(t, j, "default") {
                        match parse_expr(t, ps, j + 1, fuel - 1) {
                            Err(e) => Err(e),
                            Ok(At { v: e, i: k }) => {
                                Ok(At { v: Column { name: n, typ, default: Some(e) }, i: k })
                            }
                        }
                    } else {
                        Ok(At { v: Column { name: n, typ, default: None }, i: j })
                    }
                }
            }
        }
    }
}

/// The key columns and the value columns up to the closing brace, after those
/// in `keys` and `vals`; `late` once the values have begun.
#[verifier::opaque]
pub open spec fn p_columns(
    t: Seq<TokV>,
    ps: Seq<ParamV>,
    i: int,
    keys: Seq<ColumnV>,
    vals: Seq<ColumnV>,
    late: bool,
    fuel: nat,
) -> Result<((Seq<ColumnV>, Seq<ColumnV>), int), Fault>
    decreases fuel,
{
    if fuel == 0 {
        Err(fault(ErrKind::Parse))
    } else {
        if is_mark(t, i, Sym::BraceR) {
            Ok(((keys, vals), i + 1))
        } else if is_mark(t, i, Sym::Gives) && !late {
            p_columns(t, ps, i + 1, keys, vals, true, (fuel - 1) as nat)
        } else if is_mark(t, i, Sym::Comma) {
            p_columns(t, ps, i + 1, keys, vals, late, (fuel - 1) as nat)
        } else {
            match p_column(t, ps, i, (fuel - 1) as nat) {
                Err(f) => Err(f),
                Ok((c, j)) => {
                    if !(
                        is_mark(t, j, Sym::Comma) || is_mark(
                            t,
                            j,
                            Sym::BraceR,
                        ) || is_mark(t, j, Sym::Gives)
                    ) {
                        Err(fault(ErrKind::Parse))
                    } else if late {
                        p_columns(t, ps, j, keys, vals.push(c), late, (fuel - 1) as nat)
                    } else {
                        p_columns(t, ps, j, keys.push(c), vals, late, (fuel - 1) as nat)
                    }
                }
            }
        }
    }
}

pub fn parse_columns(
    t: &List<Tok>,
    ps: &List<Param>,
    i: usize,
    keys: List<Column>,
    vals: List<Column>,
    late: bool,
    fuel: usize,
) -> (r: Result<At<(List<Column>, List<Column>)>, DbError>)
    requires
        i <= t@.len(),
    ensures
        outcome(r) == p_columns(t@, ps@, i as int, keys@, vals@, late, fuel as nat),
        r matches Ok(a) ==> a.i <= t@.len(),
    decreases fuel,
{
    reveal(p_columns);
    if fuel == 0 {
        Err(err(ErrKind::Parse))
    } else {
        if at_mark(t, i, Sym::BraceR) {
            Ok(At { v: (keys, vals), i: i + 1 })
        } else if at_mark(t, i, Sym::Gives) && !late {
            parse_columns(t, ps, i + 1, keys, vals, true, fuel - 1)
        } else if at_mark(t, i, Sym::Comma) {
            parse_columns(t, ps, i + 1, keys, vals, late, fuel - 1)
        } else {
            match parse_column(t, ps, i, fuel - 1) {
                Err(e) => Err(e),
                Ok(At { v: c, i: j }) => {
                    if !(
                        at_mark(t, j, Sym::Comma) || at_mark(
                            t,
                            j,
                            Sym::BraceR,
                        ) || at_mark(t, j, Sym::Gives)
                    ) {
                        Err(err(ErrKind::Parse))
                    } else if late {
                        parse_columns(t, ps, j, keys, pushed(vals, c), late, fuel - 1)
                    } else {
                        parse_columns(t, ps, j, pushed(keys, c), vals, late, fuel - 1)
                    }
                }
            }
        }
    }
}

} // verus!
