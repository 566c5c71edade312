//! Parsing rules and queries.
use vstd::prelude::*;

use crate::error::{DbError, ErrKind, Fault, err, err_on, fault, fault_on, outcome};
use crate::expr::{Expr, ExprV};
use crate::lex::{Sym, Tok, TokV};
use crate::list::{Dup, List, opt_of};
use crate::parse::{
    At, at_mark, at_word, get_int, get_literal, get_word, int_at, is_mark, is_word, literal_at,
    p_columns, p_expr, p_fields, parse_columns, parse_expr, parse_fields, pushed, word_at,
};
use crate::query::{
    Aggr, AggrV, Atom, AtomV, Body, BodyV, Field, FieldV, Fields, FieldsV, HeadItem, HeadItemV,
    Program, ProgramV, Rule, RuleV, Selector, SelectorV, SortKey, SortKeyV, Write, WriteKind,
    WriteV,
};
use crate::stmt::{Param, ParamV};
use crate::value::{DataValue, Value};

verus! {

/// A name of two or more words, joined by a mark.
pub fn join_names(a: String, mark: &str, b: &String) -> (r: String)
    ensures
        r@ == a@ + mark@ + b@,
{
    a.concat(mark).concat(b.as_str())
}

/// The rest of the name of a relation: words joined by colons or dots.
#[verifier::opaque]
pub open spec fn p_name(
    t: Seq<TokV>,
    ps: Seq<ParamV>,
    i: int,
    acc: Seq<char>,
    fuel: nat,
) -> Result<(Seq<char>, int), Fault>
    decreases fuel,
{
    if fuel == 0 {
        Err(fault(ErrKind::Parse))
    } else {
        if is_mark(t, i, Sym::Colon) {
            match word_at(t, i + 1) {
                Some(n) => p_name(t, ps, i + 2, acc + ":"@ + n, (fuel - 1) as nat),
                None => Ok((acc, i)),
            }
        } else if is_mark(t, i, Sym::Dot) {
            match word_at(t, i + 1) {
                Some(n) => p_name(t, ps, i + 2, acc + "."@ + n, (fuel - 1) as nat),
                None => Ok((acc, i)),
            }
        } else {
            Ok((acc, i))
        }
    }
}

fn parse_name(
    t: &List<Tok>,
    ps: &List<Param>,
    i: usize,
    acc: String,
    fuel: usize,
) -> (r: Result<At<String>, DbError>)
    requires
        i <= t@.len(),
    ensures
        outcome(r) == p_name(t@, ps@, i as int, acc@, fuel as nat),
        r matches Ok(a) ==> a.i <= t@.len(),
    decreases fuel,
{
    reveal(p_name);
    if fuel == 0 {
        Err(err(ErrKind::Parse))
    } else {
        if at_mark(t, i, Sym::Colon) {
            match get_word(t, i + 1) {
                Some(n) => parse_name(t, ps, i + 2, join_names(acc, ":", &n), fuel - 1),
                None => Ok(At { v: acc, i }),
            }
        } else if at_mark(t, i, Sym::Dot) {
            match get_word(t, i + 1) {
                Some(n) => parse_name(t, ps, i + 2, join_names(acc, ".", &n), fuel - 1),
                None => Ok(At { v: acc, i }),
            }
        } else {
            Ok(At { v: acc, i })
        }
    }
}

/// The name of a relation or index.
#[verifier::opaque]
pub open spec fn p_rel_name(
    t: Seq<TokV>,
    ps: Seq<ParamV>,
    i: int,
    fuel: nat,
) -> Result<(Seq<char>, int), Fault>
    decreases fuel,
{
    if fuel == 0 {
        Err(fault(ErrKind::Parse))
    } else {
        match word_at(t, i) {
            Some(n) => p_name(t, ps, i + 1, n, (fuel - 1) as nat),
            None => Err(fault(ErrKind::Parse)),
        }
    }
}

pub fn parse_rel_name(
    t: &List<Tok>,
    ps: &List<Param>,
    i: usize,
    fuel: usize,
) -> (r: Result<At<String>, DbError>)
    requires
        i <= t@.len(),
    ensures
        outcome(r) == p_rel_name(t@, ps@, i as int, fuel as nat),
        r matches Ok(a) ==> a.i <= t@.len(),
    decreases fuel,
{
    reveal(p_rel_name);
    if fuel == 0 {
        Err(err(ErrKind::Parse))
    } else {
        match get_word(t, i) {
            Some(n) => parse_name(t, ps, i + 1, n, fuel - 1),
            None => Err(err(ErrKind::Parse)),
        }
    }
}

/// The arguments of an aggregation up to the closing parenthesis.
#[verifier::opaque]
pub open spec fn p_aggr_args(
    t: Seq<TokV>,
    ps: Seq<ParamV>,
    i: int,
    acc: Seq<Value>,
    fuel: nat,
) -> Result<(Seq<Value>, int), Fault>
    decreases fuel,
{
    if fuel == 0 {
        Err(fault(ErrKind::Parse))
    } else {
        if is_mark(t, i, Sym::ParenR) {
            Ok((acc, i + 1))
        } else if is_mark(t, i, Sym::Comma) {
            match literal_at(t, ps, i + 1) {
                Err(f) => Err(f),
                Ok(Some(v)) => p_aggr_args(t, ps, i + 2, acc.push(v), (fuel - 1) as nat),
                Ok(None) => Err(fault(ErrKind::Parse)),
            }
        } else {
            Err(fault(ErrKind::Parse))
        }
    }
}

fn parse_aggr_args(
    t: &List<Tok>,
    ps: &List<Param>,
    i: usize,
    acc: List<DataValue>,
    fuel: usize,
) -> (r: Result<At<List<DataValue>>, DbError>)
    requires
        i <= t@.len(),
    ensures
        outcome(r) == p_aggr_args(t@, ps@, i as int, acc@, fuel as nat),
        r matches Ok(a) ==> a.i <= t@.len(),
    decreases fuel,
{
    reveal(p_aggr_args);
    if fuel == 0 {
        Err(err(ErrKind::Parse))
    } else {
        if at_mark(t, i, Sym::ParenR) {
            Ok(At { v: acc, i: i + 1 })
        } else if at_mark(t, i, Sym::Comma) {
            match get_literal(t, ps, i + 1) {
                Err(e) => Err(e),
                Ok(Some(v)) => parse_aggr_args(t, ps, i + 2, pushed(acc, v), fuel - 1),
                Ok(None) => Err(err(ErrKind::Parse)),
            }
        } else {
            Err(err(ErrKind::Parse))
        }
    }
}

/// The columns of a head up to the closing bracket.
#[verifier::opaque]
pub open spec fn p_head(
    t: Seq<TokV>,
    ps: Seq<ParamV>,
    i: int,
    acc: Seq<HeadItemV>,
    fuel: nat,
) -> Result<(Seq<HeadItemV>, int), Fault>
    decreases fuel,
{
    if fuel == 0 {
        Err(fault(ErrKind::Parse))
    } else {
        if is_mark(t, i, Sym::BrackR) {
            Ok((acc, i + 1))
        } else if is_mark(t, i, Sym::Comma) {
            p_head(t, ps, i + 1, acc, (fuel - 1) as nat)
        } else {
            match word_at(t, i) {
                None => Err(fault(ErrKind::Parse)),
                Some(n) => if is_mark(t, i + 1, Sym::ParenL) {
                    match word_at(t, i + 2) {
                        None => Err(fault(ErrKind::Parse)),
                        Some(v) => match p_aggr_args(
                            t,
                            ps,
                            i + 3,
                            Seq::empty(),
                            (fuel - 1) as nat,
                        ) {
                            Err(f) => Err(f),
                            Ok((args, j)) => {
                                p_head(
                                    t,
                                    ps,
                                    j,
                                    acc.push(
                                        (HeadItemV { var: v, aggr: Some(AggrV { name: n, args }) }),
                                    ),
                                    (fuel - 1) as nat,
                                )
                            }
                        }
                    }
                } else {
                    p_head(
                        t,
                        ps,
                        i + 1,
                        acc.push((HeadItemV { var: n, aggr: None })),
                        (fuel - 1) as nat,
                    )
                },
            }
        }
    }
}

fn parse_head(
    t: &List<Tok>,
    ps: &List<Param>,
    i: usize,
    acc: List<HeadItem>,
    fuel: usize,
) -> (r: Result<At<List<HeadItem>>, DbError>)
    requires
        i <= t@.len(),
    ensures
        outcome(r) == p_head(t@, ps@, i as int, acc@, fuel as nat),
        r matches Ok(a) ==> a.i <= t@.len(),
    decreases fuel,
{
    reveal(p_head);
    if fuel == 0 {
        Err(err(ErrKind::Parse))
    } else {
        if at_mark(t, i, Sym::BrackR) {
            Ok(At { v: acc, i: i + 1 })
        } else if at_mark(t, i, Sym::Comma) {
            parse_head(t, ps, i + 1, acc, fuel - 1)
        } else {
            match get_word(t, i) {
                None => Err(err(ErrKind::Parse)),
                Some(n) => if at_mark(t, i + 1, Sym::ParenL) {
                    match get_word(t, i + 2) {
                        None => Err(err(ErrKind::Parse)),
                        Some(v) => match parse_aggr_args(t, ps, i + 3, List::new(), fuel - 1) {
                            Err(e) => Err(e),
                            Ok(At { v: args, i: j }) => {
                                parse_head(
                                    t,
                                    ps,
                                    j,
                                    pushed(
                                        acc,
                                        HeadItem { var: v, aggr: Some(Aggr { name: n, args }) },
                                    ),
                                    fuel - 1,
                                )
                            }
                        }
                    }
                } else {
                    parse_head(t, ps, i + 1, pushed(acc, HeadItem { var: n, aggr: None }), fuel - 1)
                },
            }
        }
    }
}

/// Terms up to a closing bracket or a selector.
#[verifier::opaque]
pub open spec fn p_terms(
    t: Seq<TokV>,
    ps: Seq<ParamV>,
    i: int,
    acc: Seq<ExprV>,
    fuel: nat,
) -> Result<(Seq<ExprV>, int), Fault>
    decreases fuel,
{
    if fuel == 0 {
        Err(fault(ErrKind::Parse))
    } else {
        if is_mark(t, i, Sym::BrackR) || is_mark(t, i, Sym::At) {
            Ok((acc, i))
        } else {
            match p_expr(t, ps, i, (fuel - 1) as nat) {
                Err(f) => Err(f),
                Ok((e, j)) => {
                    if is_mark(t, j, Sym::Comma) {
                        p_terms(t, ps, j + 1, acc.push(e), (fuel - 1) as nat)
                    } else {
                        Ok((acc.push(e), j))
                    }
                }
            }
        }
    }
}

fn parse_terms(
    t: &List<Tok>,
    ps: &List<Param>,
    i: usize,
    acc: List<Expr>,
    fuel: usize,
) -> (r: Result<At<List<Expr>>, DbError>)
    requires
        i <= t@.len(),
    ensures
        outcome(r) == p_terms(t@, ps@, i as int, acc@, fuel as nat),
        r matches Ok(a) ==> a.i <= t@.len(),
    decreases fuel,
{
    reveal(p_terms);
    if fuel == 0 {
        Err(err(ErrKind::Parse))
    } else {
        if at_mark(t, i, Sym::BrackR) || at_mark(t, i, Sym::At) {
            Ok(At { v: acc, i })
        } else {
            match parse_expr(t, ps, i, fuel - 1) {
                Err(e) => Err(e),
                Ok(At { v: e, i: j }) => {
                    if at_mark(t, j, Sym::Comma) {
                        parse_terms(t, ps, j + 1, pushed(acc, e), fuel - 1)
                    } else {
                        Ok(At { v: pushed(acc, e), i: j })
                    }
                }
            }
        }
    }
}

/// The labelled points of a selector up to the closing parenthesis.
#[verifier::opaque]
pub open spec fn p_axes(
    t: Seq<TokV>,
    ps: Seq<ParamV>,
    i: int,
    acc: SelectorV,
    fuel: nat,
) -> Result<(SelectorV, int), Fault>
    decreases fuel,
{
    if fuel == 0 {
        Err(fault(ErrKind::Parse))
    } else {
        if is_mark(t, i, Sym::ParenR) {
            Ok((acc, i + 1))
        } else if is_mark(t, i, Sym::Comma) {
            p_axes(t, ps, i + 1, acc, (fuel - 1) as nat)
        } else if is_word(t, i, "vt"@) && is_mark(t, i + 1, Sym::Colon) {
            if acc.vt is Some {
                Err(fault(ErrKind::DuplicateAxis))
            } else {
                match p_expr(t, ps, i + 2, (fuel - 1) as nat) {
                    Err(f) => Err(f),
                    Ok((e, j)) => {
                        p_axes(t, ps, j, SelectorV { vt: Some(e), tt: acc.tt }, (fuel - 1) as nat)
                    }
                }
            }
        } else if is_word(t, i, "tt"@) && is_mark(t, i + 1, Sym::Colon) {
            if acc.tt is Some {
                Err(fault(ErrKind::DuplicateAxis))
            } else {
                match p_expr(t, ps, i + 2, (fuel - 1) as nat) {
                    Err(f) => Err(f),
                    Ok((e, j)) => {
                        p_axes(t, ps, j, SelectorV { vt: acc.vt, tt: Some(e) }, (fuel - 1) as nat)
                    }
                }
            }
        } else {
            Err(fault(ErrKind::Parse))
        }
    }
}

fn parse_axes(
    t: &List<Tok>,
    ps: &List<Param>,
    i: usize,
    acc: Selector,
    fuel: usize,
) -> (r: Result<At<Selector>, DbError>)
    requires
        i <= t@.len(),
    ensures
        outcome(r) == p_axes(t@, ps@, i as int, acc@, fuel as nat),
        r matches Ok(a) ==> a.i <= t@.len(),
    decreases fuel,
{
    reveal(p_axes);
    if fuel == 0 {
        Err(err(ErrKind::Parse))
    } else {
        if at_mark(t, i, Sym::ParenR) {
            Ok(At { v: acc, i: i + 1 })
        } else if at_mark(t, i, Sym::Comma) {
            parse_axes(t, ps, i + 1, acc, fuel - 1)
        } else if at_word(t, i, "vt") && at_mark(t, i + 1, Sym::Colon) {
            if acc.vt.is_some() {
                Err(err(ErrKind::DuplicateAxis))
            } else {
                match parse_expr(t, ps, i + 2, fuel - 1) {
                    Err(e) => Err(e),
                    Ok(At { v: e, i: j }) => {
                        parse_axes(t, ps, j, Selector { vt: Some(e), tt: acc.tt }, fuel - 1)
                    }
                }
            }
        } else if at_word(t, i, "tt") && at_mark(t, i + 1, Sym::Colon) {
            if acc.tt.is_some() {
                Err(err(ErrKind::DuplicateAxis))
            } else {
                match parse_expr(t, ps, i + 2, fuel - 1) {
                    Err(e) => Err(e),
                    Ok(At { v: e, i: j }) => {
                        parse_axes(t, ps, j, Selector { vt: acc.vt, tt: Some(e) }, fuel - 1)
                    }
                }
            }
        } else {
            Err(err(ErrKind::Parse))
        }
    }
}

/// The points in time at which a relation is read, where they are given. A
/// point without a label is one of valid time.
#[verifier::opaque]
pub open spec fn p_selector(
    t: Seq<TokV>,
    ps: Seq<ParamV>,
    i: int,
    fuel: nat,
) -> Result<(SelectorV, int), Fault>
    decreases fuel,
{
    if fuel == 0 {
        Err(fault(ErrKind::Parse))
    } else {
        if !is_mark(t, i, Sym::At) {
            Ok(((SelectorV { vt: None, tt: None }), i))
        } else if is_mark(t, i + 1, Sym::ParenL) && (
            is_word(t, i + 2, "vt"@) || is_word(t, i + 2, "tt"@)
        ) && is_mark(t, i + 3, Sym::Colon) {
            p_axes(t, ps, i + 2, (SelectorV { vt: None, tt: None }), (fuel - 1) as nat)
        } else {
            match p_expr(t, ps, i + 1, (fuel - 1) as nat) {
                Err(f) => Err(f),
                Ok((e, j)) => {
                    Ok(((SelectorV { vt: Some(e), tt: None }), j))
                }
            }
        }
    }
}

fn parse_selector(
    t: &List<Tok>,
    ps: &List<Param>,
    i: usize,
    fuel: usize,
) -> (r: Result<At<Selector>, DbError>)
    requires
        i <= t@.len(),
    ensures
        outcome(r) == p_selector(t@, ps@, i as int, fuel as nat),
        r matches Ok(a) ==> a.i <= t@.len(),
    decreases fuel,
{
    reveal(p_selector);
    if fuel == 0 {
        Err(err(ErrKind::Parse))
    } else {
        if !at_mark(t, i, Sym::At) {
            Ok(At { v: Selector { vt: None, tt: None }, i })
        } else if at_mark(t, i + 1, Sym::ParenL) && (
            at_word(t, i + 2, "vt") || at_word(t, i + 2, "tt")
        ) && at_mark(t, i + 3, Sym::Colon) {
            parse_axes(t, ps, i + 2, Selector { vt: None, tt: None }, fuel - 1)
        } else {
            match parse_expr(t, ps, i + 1, fuel - 1) {
                Err(e) => Err(e),
                Ok(At { v: e, i: j }) => {
                    Ok(At { v: Selector { vt: Some(e), tt: None }, i: j })
                }
            }
        }
    }
}

/// A stored relation behind its star.
#[verifier::opaque]
pub open spec fn p_stored(
    t: Seq<TokV>,
    ps: Seq<ParamV>,
    i: int,
    neg: bool,
    fuel: nat,
) -> Result<(AtomV, int), Fault>
    decreases fuel,
{
    if fuel == 0 {
        Err(fault(ErrKind::Parse))
    } else {
        match p_rel_name(t, ps, i, (fuel - 1) as nat) {
            Err(f) => Err(f),
            Ok((n, j)) => {
                if is_mark(t, j, Sym::BrackL) {
                    match p_terms(t, ps, j + 1, Seq::empty(), (fuel - 1) as nat) {
                        Err(f) => Err(f),
                        Ok((ts, k)) => {
                            match p_selector(t, ps, k, (fuel - 1) as nat) {
                                Err(f) => Err(f),
                                Ok((sel, l)) => {
                                    if is_mark(t, l, Sym::BrackR) {
                                        Ok((AtomV::Stored(n, FieldsV::Places(ts), sel, neg), l + 1))
                                    } else {
                                        Err(fault(ErrKind::Parse))
                                    }
                                }
                            }
                        }
                    }
                } else if is_mark(t, j, Sym::BraceL) {
                    match p_fields(t, ps, j + 1, Seq::empty(), (fuel - 1) as nat) {
                        Err(f) => Err(f),
                        Ok((fs, k)) => {
                            match p_selector(t, ps, k, (fuel - 1) as nat) {
                                Err(f) => Err(f),
                                Ok((sel, l)) => {
                                    if is_mark(t, l, Sym::BraceR) {
                                        Ok((AtomV::Stored(n, FieldsV::Names(fs), sel, neg), l + 1))
                                    } else {
                                        Err(fault(ErrKind::Parse))
                                    }
                                }
                            }
                        }
                    }
                } else {
                    Err(fault(ErrKind::Parse))
                }
            }
        }
    }
}

fn parse_stored(
    t: &List<Tok>,
    ps: &List<Param>,
    i: usize,
    neg: bool,
    fuel: usize,
) -> (r: Result<At<Atom>, DbError>)
    requires
        i <= t@.len(),
    ensures
        outcome(r) == p_stored(t@, ps@, i as int, neg, fuel as nat),
        r matches Ok(a) ==> a.i <= t@.len(),
    decreases fuel,
{
    reveal(p_stored);
    if fuel == 0 {
        Err(err(ErrKind::Parse))
    } else {
        match parse_rel_name(t, ps, i, fuel - 1) {
            Err(e) => Err(e),
            Ok(At { v: n, i: j }) => {
                if at_mark(t, j, Sym::BrackL) {
                    match parse_terms(t, ps, j + 1, List::new(), fuel - 1) {
                        Err(e) => Err(e),
                        Ok(At { v: ts, i: k }) => {
                            match parse_selector(t, ps, k, fuel - 1) {
                                Err(e) => Err(e),
                                Ok(At { v: sel, i: l }) => {
                                    if at_mark(t, l, Sym::BrackR) {
                                        Ok(
                                            At {
                                                v: Atom::Stored(n, Fields::Places(ts), sel, neg),
                                                i: l + 1,
                                            },
                                        )
                                    } else {
                                        Err(err(ErrKind::Parse))
                                    }
                                }
                            }
                        }
                    }
                } else if at_mark(t, j, Sym::BraceL) {
                    match parse_fields(t, ps, j + 1, List::new(), fuel - 1) {
                        Err(e) => Err(e),
                        Ok(At { v: fs, i: k }) => {
                            match parse_selector(t, ps, k, fuel - 1) {
                                Err(e) => Err(e),
                                Ok(At { v: sel, i: l }) => {
                                    if at_mark(t, l, Sym::BraceR) {
                                        Ok(
                                            At {
                                                v: Atom::Stored(n, Fields::Names(fs), sel, neg),
                                                i: l + 1,
                                            },
                                        )
                                    } else {
                                        Err(err(ErrKind::Parse))
                                    }
                                }
                            }
                        }
                    }
                } else {
                    Err(err(ErrKind::Parse))
                }
            }
        }
    }
}

/// A rule that is applied to terms, behind the opening bracket.
#[verifier::opaque]
pub open spec fn p_applied(
    t: Seq<TokV>,
    ps: Seq<ParamV>,
    i: int,
    name: Seq<char>,
    neg: bool,
    fuel: nat,
) -> Result<(AtomV, int), Fault>
    decreases fuel,
{
    if fuel == 0 {
        Err(fault(ErrKind::Parse))
    } else {
        match p_terms(t, ps, i, Seq::empty(), (fuel - 1) as nat) {
            Err(f) => Err(f),
            Ok((ts, j)) => {
                if is_mark(t, j, Sym::BrackR) {
                    Ok((AtomV::Rule(name, ts, neg), j + 1))
                } else {
                    Err(fault(ErrKind::Parse))
                }
            }
        }
    }
}

fn parse_applied(
    t: &List<Tok>,
    ps: &List<Param>,
    i: usize,
    name: String,
    neg: bool,
    fuel: usize,
) -> (r: Result<At<Atom>, DbError>)
    requires
        i <= t@.len(),
    ensures
        outcome(r) == p_applied(t@, ps@, i as int, name@, neg, fuel as nat),
        r matches Ok(a) ==> a.i <= t@.len(),
    decreases fuel,
{
    reveal(p_applied);
    if fuel == 0 {
        Err(err(ErrKind::Parse))
    } else {
        match parse_terms(t, ps, i, List::new(), fuel - 1) {
            Err(e) => Err(e),
            Ok(At { v: ts, i: j }) => {
                if at_mark(t, j, Sym::BrackR) {
                    Ok(At { v: Atom::Rule(name, ts, neg), i: j + 1 })
                } else {
                    Err(err(ErrKind::Parse))
                }
            }
        }
    }
}

/// A search behind its tilde.
#[verifier::opaque]
pub open spec fn p_sought(
    t: Seq<TokV>,
    ps: Seq<ParamV>,
    i: int,
    fuel: nat,
) -> Result<(AtomV, int), Fault>
    decreases fuel,
{
    if fuel == 0 {
        Err(fault(ErrKind::Parse))
    } else {
        match word_at(t, i) {
            None => Err(fault(ErrKind::Parse)),
            Some(n) => if is_mark(t, i + 1, Sym::Colon) {
                match word_at(t, i + 2) {
                    None => Err(fault(ErrKind::Parse)),
                    Some(x) => if is_mark(t, i + 3, Sym::BraceL) {
                        match p_fields(t, ps, i + 4, Seq::empty(), (fuel - 1) as nat) {
                            Err(f) => Err(f),
                            Ok((fs, j)) => {
                                if is_mark(t, j, Sym::Bar) {
                                    match p_fields(t, ps, j + 1, Seq::empty(), (fuel - 1) as nat) {
                                        Err(f) => Err(f),
                                        Ok((opts, k)) => {
                                            if is_mark(t, k, Sym::BraceR) {
                                                Ok(
                                                    (
                                                        AtomV::Search(n, x, fs, opts),
                                                        k + 1,
                                                    ),
                                                )
                                            } else {
                                                Err(fault(ErrKind::Parse))
                                            }
                                        }
                                    }
                                } else {
                                    Err(fault(ErrKind::Parse))
                                }
                            }
                        }
                    } else {
                        Err(fault(ErrKind::Parse))
                    },
                }
            } else {
                Err(fault(ErrKind::Parse))
            },
        }
    }
}

fn parse_sought(
    t: &List<Tok>,
    ps: &List<Param>,
    i: usize,
    fuel: usize,
) -> (r: Result<At<Atom>, DbError>)
    requires
        i <= t@.len(),
    ensures
        outcome(r) == p_sought(t@, ps@, i as int, fuel as nat),
        r matches Ok(a) ==> a.i <= t@.len(),
    decreases fuel,
{
    reveal(p_sought);
    if fuel == 0 {
        Err(err(ErrKind::Parse))
    } else {
        match get_word(t, i) {
            None => Err(err(ErrKind::Parse)),
            Some(n) => if at_mark(t, i + 1, Sym::Colon) {
                match get_word(t, i + 2) {
                    None => Err(err(ErrKind::Parse)),
                    Some(x) => if at_mark(t, i + 3, Sym::BraceL) {
                        match parse_fields(t, ps, i + 4, List::new(), fuel - 1) {
                            Err(e) => Err(e),
                            Ok(At { v: fs, i: j }) => {
                                if at_mark(t, j, Sym::Bar) {
                                    match parse_fields(t, ps, j + 1, List::new(), fuel - 1) {
                                        Err(e) => Err(e),
                                        Ok(At { v: opts, i: k }) => {
                                            if at_mark(t, k, Sym::BraceR) {
                                                Ok(
                                                    At {
                                                        v: Atom::Search(n, x, fs, opts),
                                                        i: k + 1,
                                                    },
                                                )
                                            } else {
                                                Err(err(ErrKind::Parse))
                                            }
                                        }
                                    }
                                } else {
                                    Err(err(ErrKind::Parse))
                                }
                            }
                        }
                    } else {
                        Err(err(ErrKind::Parse))
                    },
                }
            } else {
                Err(err(ErrKind::Parse))
            },
        }
    }
}

/// A condition.
#[verifier::opaque]
pub open spec fn p_atom(
    t: Seq<TokV>,
    ps: Seq<ParamV>,
    i: int,
    fuel: nat,
) -> Result<(AtomV, int), Fault>
    decreases fuel,
{
    if fuel == 0 {
        Err(fault(ErrKind::Parse))
    } else {
        if is_word(t, i, "not"@) && is_mark(t, i + 1, Sym::Star) {
            p_stored(t, ps, i + 2, true, (fuel - 1) as nat)
        } else if is_mark(t, i, Sym::Star) {
            p_stored(t, ps, i + 1, false, (fuel - 1) as nat)
        } else if is_mark(t, i, Sym::Tilde) {
            p_sought(t, ps, i + 1, (fuel - 1) as nat)
        } else {
            match word_at(t, i) {
                None => match p_expr(t, ps, i, (fuel - 1) as nat) {
                    Err(f) => Err(f),
                    Ok((e, j)) => {
                        Ok((AtomV::Filter(e), j))
                    }
                },
                Some(n) => if is_mark(t, i + 1, Sym::BrackL) {
                    p_applied(t, ps, i + 2, n, false, (fuel - 1) as nat)
                } else if is_mark(t, i + 1, Sym::Equal) {
                    match p_expr(t, ps, i + 2, (fuel - 1) as nat) {
                        Err(f) => Err(f),
                        Ok((e, j)) => {
                            Ok((AtomV::Unify(n, e), j))
                        }
                    }
                } else if is_word(t, i + 1, "in"@) {
                    match p_expr(t, ps, i + 2, (fuel - 1) as nat) {
                        Err(f) => Err(f),
                        Ok((e, j)) => {
                            Ok((AtomV::Member(n, e), j))
                        }
                    }
                } else {
                    match word_at(t, i + 1) {
                        Some(m) => if n == "not"@ && is_mark(t, i + 2, Sym::BrackL) {
                            p_applied(t, ps, i + 3, m, true, (fuel - 1) as nat)
                        } else {
                            match p_expr(t, ps, i, (fuel - 1) as nat) {
                                Err(f) => Err(f),
                                Ok((e, j)) => {
                                    Ok((AtomV::Filter(e), j))
                                }
                            }
                        },
                        None => match p_expr(t, ps, i, (fuel - 1) as nat) {
                            Err(f) => Err(f),
                            Ok((e, j)) => {
                                Ok((AtomV::Filter(e), j))
                            }
                        },
                    }
                },
            }
        }
    }
}

fn parse_atom(
    t: &List<Tok>,
    ps: &List<Param>,
    i: usize,
    fuel: usize,
) -> (r: Result<At<Atom>, DbError>)
    requires
        i <= t@.len(),
    ensures
        outcome(r) == p_atom(t@, ps@, i as int, fuel as nat),
        r matches Ok(a) ==> a.i <= t@.len(),
    decreases fuel,
{
    reveal(p_atom);
    if fuel == 0 {
        Err(err(ErrKind::Parse))
    } else {
        if at_word(t, i, "not") && at_mark(t, i + 1, Sym::Star) {
            parse_stored(t, ps, i + 2, true, fuel - 1)
        } else if at_mark(t, i, Sym::Star) {
            parse_stored(t, ps, i + 1, false, fuel - 1)
        } else if at_mark(t, i, Sym::Tilde) {
            parse_sought(t, ps, i + 1, fuel - 1)
        } else {
            match get_word(t, i) {
                None => match parse_expr(t, ps, i, fuel - 1) {
                    Err(e) => Err(e),
                    Ok(At { v: e, i: j }) => {
                        Ok(At { v: Atom::Filter(e), i: j })
                    }
                },
                Some(n) => if at_mark(t, i + 1, Sym::BrackL) {
                    parse_applied(t, ps, i + 2, n, false, fuel - 1)
                } else if at_mark(t, i + 1, Sym::Equal) {
                    match parse_expr(t, ps, i + 2, fuel - 1) {
                        Err(e) => Err(e),
                        Ok(At { v: e, i: j }) => {
                            Ok(At { v: Atom::Unify(n, e), i: j })
                        }
                    }
                } else if at_word(t, i + 1, "in") {
                    match parse_expr(t, ps, i + 2, fuel - 1) {
                        Err(e) => Err(e),
                        Ok(At { v: e, i: j }) => {
                            Ok(At { v: Atom::Member(n, e), i: j })
                        }
                    }
                } else {
                    match get_word(t, i + 1) {
                        Some(m) => if n == "not".to_owned() && at_mark(t, i + 2, Sym::BrackL) {
                            parse_applied(t, ps, i + 3, m, true, fuel - 1)
                        } else {
                            match parse_expr(t, ps, i, fuel - 1) {
                                Err(e) => Err(e),
                                Ok(At { v: e, i: j }) => {
                                    Ok(At { v: Atom::Filter(e), i: j })
                                }
                            }
                        },
                        None => match parse_expr(t, ps, i, fuel - 1) {
                            Err(e) => Err(e),
                            Ok(At { v: e, i: j }) => {
                                Ok(At { v: Atom::Filter(e), i: j })
                            }
                        },
                    }
                },
            }
        }
    }
}

/// Conditions joined by `and`.
#[verifier::opaque]
pub open spec fn p_both(
    t: Seq<TokV>,
    ps: Seq<ParamV>,
    i: int,
    acc: Seq<AtomV>,
    fuel: nat,
) -> Result<(Seq<AtomV>, int), Fault>
    decreases fuel,
{
    if fuel == 0 {
        Err(fault(ErrKind::Parse))
    } else {
        match p_atom(t, ps, i, (fuel - 1) as nat) {
            Err(f) => Err(f),
            Ok((a, j)) => {
                if is_word(t, j, "and"@) {
                    p_both(t, ps, j + 1, acc.push(a), (fuel - 1) as nat)
                } else {
                    Ok((acc.push(a), j))
                }
            }
        }
    }
}

fn parse_both(
    t: &List<Tok>,
    ps: &List<Param>,
    i: usize,
    acc: List<Atom>,
    fuel: usize,
) -> (r: Result<At<List<Atom>>, DbError>)
    requires
        i <= t@.len(),
    ensures
        outcome(r) == p_both(t@, ps@, i as int, acc@, fuel as nat),
        r matches Ok(a) ==> a.i <= t@.len(),
    decreases fuel,
{
    reveal(p_both);
    if fuel == 0 {
        Err(err(ErrKind::Parse))
    } else {
        match parse_atom(t, ps, i, fuel - 1) {
            Err(e) => Err(e),
            Ok(At { v: a, i: j }) => {
                if at_word(t, j, "and") {
                    parse_both(t, ps, j + 1, pushed(acc, a), fuel - 1)
                } else {
                    Ok(At { v: pushed(acc, a), i: j })
                }
            }
        }
    }
}

/// Alternatives joined by `or`.
#[verifier::opaque]
pub open spec fn p_either(
    t: Seq<TokV>,
    ps: Seq<ParamV>,
    i: int,
    acc: Seq<Seq<AtomV>>,
    fuel: nat,
) -> Result<(Seq<Seq<AtomV>>, int), Fault>
    decreases fuel,
{
    if fuel == 0 {
        Err(fault(ErrKind::Parse))
    } else {
        match p_both(t, ps, i, Seq::empty(), (fuel - 1) as nat) {
            Err(f) => Err(f),
            Ok((c, j)) => {
                if is_word(t, j, "or"@) {
                    p_either(t, ps, j + 1, acc.push(c), (fuel - 1) as nat)
                } else {
                    Ok((acc.push(c), j))
                }
            }
        }
    }
}

fn parse_either(
    t: &List<Tok>,
    ps: &List<Param>,
    i: usize,
    acc: List<List<Atom>>,
    fuel: usize,
) -> (r: Result<At<List<List<Atom>>>, DbError>)
    requires
        i <= t@.len(),
    ensures
        outcome(r) == p_either(t@, ps@, i as int, acc@, fuel as nat),
        r matches Ok(a) ==> a.i <= t@.len(),
    decreases fuel,
{
    reveal(p_either);
    if fuel == 0 {
        Err(err(ErrKind::Parse))
    } else {
        match parse_both(t, ps, i, List::new(), fuel - 1) {
            Err(e) => Err(e),
            Ok(At { v: c, i: j }) => {
                if at_word(t, j, "or") {
                    parse_either(t, ps, j + 1, pushed(acc, c), fuel - 1)
                } else {
                    Ok(At { v: pushed(acc, c), i: j })
                }
            }
        }
    }
}

/// The conditions of one list after those of another, from place `k` on.
pub open spec fn with_atoms(a: Seq<AtomV>, b: Seq<AtomV>, k: int) -> Seq<AtomV>
    decreases b.len() - k,
{
    if k < 0 || k >= b.len() {
        a
    } else {
        with_atoms(a.push(b[k]), b, k + 1)
    }
}

fn append_atoms(a: &List<Atom>, b: &List<Atom>) -> (r: List<Atom>)
    ensures
        r@ == with_atoms(a@, b@, 0),
{
    let mut out = a.dup();
    let mut k: usize = 0;
    while k < b.len()
        invariant
            k <= b@.len(),
            with_atoms(a@, b@, 0) == with_atoms(out@, b@, k as int),
        decreases b@.len() - k,
    {
        out.push(b.get(k).dup());
        k = k + 1;
    }
    out
}

/// Each clause of `a` with each of `b` from place `k` on, after `acc`.
pub open spec fn crossed_from(
    a: Seq<Seq<AtomV>>,
    b: Seq<Seq<AtomV>>,
    k: int,
    acc: Seq<Seq<AtomV>>,
) -> Seq<Seq<AtomV>>
    decreases b.len() - k,
{
    if k < 0 || k >= b.len() {
        acc
    } else {
        crossed_from(a, b, k + 1, crossed_with(a, b[k], 0, acc))
    }
}

/// Each clause of `a` from place `k` on followed by `c`, after `acc`.
pub open spec fn crossed_with(
    a: Seq<Seq<AtomV>>,
    c: Seq<AtomV>,
    k: int,
    acc: Seq<Seq<AtomV>>,
) -> Seq<Seq<AtomV>>
    decreases a.len() - k,
{
    if k < 0 || k >= a.len() {
        acc
    } else {
        crossed_with(a, c, k + 1, acc.push(with_atoms(a[k], c, 0)))
    }
}

fn cross_with(a: &List<List<Atom>>, c: &List<Atom>, acc: List<List<Atom>>) -> (r: List<List<Atom>>)
    ensures
        r@ == crossed_with(a@, c@, 0, acc@),
{
    let ghost first = acc@;
    let mut out = acc;
    let mut k: usize = 0;
    while k < a.len()
        invariant
            k <= a@.len(),
            crossed_with(a@, c@, 0, first) == crossed_with(a@, c@, k as int, out@),
        decreases a@.len() - k,
    {
        out.push(append_atoms(a.get(k), c));
        k = k + 1;
    }
    out
}

fn cross(a: &List<List<Atom>>, b: &List<List<Atom>>) -> (r: List<List<Atom>>)
    ensures
        r@ == crossed_from(a@, b@, 0, Seq::empty()),
{
    let mut out: List<List<Atom>> = List::new();
    let mut k: usize = 0;
    while k < b.len()
        invariant
            k <= b@.len(),
            crossed_from(a@, b@, 0, Seq::empty()) == crossed_from(a@, b@, k as int, out@),
        decreases b@.len() - k,
    {
        out = cross_with(a, b.get(k), out);
        k = k + 1;
    }
    out
}

/// The clauses of a body: groups of alternatives joined by commas, one of each
/// in every clause.
#[verifier::opaque]
pub open spec fn p_clauses(
    t: Seq<TokV>,
    ps: Seq<ParamV>,
    i: int,
    acc: Seq<Seq<AtomV>>,
    fuel: nat,
) -> Result<(Seq<Seq<AtomV>>, int), Fault>
    decreases fuel,
{
    if fuel == 0 {
        Err(fault(ErrKind::Parse))
    } else {
        match p_either(t, ps, i, Seq::empty(), (fuel - 1) as nat) {
            Err(f) => Err(f),
            Ok((d, j)) => {
                if is_mark(t, j, Sym::Comma) {
                    p_clauses(
                        t,
                        ps,
                        j + 1,
                        crossed_from(acc, d, 0, Seq::empty()),
                        (fuel - 1) as nat,
                    )
                } else {
                    Ok((crossed_from(acc, d, 0, Seq::empty()), j))
                }
            }
        }
    }
}

fn parse_clauses(
    t: &List<Tok>,
    ps: &List<Param>,
    i: usize,
    acc: List<List<Atom>>,
    fuel: usize,
) -> (r: Result<At<List<List<Atom>>>, DbError>)
    requires
        i <= t@.len(),
    ensures
        outcome(r) == p_clauses(t@, ps@, i as int, acc@, fuel as nat),
        r matches Ok(a) ==> a.i <= t@.len(),
    decreases fuel,
{
    reveal(p_clauses);
    if fuel == 0 {
        Err(err(ErrKind::Parse))
    } else {
        match parse_either(t, ps, i, List::new(), fuel - 1) {
            Err(e) => Err(e),
            Ok(At { v: d, i: j }) => {
                if at_mark(t, j, Sym::Comma) {
                    parse_clauses(t, ps, j + 1, cross(&acc, &d), fuel - 1)
                } else {
                    Ok(At { v: cross(&acc, &d), i: j })
                }
            }
        }
    }
}

/// The inputs and options of a fixed rule up to the closing parenthesis.
#[verifier::opaque]
pub open spec fn p_inputs(
    t: Seq<TokV>,
    ps: Seq<ParamV>,
    i: int,
    acc: Seq<AtomV>,
    fuel: nat,
) -> Result<((Seq<AtomV>, Seq<FieldV>), int), Fault>
    decreases fuel,
{
    if fuel == 0 {
        Err(fault(ErrKind::Parse))
    } else {
        if is_mark(t, i, Sym::ParenR) {
            Ok(((acc, Seq::empty()), i + 1))
        } else if is_mark(t, i, Sym::Comma) {
            p_inputs(t, ps, i + 1, acc, (fuel - 1) as nat)
        } else if is_mark(t, i, Sym::Star) {
            match p_stored(t, ps, i + 1, false, (fuel - 1) as nat) {
                Err(f) => Err(f),
                Ok((a, j)) => {
                    p_inputs(t, ps, j, acc.push(a), (fuel - 1) as nat)
                }
            }
        } else {
            match word_at(t, i) {
                None => Err(fault(ErrKind::Parse)),
                Some(n) => if is_mark(t, i + 1, Sym::BrackL) {
                    match p_applied(t, ps, i + 2, n, false, (fuel - 1) as nat) {
                        Err(f) => Err(f),
                        Ok((a, j)) => {
                            p_inputs(t, ps, j, acc.push(a), (fuel - 1) as nat)
                        }
                    }
                } else {
                    match p_fields(t, ps, i, Seq::empty(), (fuel - 1) as nat) {
                        Err(f) => Err(f),
                        Ok((fs, j)) => {
                            if is_mark(t, j, Sym::ParenR) {
                                Ok(((acc, fs), j + 1))
                            } else {
                                Err(fault(ErrKind::Parse))
                            }
                        }
                    }
                },
            }
        }
    }
}

fn parse_inputs(
    t: &List<Tok>,
    ps: &List<Param>,
    i: usize,
    acc: List<Atom>,
    fuel: usize,
) -> (r: Result<At<(List<Atom>, List<Field>)>, DbError>)
    requires
        i <= t@.len(),
    ensures
        outcome(r) == p_inputs(t@, ps@, i as int, acc@, fuel as nat),
        r matches Ok(a) ==> a.i <= t@.len(),
    decreases fuel,
{
    reveal(p_inputs);
    if fuel == 0 {
        Err(err(ErrKind::Parse))
    } else {
        if at_mark(t, i, Sym::ParenR) {
            Ok(At { v: (acc, List::new()), i: i + 1 })
        } else if at_mark(t, i, Sym::Comma) {
            parse_inputs(t, ps, i + 1, acc, fuel - 1)
        } else if at_mark(t, i, Sym::Star) {
            match parse_stored(t, ps, i + 1, false, fuel - 1) {
                Err(e) => Err(e),
                Ok(At { v: a, i: j }) => {
                    parse_inputs(t, ps, j, pushed(acc, a), fuel - 1)
                }
            }
        } else {
            match get_word(t, i) {
                None => Err(err(ErrKind::Parse)),
                Some(n) => if at_mark(t, i + 1, Sym::BrackL) {
                    match parse_applied(t, ps, i + 2, n, false, fuel - 1) {
                        Err(e) => Err(e),
                        Ok(At { v: a, i: j }) => {
                            parse_inputs(t, ps, j, pushed(acc, a), fuel - 1)
                        }
                    }
                } else {
                    match parse_fields(t, ps, i, List::new(), fuel - 1) {
                        Err(e) => Err(e),
                        Ok(At { v: fs, i: j }) => {
                            if at_mark(t, j, Sym::ParenR) {
                                Ok(At { v: (acc, fs), i: j + 1 })
                            } else {
                                Err(err(ErrKind::Parse))
                            }
                        }
                    }
                },
            }
        }
    }
}

/// The names of the parameters that a row of parameters alone consists of, from
/// place `i` up to the closing bracket.
pub open spec fn param_names(t: Seq<TokV>, i: int, acc: Seq<HeadItemV>) -> Option<Seq<HeadItemV>>
    decreases t.len() - i,
{
    if i < 0 || i >= t.len() {
        None
    } else {
        match t[i] {
            TokV::Param(n) => {
                let next = acc.push(HeadItemV { var: n, aggr: None });
                if is_mark(t, i + 1, Sym::BrackR) {
                    Some(next)
                } else if is_mark(t, i + 1, Sym::Comma) && i + 2 > i {
                    param_names(t, i + 2, next)
                } else {
                    None
                }
            },
            _ => None,
        }
    }
}

fn find_param_names(t: &List<Tok>, start: usize) -> (r: Option<List<HeadItem>>)
    requires
        start <= t@.len(),
    ensures
        opt_of(r) == param_names(t@, start as int, Seq::empty()),
{
    let mut acc: List<HeadItem> = List::new();
    let mut i: usize = start;
    while i < t.len()
        invariant
            i <= t@.len(),
            param_names(t@, start as int, Seq::empty()) == param_names(t@, i as int, acc@),
        decreases t@.len() - i,
    {
        match t.get(i) {
            Tok::Param(n) => {
                acc.push(HeadItem { var: n.clone(), aggr: None });
                if at_mark(t, i + 1, Sym::BrackR) {
                    return Some(acc);
                }
                if !at_mark(t, i + 1, Sym::Comma) {
                    return None;
                }
                i = i + 2;
            },
            _ => {
                return None;
            },
        }
    }
    None
}

/// The head of a rule of given rows: where none is written and the first row
/// consists of parameters, their names.
pub open spec fn rows_head(t: Seq<TokV>, i: int, head: Seq<HeadItemV>) -> Seq<HeadItemV> {
    if head.len() > 0 || !is_mark(t, i, Sym::BrackL) || !is_mark(t, i + 1, Sym::BrackL) {
        head
    } else {
        match param_names(t, i + 2, Seq::empty()) {
            Some(h) => h,
            None => head,
        }
    }
}

fn head_of_rows(t: &List<Tok>, i: usize, head: List<HeadItem>) -> (r: List<HeadItem>)
    requires
        i <= t@.len(),
    ensures
        r@ == rows_head(t@, i as int, head@),
{
    if head.len() > 0 || !at_mark(t, i, Sym::BrackL) || !at_mark(t, i + 1, Sym::BrackL) {
        head
    } else {
        match find_param_names(t, i + 2) {
            Some(h) => h,
            None => head,
        }
    }
}

/// A rule behind the opening bracket of its head.
#[verifier::opaque]
pub open spec fn p_rule(
    t: Seq<TokV>,
    ps: Seq<ParamV>,
    i: int,
    name: Seq<char>,
    fuel: nat,
) -> Result<(RuleV, int), Fault>
    decreases fuel,
{
    if fuel == 0 {
        Err(fault(ErrKind::Parse))
    } else {
        match p_head(t, ps, i, Seq::empty(), (fuel - 1) as nat) {
            Err(f) => Err(f),
            Ok((head, j)) => {
                if is_mark(t, j, Sym::Define) {
                    match p_clauses(
                        t,
                        ps,
                        j + 1,
                        Seq::empty().push(Seq::empty()),
                        (fuel - 1) as nat,
                    ) {
                        Err(f) => Err(f),
                        Ok((cs, k)) => {
                            Ok(((RuleV { name, head, body: BodyV::Clauses(cs) }), k))
                        }
                    }
                } else if is_mark(t, j, Sym::From) {
                    match p_expr(t, ps, j + 1, (fuel - 1) as nat) {
                        Err(f) => Err(f),
                        Ok((e, k)) => {
                            Ok(
                                (
                                    (
                                        RuleV {
                                            name,
                                            head: rows_head(t, j + 1, head),
                                            body: BodyV::Rows(e),
                                        }
                                    ),
                                    k,
                                ),
                            )
                        }
                    }
                } else if is_mark(t, j, Sym::Fixed) {
                    match word_at(t, j + 1) {
                        None => Err(fault(ErrKind::Parse)),
                        Some(n) => if is_mark(t, j + 2, Sym::ParenL) {
                            match p_inputs(t, ps, j + 3, Seq::empty(), (fuel - 1) as nat) {
                                Err(f) => Err(f),
                                Ok((io, k)) => {
                                    Ok(
                                        (
                                            (
                                                RuleV {
                                                    name,
                                                    head,
                                                    body: BodyV::Fixed(n, io.0, io.1),
                                                }
                                            ),
                                            k,
                                        ),
                                    )
                                }
                            }
                        } else {
                            Err(fault(ErrKind::Parse))
                        },
                    }
                } else {
                    Err(fault(ErrKind::Parse))
                }
            }
        }
    }
}

fn parse_rule(
    t: &List<Tok>,
    ps: &List<Param>,
    i: usize,
    name: String,
    fuel: usize,
) -> (r: Result<At<Rule>, DbError>)
    requires
        i <= t@.len(),
    ensures
        outcome(r) == p_rule(t@, ps@, i as int, name@, fuel as nat),
        r matches Ok(a) ==> a.i <= t@.len(),
    decreases fuel,
{
    reveal(p_rule);
    if fuel == 0 {
        Err(err(ErrKind::Parse))
    } else {
        match parse_head(t, ps, i, List::new(), fuel - 1) {
            Err(e) => Err(e),
            Ok(At { v: head, i: j }) => {
                if at_mark(t, j, Sym::Define) {
                    match parse_clauses(t, ps, j + 1, pushed(List::new(), List::new()), fuel - 1) {
                        Err(e) => Err(e),
                        Ok(At { v: cs, i: k }) => {
                            Ok(At { v: Rule { name, head, body: Body::Clauses(cs) }, i: k })
                        }
                    }
                } else if at_mark(t, j, Sym::From) {
                    match parse_expr(t, ps, j + 1, fuel - 1) {
                        Err(e) => Err(e),
                        Ok(At { v: e, i: k }) => {
                            Ok(
                                At {
                                    v: Rule {
                                        name,
                                        head: head_of_rows(t, j + 1, head),
                                        body: Body::Rows(e),
                                    },
                                    i: k,
                                },
                            )
                        }
                    }
                } else if at_mark(t, j, Sym::Fixed) {
                    match get_word(t, j + 1) {
                        None => Err(err(ErrKind::Parse)),
                        Some(n) => if at_mark(t, j + 2, Sym::ParenL) {
                            match parse_inputs(t, ps, j + 3, List::new(), fuel - 1) {
                                Err(e) => Err(e),
                                Ok(At { v: io, i: k }) => {
                                    Ok(
                                        At {
                                            v: Rule {
                                                name,
                                                head,
                                                body: Body::Fixed(n, io.0, io.1),
                                            },
                                            i: k,
                                        },
                                    )
                                }
                            }
                        } else {
                            Err(err(ErrKind::Parse))
                        },
                    }
                } else {
                    Err(err(ErrKind::Parse))
                }
            }
        }
    }
}

/// The columns by which rows are sorted.
#[verifier::opaque]
pub open spec fn p_sort_keys(
    t: Seq<TokV>,
    ps: Seq<ParamV>,
    i: int,
    acc: Seq<SortKeyV>,
    fuel: nat,
) -> Result<(Seq<SortKeyV>, int), Fault>
    decreases fuel,
{
    if fuel == 0 {
        Err(fault(ErrKind::Parse))
    } else {
        if is_mark(t, i, Sym::Minus) {
            match word_at(t, i + 1) {
                None => Err(fault(ErrKind::Parse)),
                Some(n) => if is_mark(t, i + 2, Sym::Comma) {
                    p_sort_keys(
                        t,
                        ps,
                        i + 3,
                        acc.push(SortKeyV { var: n, down: true }),
                        (fuel - 1) as nat,
                    )
                } else {
                    Ok((acc.push(SortKeyV { var: n, down: true }), i + 2))
                },
            }
        } else {
            match word_at(t, i) {
                None => Err(fault(ErrKind::Parse)),
                Some(n) => if is_mark(t, i + 1, Sym::Comma) {
                    p_sort_keys(
                        t,
                        ps,
                        i + 2,
                        acc.push(SortKeyV { var: n, down: false }),
                        (fuel - 1) as nat,
                    )
                } else {
                    Ok((acc.push(SortKeyV { var: n, down: false }), i + 1))
                },
            }
        }
    }
}

fn parse_sort_keys(
    t: &List<Tok>,
    ps: &List<Param>,
    i: usize,
    acc: List<SortKey>,
    fuel: usize,
) -> (r: Result<At<List<SortKey>>, DbError>)
    requires
        i <= t@.len(),
    ensures
        outcome(r) == p_sort_keys(t@, ps@, i as int, acc@, fuel as nat),
        r matches Ok(a) ==> a.i <= t@.len(),
    decreases fuel,
{
    reveal(p_sort_keys);
    if fuel == 0 {
        Err(err(ErrKind::Parse))
    } else {
        if at_mark(t, i, Sym::Minus) {
            match get_word(t, i + 1) {
                None => Err(err(ErrKind::Parse)),
                Some(n) => if at_mark(t, i + 2, Sym::Comma) {
                    parse_sort_keys(
                        t,
                        ps,
                        i + 3,
                        pushed(acc, SortKey { var: n, down: true }),
                        fuel - 1,
                    )
                } else {
                    Ok(At { v: pushed(acc, SortKey { var: n, down: true }), i: i + 2 })
                },
            }
        } else {
            match get_word(t, i) {
                None => Err(err(ErrKind::Parse)),
                Some(n) => if at_mark(t, i + 1, Sym::Comma) {
                    parse_sort_keys(
                        t,
                        ps,
                        i + 2,
                        pushed(acc, SortKey { var: n, down: false }),
                        fuel - 1,
                    )
                } else {
                    Ok(At { v: pushed(acc, SortKey { var: n, down: false }), i: i + 1 })
                },
            }
        }
    }
}

/// The kind of write that a name stands for.
pub open spec fn write_kind_of(n: Seq<char>) -> Option<WriteKind> {
    if n == "create"@ {
        Some(WriteKind::Create)
    } else if n == "replace"@ {
        Some(WriteKind::Replace)
    } else if n == "put"@ {
        Some(WriteKind::Put)
    } else if n == "insert"@ {
        Some(WriteKind::Insert)
    } else if n == "update"@ {
        Some(WriteKind::Update)
    } else if n == "rm"@ {
        Some(WriteKind::Rm)
    } else if n == "delete"@ {
        Some(WriteKind::Delete)
    } else if n == "ensure"@ {
        Some(WriteKind::Ensure)
    } else if n == "ensure_not"@ {
        Some(WriteKind::EnsureNot)
    } else if n == "reconcile"@ {
        Some(WriteKind::Reconcile)
    } else {
        None
    }
}

fn write_kind(n: &String) -> (r: Option<WriteKind>)
    ensures
        r == write_kind_of(n@),
{
    if *n == "create".to_owned() {
        Some(WriteKind::Create)
    } else if *n == "replace".to_owned() {
        Some(WriteKind::Replace)
    } else if *n == "put".to_owned() {
        Some(WriteKind::Put)
    } else if *n == "insert".to_owned() {
        Some(WriteKind::Insert)
    } else if *n == "update".to_owned() {
        Some(WriteKind::Update)
    } else if *n == "rm".to_owned() {
        Some(WriteKind::Rm)
    } else if *n == "delete".to_owned() {
        Some(WriteKind::Delete)
    } else if *n == "ensure".to_owned() {
        Some(WriteKind::Ensure)
    } else if *n == "ensure_not".to_owned() {
        Some(WriteKind::EnsureNot)
    } else if *n == "reconcile".to_owned() {
        Some(WriteKind::Reconcile)
    } else {
        None
    }
}

/// A query without anything in it.
pub open spec fn no_program() -> ProgramV {
    ProgramV {
        rules: Seq::empty(),
        limit: None,
        offset: 0,
        sort: Seq::empty(),
        as_of: None,
        returning: false,
        write: None,
    }
}

/// A query without anything in it.
pub fn empty_program() -> (r: Program)
    ensures
        r@ == no_program(),
{
    Program {
        rules: List::new(),
        limit: None,
        offset: 0,
        sort: List::new(),
        as_of: None,
        returning: false,
        write: None,
    }
}

/// An option of a query behind its name.
#[verifier::opaque]
pub open spec fn p_option(
    t: Seq<TokV>,
    ps: Seq<ParamV>,
    i: int,
    p: ProgramV,
    n: Seq<char>,
    fuel: nat,
) -> Result<(ProgramV, int), Fault>
    decreases fuel,
{
    if fuel == 0 {
        Err(fault(ErrKind::Parse))
    } else {
        if n == "returning"@ {
            Ok(((ProgramV { returning: true, ..p }), i))
        } else if n == "limit"@ {
            match int_at(t, i) {
                Some(k) => if k >= 0 {
                    Ok(((ProgramV { limit: Some(k as u64), ..p }), i + 1))
                } else {
                    Err(fault(ErrKind::Parse))
                },
                None => Err(fault(ErrKind::Parse)),
            }
        } else if n == "offset"@ {
            match int_at(t, i) {
                Some(k) => if k >= 0 {
                    Ok(((ProgramV { offset: k as u64, ..p }), i + 1))
                } else {
                    Err(fault(ErrKind::Parse))
                },
                None => Err(fault(ErrKind::Parse)),
            }
        } else if n == "order"@ || n == "sort"@ {
            match p_sort_keys(t, ps, i, Seq::empty(), (fuel - 1) as nat) {
                Err(f) => Err(f),
                Ok((ks, j)) => {
                    Ok(((ProgramV { sort: ks, ..p }), j))
                }
            }
        } else if n == "as_of"@ {
            match p_expr(t, ps, i, (fuel - 1) as nat) {
                Err(f) => Err(f),
                Ok((e, j)) => {
                    Ok(((ProgramV { as_of: Some(e), ..p }), j))
                }
            }
        } else {
            match write_kind_of(n) {
                None => Err(fault_on(ErrKind::Parse, n)),
                Some(kind) => match p_rel_name(t, ps, i, (fuel - 1) as nat) {
                    Err(f) => Err(f),
                    Ok((rel, j)) => {
                        if is_mark(t, j, Sym::BraceL) {
                            match p_columns(
                                t,
                                ps,
                                j + 1,
                                Seq::empty(),
                                Seq::empty(),
                                false,
                                (fuel - 1) as nat,
                            ) {
                                Err(f) => Err(f),
                                Ok((kv, k)) => {
                                    Ok(
                                        (
                                            (
                                                ProgramV {
                                                    write: Some(
                                                        WriteV {
                                                            kind,
                                                            rel,
                                                            keys: kv.0,
                                                            vals: kv.1,
                                                        },
                                                    ),
                                                    ..p
                                                }
                                            ),
                                            k,
                                        ),
                                    )
                                }
                            }
                        } else {
                            Err(fault(ErrKind::Parse))
                        }
                    }
                }
            }
        }
    }
}

fn parse_option(
    t: &List<Tok>,
    ps: &List<Param>,
    i: usize,
    p: Program,
    n: String,
    fuel: usize,
) -> (r: Result<At<Program>, DbError>)
    requires
        i <= t@.len(),
    ensures
        outcome(r) == p_option(t@, ps@, i as int, p@, n@, fuel as nat),
        r matches Ok(a) ==> a.i <= t@.len(),
    decreases fuel,
{
    reveal(p_option);
    if fuel == 0 {
        Err(err(ErrKind::Parse))
    } else {
        if n == "returning".to_owned() {
            Ok(At { v: Program { returning: true, ..p }, i })
        } else if n == "limit".to_owned() {
            match get_int(t, i) {
                Some(k) => if k >= 0 {
                    Ok(At { v: Program { limit: Some(k as u64), ..p }, i: i + 1 })
                } else {
                    Err(err(ErrKind::Parse))
                },
                None => Err(err(ErrKind::Parse)),
            }
        } else if n == "offset".to_owned() {
            match get_int(t, i) {
                Some(k) => if k >= 0 {
                    Ok(At { v: Program { offset: k as u64, ..p }, i: i + 1 })
                } else {
                    Err(err(ErrKind::Parse))
                },
                None => Err(err(ErrKind::Parse)),
            }
        } else if n == "order".to_owned() || n == "sort".to_owned() {
            match parse_sort_keys(t, ps, i, List::new(), fuel - 1) {
                Err(e) => Err(e),
                Ok(At { v: ks, i: j }) => {
                    Ok(At { v: Program { sort: ks, ..p }, i: j })
                }
            }
        } else if n == "as_of".to_owned() {
            match parse_expr(t, ps, i, fuel - 1) {
                Err(e) => Err(e),
                Ok(At { v: e, i: j }) => {
                    Ok(At { v: Program { as_of: Some(e), ..p }, i: j })
                }
            }
        } else {
            match write_kind(&n) {
                None => Err(err_on(ErrKind::Parse, n.as_str())),
                Some(kind) => match parse_rel_name(t, ps, i, fuel - 1) {
                    Err(e) => Err(e),
                    Ok(At { v: rel, i: j }) => {
                        if at_mark(t, j, Sym::BraceL) {
                            match parse_columns(
                                t,
                                ps,
                                j + 1,
                                List::new(),
                                List::new(),
                                false,
                                fuel - 1,
                            ) {
                                Err(e) => Err(e),
                                Ok(At { v: kv, i: k }) => {
                                    Ok(
                                        At {
                                            v: Program {
                                                write: Some(
                                                    Write { kind, rel, keys: kv.0, vals: kv.1 },
                                                ),
                                                ..p
                                            },
                                            i: k,
                                        },
                                    )
                                }
                            }
                        } else {
                            Err(err(ErrKind::Parse))
                        }
                    }
                }
            }
        }
    }
}

/// A query with one more rule.
pub open spec fn with_rule(p: ProgramV, r: RuleV) -> ProgramV {
    ProgramV { rules: p.rules.push(r), ..p }
}

fn add_rule(p: Program, r: Rule) -> (out: Program)
    ensures
        out@ == with_rule(p@, r@),
{
    let mut q = p;
    q.rules.push(r);
    q
}

/// A query up to the end of the script or a closing brace.
#[verifier::opaque]
pub open spec fn p_program(
    t: Seq<TokV>,
    ps: Seq<ParamV>,
    i: int,
    p: ProgramV,
    fuel: nat,
) -> Result<(ProgramV, int), Fault>
    decreases fuel,
{
    if fuel == 0 {
        Err(fault(ErrKind::Parse))
    } else {
        if i >= t.len() || is_mark(t, i, Sym::BraceR) {
            Ok((p, i))
        } else if is_mark(t, i, Sym::Semi) {
            p_program(t, ps, i + 1, p, (fuel - 1) as nat)
        } else if is_mark(t, i, Sym::Quest) && is_mark(t, i + 1, Sym::BrackL) {
            match p_rule(t, ps, i + 2, "?"@, (fuel - 1) as nat) {
                Err(f) => Err(f),
                Ok((r, j)) => {
                    p_program(t, ps, j, with_rule(p, r), (fuel - 1) as nat)
                }
            }
        } else if is_mark(t, i, Sym::Colon) {
            match word_at(t, i + 1) {
                None => Err(fault(ErrKind::Parse)),
                Some(n) => match p_option(t, ps, i + 2, p, n, (fuel - 1) as nat) {
                    Err(f) => Err(f),
                    Ok((q, j)) => {
                        p_program(t, ps, j, q, (fuel - 1) as nat)
                    }
                },
            }
        } else {
            match word_at(t, i) {
                None => Err(fault(ErrKind::Parse)),
                Some(n) => if is_mark(t, i + 1, Sym::BrackL) {
                    match p_rule(t, ps, i + 2, n, (fuel - 1) as nat) {
                        Err(f) => Err(f),
                        Ok((r, j)) => {
                            p_program(t, ps, j, with_rule(p, r), (fuel - 1) as nat)
                        }
                    }
                } else {
                    Err(fault(ErrKind::Parse))
                },
            }
        }
    }
}

pub fn parse_program(
    t: &List<Tok>,
    ps: &List<Param>,
    i: usize,
    p: Program,
    fuel: usize,
) -> (r: Result<At<Program>, DbError>)
    requires
        i <= t@.len(),
    ensures
        outcome(r) == p_program(t@, ps@, i as int, p@, fuel as nat),
        r matches Ok(a) ==> a.i <= t@.len(),
    decreases fuel,
{
    reveal(p_program);
    if fuel == 0 {
        Err(err(ErrKind::Parse))
    } else {
        if i >= t.len() || at_mark(t, i, Sym::BraceR) {
            Ok(At { v: p, i })
        } else if at_mark(t, i, Sym::Semi) {
            parse_program(t, ps, i + 1, p, fuel - 1)
        } else if at_mark(t, i, Sym::Quest) && at_mark(t, i + 1, Sym::BrackL) {
            match parse_rule(t, ps, i + 2, "?".to_owned(), fuel - 1) {
                Err(e) => Err(e),
                Ok(At { v: r, i: j }) => {
                    parse_program(t, ps, j, add_rule(p, r), fuel - 1)
                }
            }
        } else if at_mark(t, i, Sym::Colon) {
            match get_word(t, i + 1) {
                None => Err(err(ErrKind::Parse)),
                Some(n) => match parse_option(t, ps, i + 2, p, n, fuel - 1) {
                    Err(e) => Err(e),
                    Ok(At { v: q, i: j }) => {
                        parse_program(t, ps, j, q, fuel - 1)
                    }
                },
            }
        } else {
            match get_word(t, i) {
                None => Err(err(ErrKind::Parse)),
                Some(n) => if at_mark(t, i + 1, Sym::BrackL) {
                    match parse_rule(t, ps, i + 2, n, fuel - 1) {
                        Err(e) => Err(e),
                        Ok(At { v: r, i: j }) => {
                            parse_program(t, ps, j, add_rule(p, r), fuel - 1)
                        }
                    }
                } else {
                    Err(err(ErrKind::Parse))
                },
            }
        }
    }
}

} // verus!
