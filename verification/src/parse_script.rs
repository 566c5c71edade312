//! Parsing operations and scripts.
use vstd::prelude::*;

use crate::error::{DbError, ErrKind, Fault, err, err_on, fault, fault_on, outcome};
use crate::expr::{Expr, ExprV};
use crate::lex::{Sym, Tok, TokV, tokens, tokens_from};
use crate::list::List;
use crate::parse::{
    At, at_mark, at_word, get_int, get_word, int_at, is_mark, is_word, p_expr, p_fields, p_operand,
    parse_expr, parse_fields, parse_operand, pushed, word_at,
};
use crate::parse_query::{
    empty_program, no_program, p_program, p_rel_name, parse_program, parse_rel_name,
};
use crate::stmt::{Param, ParamV, Stmt, StmtV, SysOp, SysOpV};
use crate::store::{Access, Lookup, TrigKind, Trigger, TriggerV};

verus! {

/// Names of relations joined by commas.
#[verifier::opaque]
pub open spec fn p_names(
    t: Seq<TokV>,
    ps: Seq<ParamV>,
    i: int,
    acc: Seq<Seq<char>>,
    fuel: nat,
) -> Result<(Seq<Seq<char>>, int), Fault>
    decreases fuel,
{
    if fuel == 0 {
        Err(fault(ErrKind::Parse))
    } else {
        match p_rel_name(t, ps, i, (fuel - 1) as nat) {
            Err(f) => Err(f),
            Ok((n, j)) => {
                if is_mark(t, j, Sym::Comma) {
                    p_names(t, ps, j + 1, acc.push(n), (fuel - 1) as nat)
                } else {
                    Ok((acc.push(n), j))
                }
            }
        }
    }
}

fn parse_names(
    t: &List<Tok>,
    ps: &List<Param>,
    i: usize,
    acc: List<String>,
    fuel: usize,
) -> (r: Result<At<List<String>>, DbError>)
    requires
        i <= t@.len(),
    ensures
        outcome(r) == p_names(t@, ps@, i as int, acc@, fuel as nat),
        r matches Ok(a) ==> a.i <= t@.len(),
    decreases fuel,
{
    reveal(p_names);
    if fuel == 0 {
        Err(err(ErrKind::Parse))
    } else {
        match parse_rel_name(t, ps, i, fuel - 1) {
            Err(e) => Err(e),
            Ok(At { v: n, i: j }) => {
                if at_mark(t, j, Sym::Comma) {
                    parse_names(t, ps, j + 1, pushed(acc, n), fuel - 1)
                } else {
                    Ok(At { v: pushed(acc, n), i: j })
                }
            }
        }
    }
}

/// Words up to a closing brace.
#[verifier::opaque]
pub open spec fn p_words(
    t: Seq<TokV>,
    ps: Seq<ParamV>,
    i: int,
    acc: Seq<Seq<char>>,
    fuel: nat,
) -> Result<(Seq<Seq<char>>, int), Fault>
    decreases fuel,
{
    if fuel == 0 {
        Err(fault(ErrKind::Parse))
    } else {
        if is_mark(t, i, Sym::BraceR) {
            Ok((acc, i + 1))
        } else if is_mark(t, i, Sym::Comma) {
            p_words(t, ps, i + 1, acc, (fuel - 1) as nat)
        } else {
            match word_at(t, i) {
                None => Err(fault(ErrKind::Parse)),
                Some(n) => p_words(t, ps, i + 1, acc.push(n), (fuel - 1) as nat),
            }
        }
    }
}

fn parse_words(
    t: &List<Tok>,
    ps: &List<Param>,
    i: usize,
    acc: List<String>,
    fuel: usize,
) -> (r: Result<At<List<String>>, DbError>)
    requires
        i <= t@.len(),
    ensures
        outcome(r) == p_words(t@, ps@, i as int, acc@, fuel as nat),
        r matches Ok(a) ==> a.i <= t@.len(),
    decreases fuel,
{
    reveal(p_words);
    if fuel == 0 {
        Err(err(ErrKind::Parse))
    } else {
        if at_mark(t, i, Sym::BraceR) {
            Ok(At { v: acc, i: i + 1 })
        } else if at_mark(t, i, Sym::Comma) {
            parse_words(t, ps, i + 1, acc, fuel - 1)
        } else {
            match get_word(t, i) {
                None => Err(err(ErrKind::Parse)),
                Some(n) => parse_words(t, ps, i + 1, pushed(acc, n), fuel - 1),
            }
        }
    }
}

/// The writes that a word stands for.
pub open spec fn event_of(n: Seq<char>) -> Option<TrigKind> {
    if n == "put"@ {
        Some(TrigKind::Put)
    } else if n == "rm"@ {
        Some(TrigKind::Rm)
    } else if n == "replace"@ {
        Some(TrigKind::Replace)
    } else {
        None
    }
}

fn event(n: &String) -> (r: Option<TrigKind>)
    ensures
        r == event_of(n@),
{
    if *n == "put".to_owned() {
        Some(TrigKind::Put)
    } else if *n == "rm".to_owned() {
        Some(TrigKind::Rm)
    } else if *n == "replace".to_owned() {
        Some(TrigKind::Replace)
    } else {
        None
    }
}

/// The level of access that a word stands for.
pub open spec fn access_of(n: Seq<char>) -> Option<Access> {
    if n == "normal"@ {
        Some(Access::Normal)
    } else if n == "protected"@ {
        Some(Access::Protected)
    } else if n == "read_only"@ {
        Some(Access::ReadOnly)
    } else if n == "hidden"@ {
        Some(Access::Hidden)
    } else {
        None
    }
}

fn access(n: &String) -> (r: Option<Access>)
    ensures
        r == access_of(n@),
{
    if *n == "normal".to_owned() {
        Some(Access::Normal)
    } else if *n == "protected".to_owned() {
        Some(Access::Protected)
    } else if *n == "read_only".to_owned() {
        Some(Access::ReadOnly)
    } else if *n == "hidden".to_owned() {
        Some(Access::Hidden)
    } else {
        None
    }
}

/// Triggers: events with their queries.
#[verifier::opaque]
pub open spec fn p_triggers(
    t: Seq<TokV>,
    ps: Seq<ParamV>,
    i: int,
    acc: Seq<TriggerV>,
    fuel: nat,
) -> Result<(Seq<TriggerV>, int), Fault>
    decreases fuel,
{
    if fuel == 0 {
        Err(fault(ErrKind::Parse))
    } else {
        if is_word(t, i, "on"@) {
            match word_at(t, i + 1) {
                None => Err(fault(ErrKind::Parse)),
                Some(n) => match event_of(n) {
                    None => Err(fault_on(ErrKind::Parse, n)),
                    Some(on) => if is_mark(t, i + 2, Sym::BraceL) {
                        match p_program(t, ps, i + 3, no_program(), (fuel - 1) as nat) {
                            Err(f) => Err(f),
                            Ok((prog, j)) => {
                                if is_mark(t, j, Sym::BraceR) {
                                    p_triggers(
                                        t,
                                        ps,
                                        j + 1,
                                        acc.push(TriggerV { on, prog }),
                                        (fuel - 1) as nat,
                                    )
                                } else {
                                    Err(fault(ErrKind::Parse))
                                }
                            }
                        }
                    } else {
                        Err(fault(ErrKind::Parse))
                    },
                },
            }
        } else {
            Ok((acc, i))
        }
    }
}

fn parse_triggers(
    t: &List<Tok>,
    ps: &List<Param>,
    i: usize,
    acc: List<Trigger>,
    fuel: usize,
) -> (r: Result<At<List<Trigger>>, DbError>)
    requires
        i <= t@.len(),
    ensures
        outcome(r) == p_triggers(t@, ps@, i as int, acc@, fuel as nat),
        r matches Ok(a) ==> a.i <= t@.len(),
    decreases fuel,
{
    reveal(p_triggers);
    if fuel == 0 {
        Err(err(ErrKind::Parse))
    } else {
        if at_word(t, i, "on") {
            match get_word(t, i + 1) {
                None => Err(err(ErrKind::Parse)),
                Some(n) => match event(&n) {
                    None => Err(err_on(ErrKind::Parse, n.as_str())),
                    Some(on) => if at_mark(t, i + 2, Sym::BraceL) {
                        match parse_program(t, ps, i + 3, empty_program(), fuel - 1) {
                            Err(e) => Err(e),
                            Ok(At { v: prog, i: j }) => {
                                if at_mark(t, j, Sym::BraceR) {
                                    parse_triggers(
                                        t,
                                        ps,
                                        j + 1,
                                        pushed(acc, Trigger { on, prog }),
                                        fuel - 1,
                                    )
                                } else {
                                    Err(err(ErrKind::Parse))
                                }
                            }
                        }
                    } else {
                        Err(err(ErrKind::Parse))
                    },
                },
            }
        } else {
            Ok(At { v: acc, i })
        }
    }
}

/// An operation on indices, behind its name.
#[verifier::opaque]
pub open spec fn p_index(
    t: Seq<TokV>,
    ps: Seq<ParamV>,
    i: int,
    fuel: nat,
) -> Result<(SysOpV, int), Fault>
    decreases fuel,
{
    if fuel == 0 {
        Err(fault(ErrKind::Parse))
    } else {
        if !(is_word(t, i, "create"@) || is_word(t, i, "drop"@)) {
            Err(fault(ErrKind::Parse))
        } else {
            match word_at(t, i + 1) {
                None => Err(fault(ErrKind::Parse)),
                Some(rel) => if is_mark(t, i + 2, Sym::Colon) {
                    match word_at(t, i + 3) {
                        None => Err(fault(ErrKind::Parse)),
                        Some(ix) => if is_word(t, i, "create"@) && is_mark(t, i + 4, Sym::BraceL) {
                            match p_words(t, ps, i + 5, Seq::empty(), (fuel - 1) as nat) {
                                Err(f) => Err(f),
                                Ok((cols, j)) => {
                                    Ok((SysOpV::IndexCreate(rel, ix, cols), j))
                                }
                            }
                        } else if is_word(t, i, "drop"@) {
                            Ok((SysOpV::IndexDrop(rel, ix), i + 4))
                        } else {
                            Err(fault(ErrKind::Parse))
                        },
                    }
                } else {
                    Err(fault(ErrKind::Parse))
                },
            }
        }
    }
}

fn parse_index(
    t: &List<Tok>,
    ps: &List<Param>,
    i: usize,
    fuel: usize,
) -> (r: Result<At<SysOp>, DbError>)
    requires
        i <= t@.len(),
    ensures
        outcome(r) == p_index(t@, ps@, i as int, fuel as nat),
        r matches Ok(a) ==> a.i <= t@.len(),
    decreases fuel,
{
    reveal(p_index);
    if fuel == 0 {
        Err(err(ErrKind::Parse))
    } else {
        if !(at_word(t, i, "create") || at_word(t, i, "drop")) {
            Err(err(ErrKind::Parse))
        } else {
            match get_word(t, i + 1) {
                None => Err(err(ErrKind::Parse)),
                Some(rel) => if at_mark(t, i + 2, Sym::Colon) {
                    match get_word(t, i + 3) {
                        None => Err(err(ErrKind::Parse)),
                        Some(ix) => if at_word(t, i, "create") && at_mark(t, i + 4, Sym::BraceL) {
                            match parse_words(t, ps, i + 5, List::new(), fuel - 1) {
                                Err(e) => Err(e),
                                Ok(At { v: cols, i: j }) => {
                                    Ok(At { v: SysOp::IndexCreate(rel, ix, cols), i: j })
                                }
                            }
                        } else if at_word(t, i, "drop") {
                            Ok(At { v: SysOp::IndexDrop(rel, ix), i: i + 4 })
                        } else {
                            Err(err(ErrKind::Parse))
                        },
                    }
                } else {
                    Err(err(ErrKind::Parse))
                },
            }
        }
    }
}

/// An operation on search indices, behind its name.
#[verifier::opaque]
pub open spec fn p_search(
    t: Seq<TokV>,
    ps: Seq<ParamV>,
    i: int,
    kind: Lookup,
    fuel: nat,
) -> Result<(SysOpV, int), Fault>
    decreases fuel,
{
    if fuel == 0 {
        Err(fault(ErrKind::Parse))
    } else {
        if !(is_word(t, i, "create"@) || is_word(t, i, "drop"@)) {
            Err(fault(ErrKind::Parse))
        } else {
            match word_at(t, i + 1) {
                None => Err(fault(ErrKind::Parse)),
                Some(rel) => if is_mark(t, i + 2, Sym::Colon) {
                    match word_at(t, i + 3) {
                        None => Err(fault(ErrKind::Parse)),
                        Some(ix) => if is_word(t, i, "create"@) && is_mark(t, i + 4, Sym::BraceL) {
                            match p_fields(t, ps, i + 5, Seq::empty(), (fuel - 1) as nat) {
                                Err(f) => Err(f),
                                Ok((opts, j)) => {
                                    if is_mark(t, j, Sym::BraceR) {
                                        Ok((SysOpV::SearchCreate(rel, ix, kind, opts), j + 1))
                                    } else {
                                        Err(fault(ErrKind::Parse))
                                    }
                                }
                            }
                        } else if is_word(t, i, "drop"@) {
                            Ok((SysOpV::SearchDrop(rel, ix, kind), i + 4))
                        } else {
                            Err(fault(ErrKind::Parse))
                        },
                    }
                } else {
                    Err(fault(ErrKind::Parse))
                },
            }
        }
    }
}

fn parse_search(
    t: &List<Tok>,
    ps: &List<Param>,
    i: usize,
    kind: Lookup,
    fuel: usize,
) -> (r: Result<At<SysOp>, DbError>)
    requires
        i <= t@.len(),
    ensures
        outcome(r) == p_search(t@, ps@, i as int, kind, fuel as nat),
        r matches Ok(a) ==> a.i <= t@.len(),
    decreases fuel,
{
    reveal(p_search);
    if fuel == 0 {
        Err(err(ErrKind::Parse))
    } else {
        if !(at_word(t, i, "create") || at_word(t, i, "drop")) {
            Err(err(ErrKind::Parse))
        } else {
            match get_word(t, i + 1) {
                None => Err(err(ErrKind::Parse)),
                Some(rel) => if at_mark(t, i + 2, Sym::Colon) {
                    match get_word(t, i + 3) {
                        None => Err(err(ErrKind::Parse)),
                        Some(ix) => if at_word(t, i, "create") && at_mark(t, i + 4, Sym::BraceL) {
                            match parse_fields(t, ps, i + 5, List::new(), fuel - 1) {
                                Err(e) => Err(e),
                                Ok(At { v: opts, i: j }) => {
                                    if at_mark(t, j, Sym::BraceR) {
                                        Ok(
                                            At {
                                                v: SysOp::SearchCreate(rel, ix, kind, opts),
                                                i: j + 1,
                                            },
                                        )
                                    } else {
                                        Err(err(ErrKind::Parse))
                                    }
                                }
                            }
                        } else if at_word(t, i, "drop") {
                            Ok(At { v: SysOp::SearchDrop(rel, ix, kind), i: i + 4 })
                        } else {
                            Err(err(ErrKind::Parse))
                        },
                    }
                } else {
                    Err(err(ErrKind::Parse))
                },
            }
        }
    }
}

/// The limit and the offset of a history, where they are given.
#[verifier::opaque]
pub open spec fn p_history(
    t: Seq<TokV>,
    ps: Seq<ParamV>,
    i: int,
    rel: Seq<char>,
    keys: ExprV,
    fuel: nat,
) -> Result<(SysOpV, int), Fault>
    decreases fuel,
{
    if fuel == 0 {
        Err(fault(ErrKind::Parse))
    } else {
        match int_at(t, i) {
            None => Ok((SysOpV::History(rel, keys, None, 0), i)),
            Some(l) => match int_at(t, i + 1) {
                None => Ok((SysOpV::History(rel, keys, Some(l as u64), 0), i + 1)),
                Some(o) => Ok((SysOpV::History(rel, keys, Some(l as u64), o as u64), i + 2)),
            },
        }
    }
}

fn parse_history(
    t: &List<Tok>,
    ps: &List<Param>,
    i: usize,
    rel: String,
    keys: Expr,
    fuel: usize,
) -> (r: Result<At<SysOp>, DbError>)
    requires
        i <= t@.len(),
    ensures
        outcome(r) == p_history(t@, ps@, i as int, rel@, keys@, fuel as nat),
        r matches Ok(a) ==> a.i <= t@.len(),
    decreases fuel,
{
    reveal(p_history);
    if fuel == 0 {
        Err(err(ErrKind::Parse))
    } else {
        match get_int(t, i) {
            None => Ok(At { v: SysOp::History(rel, keys, None, 0), i }),
            Some(l) => match get_int(t, i + 1) {
                None => Ok(At { v: SysOp::History(rel, keys, Some(l as u64), 0), i: i + 1 }),
                Some(o) => Ok(
                    At { v: SysOp::History(rel, keys, Some(l as u64), o as u64), i: i + 2 },
                ),
            },
        }
    }
}

/// An operation behind its colons.
#[verifier::opaque]
pub open spec fn p_sysop(
    t: Seq<TokV>,
    ps: Seq<ParamV>,
    i: int,
    fuel: nat,
) -> Result<(SysOpV, int), Fault>
    decreases fuel,
{
    if fuel == 0 {
        Err(fault(ErrKind::Parse))
    } else {
        if is_word(t, i, "relations"@) {
            Ok((SysOpV::Relations, i + 1))
        } else if is_word(t, i, "columns"@) {
            match p_rel_name(t, ps, i + 1, (fuel - 1) as nat) {
                Err(f) => Err(f),
                Ok((n, j)) => {
                    Ok((SysOpV::Columns(n), j))
                }
            }
        } else if is_word(t, i, "access_level"@) {
            match word_at(t, i + 1) {
                None => Err(fault(ErrKind::Parse)),
                Some(n) => match access_of(n) {
                    None => Err(fault_on(ErrKind::Parse, n)),
                    Some(a) => match p_names(t, ps, i + 2, Seq::empty(), (fuel - 1) as nat) {
                        Err(f) => Err(f),
                        Ok((ns, j)) => {
                            Ok((SysOpV::SetAccess(a, ns), j))
                        }
                    },
                },
            }
        } else if is_word(t, i, "index"@) {
            p_index(t, ps, i + 1, (fuel - 1) as nat)
        } else if is_word(t, i, "fts"@) {
            p_search(t, ps, i + 1, Lookup::Words, (fuel - 1) as nat)
        } else if is_word(t, i, "hnsw"@) {
            p_search(t, ps, i + 1, Lookup::Vectors, (fuel - 1) as nat)
        } else if is_word(t, i, "lsh"@) {
            p_search(t, ps, i + 1, Lookup::Similar, (fuel - 1) as nat)
        } else if is_word(t, i, "indices"@) {
            match p_rel_name(t, ps, i + 1, (fuel - 1) as nat) {
                Err(f) => Err(f),
                Ok((n, j)) => {
                    Ok((SysOpV::Indices(n), j))
                }
            }
        } else if is_word(t, i, "set_triggers"@) {
            match p_rel_name(t, ps, i + 1, (fuel - 1) as nat) {
                Err(f) => Err(f),
                Ok((n, j)) => {
                    match p_triggers(t, ps, j, Seq::empty(), (fuel - 1) as nat) {
                        Err(f) => Err(f),
                        Ok((ts, k)) => {
                            Ok((SysOpV::SetTriggers(n, ts), k))
                        }
                    }
                }
            }
        } else if is_word(t, i, "remove"@) {
            match p_names(t, ps, i + 1, Seq::empty(), (fuel - 1) as nat) {
                Err(f) => Err(f),
                Ok((ns, j)) => {
                    Ok((SysOpV::Remove(ns), j))
                }
            }
        } else if is_word(t, i, "history"@) {
            match p_rel_name(t, ps, i + 1, (fuel - 1) as nat) {
                Err(f) => Err(f),
                Ok((n, j)) => {
                    match p_operand(t, ps, j, (fuel - 1) as nat) {
                        Err(f) => Err(f),
                        Ok((e, k)) => {
                            p_history(t, ps, k, n, e, (fuel - 1) as nat)
                        }
                    }
                }
            }
        } else if is_word(t, i, "history_gc"@) {
            match p_rel_name(t, ps, i + 1, (fuel - 1) as nat) {
                Err(f) => Err(f),
                Ok((n, j)) => {
                    match p_expr(t, ps, j, (fuel - 1) as nat) {
                        Err(f) => Err(f),
                        Ok((e, k)) => {
                            Ok((SysOpV::HistoryGc(n, e), k))
                        }
                    }
                }
            }
        } else if is_word(t, i, "evict"@) {
            match p_rel_name(t, ps, i + 1, (fuel - 1) as nat) {
                Err(f) => Err(f),
                Ok((n, j)) => {
                    match p_operand(t, ps, j, (fuel - 1) as nat) {
                        Err(f) => Err(f),
                        Ok((e, k)) => {
                            if is_word(t, k, "unredacted"@) {
                                Ok((SysOpV::Evict(n, e, true), k + 1))
                            } else {
                                Ok((SysOpV::Evict(n, e, false), k))
                            }
                        }
                    }
                }
            }
        } else if is_word(t, i, "repair_corrupt"@) {
            match p_rel_name(t, ps, i + 1, (fuel - 1) as nat) {
                Err(f) => Err(f),
                Ok((n, j)) => {
                    Ok((SysOpV::Repair(n), j))
                }
            }
        } else if is_word(t, i, "explain"@) && is_mark(t, i + 1, Sym::BraceL) {
            match p_program(t, ps, i + 2, no_program(), (fuel - 1) as nat) {
                Err(f) => Err(f),
                Ok((p, j)) => {
                    if is_mark(t, j, Sym::BraceR) {
                        Ok((SysOpV::Explain(p), j + 1))
                    } else {
                        Err(fault(ErrKind::Parse))
                    }
                }
            }
        } else {
            Err(fault(ErrKind::Parse))
        }
    }
}

fn parse_sysop(
    t: &List<Tok>,
    ps: &List<Param>,
    i: usize,
    fuel: usize,
) -> (r: Result<At<SysOp>, DbError>)
    requires
        i <= t@.len(),
    ensures
        outcome(r) == p_sysop(t@, ps@, i as int, fuel as nat),
        r matches Ok(a) ==> a.i <= t@.len(),
    decreases fuel,
{
    reveal(p_sysop);
    if fuel == 0 {
        Err(err(ErrKind::Parse))
    } else {
        if at_word(t, i, "relations") {
            Ok(At { v: SysOp::Relations, i: i + 1 })
        } else if at_word(t, i, "columns") {
            match parse_rel_name(t, ps, i + 1, fuel - 1) {
                Err(e) => Err(e),
                Ok(At { v: n, i: j }) => {
                    Ok(At { v: SysOp::Columns(n), i: j })
                }
            }
        } else if at_word(t, i, "access_level") {
            match get_word(t, i + 1) {
                None => Err(err(ErrKind::Parse)),
                Some(n) => match access(&n) {
                    None => Err(err_on(ErrKind::Parse, n.as_str())),
                    Some(a) => match parse_names(t, ps, i + 2, List::new(), fuel - 1) {
                        Err(e) => Err(e),
                        Ok(At { v: ns, i: j }) => {
                            Ok(At { v: SysOp::SetAccess(a, ns), i: j })
                        }
                    },
                },
            }
        } else if at_word(t, i, "index") {
            parse_index(t, ps, i + 1, fuel - 1)
        } else if at_word(t, i, "fts") {
            parse_search(t, ps, i + 1, Lookup::Words, fuel - 1)
        } else if at_word(t, i, "hnsw") {
            parse_search(t, ps, i + 1, Lookup::Vectors, fuel - 1)
        } else if at_word(t, i, "lsh") {
            parse_search(t, ps, i + 1, Lookup::Similar, fuel - 1)
        } else if at_word(t, i, "indices") {
            match parse_rel_name(t, ps, i + 1, fuel - 1) {
                Err(e) => Err(e),
                Ok(At { v: n, i: j }) => {
                    Ok(At { v: SysOp::Indices(n), i: j })
                }
            }
        } else if at_word(t, i, "set_triggers") {
            match parse_rel_name(t, ps, i + 1, fuel - 1) {
                Err(e) => Err(e),
                Ok(At { v: n, i: j }) => {
                    match parse_triggers(t, ps, j, List::new(), fuel - 1) {
                        Err(e) => Err(e),
                        Ok(At { v: ts, i: k }) => {
                            Ok(At { v: SysOp::SetTriggers(n, ts), i: k })
                        }
                    }
                }
            }
        } else if at_word(t, i, "remove") {
            match parse_names(t, ps, i + 1, List::new(), fuel - 1) {
                Err(e) => Err(e),
                Ok(At { v: ns, i: j }) => {
                    Ok(At { v: SysOp::Remove(ns), i: j })
                }
            }
        } else if at_word(t, i, "history") {
            match parse_rel_name(t, ps, i + 1, fuel - 1) {
                Err(e) => Err(e),
                Ok(At { v: n, i: j }) => {
                    match parse_operand(t, ps, j, fuel - 1) {
                        Err(e) => Err(e),
                        Ok(At { v: e, i: k }) => {
                            parse_history(t, ps, k, n, e, fuel - 1)
                        }
                    }
                }
            }
        } else if at_word(t, i, "history_gc") {
            match parse_rel_name(t, ps, i + 1, fuel - 1) {
                Err(e) => Err(e),
                Ok(At { v: n, i: j }) => {
                    match parse_expr(t, ps, j, fuel - 1) {
                        Err(e) => Err(e),
                        Ok(At { v: e, i: k }) => {
                            Ok(At { v: SysOp::HistoryGc(n, e), i: k })
                        }
                    }
                }
            }
        } else if at_word(t, i, "evict") {
            match parse_rel_name(t, ps, i + 1, fuel - 1) {
                Err(e) => Err(e),
                Ok(At { v: n, i: j }) => {
                    match parse_operand(t, ps, j, fuel - 1) {
                        Err(e) => Err(e),
                        Ok(At { v: e, i: k }) => {
                            if at_word(t, k, "unredacted") {
                                Ok(At { v: SysOp::Evict(n, e, true), i: k + 1 })
                            } else {
                                Ok(At { v: SysOp::Evict(n, e, false), i: k })
                            }
                        }
                    }
                }
            }
        } else if at_word(t, i, "repair_corrupt") {
            match parse_rel_name(t, ps, i + 1, fuel - 1) {
                Err(e) => Err(e),
                Ok(At { v: n, i: j }) => {
                    Ok(At { v: SysOp::Repair(n), i: j })
                }
            }
        } else if at_word(t, i, "explain") && at_mark(t, i + 1, Sym::BraceL) {
            match parse_program(t, ps, i + 2, empty_program(), fuel - 1) {
                Err(e) => Err(e),
                Ok(At { v: p, i: j }) => {
                    if at_mark(t, j, Sym::BraceR) {
                        Ok(At { v: SysOp::Explain(p), i: j + 1 })
                    } else {
                        Err(err(ErrKind::Parse))
                    }
                }
            }
        } else {
            Err(err(ErrKind::Parse))
        }
    }
}

/// A query or an operation in braces, behind the opening one.
#[verifier::opaque]
pub open spec fn p_block(
    t: Seq<TokV>,
    ps: Seq<ParamV>,
    i: int,
    ignore: bool,
    fuel: nat,
) -> Result<(StmtV, int), Fault>
    decreases fuel,
{
    if fuel == 0 {
        Err(fault(ErrKind::Parse))
    } else {
        if is_mark(t, i, Sym::Colons) {
            match p_sysop(t, ps, i + 1, (fuel - 1) as nat) {
                Err(f) => Err(f),
                Ok((op, j)) => {
                    if is_mark(t, j, Sym::BraceR) {
                        p_kept(t, ps, j + 1, StmtV::Sys(op, None, ignore), (fuel - 1) as nat)
                    } else {
                        Err(fault(ErrKind::Parse))
                    }
                }
            }
        } else {
            match p_program(t, ps, i, no_program(), (fuel - 1) as nat) {
                Err(f) => Err(f),
                Ok((p, j)) => {
                    if is_mark(t, j, Sym::BraceR) {
                        p_kept(t, ps, j + 1, StmtV::Query(p, None, ignore), (fuel - 1) as nat)
                    } else {
                        Err(fault(ErrKind::Parse))
                    }
                }
            }
        }
    }
}

fn parse_block(
    t: &List<Tok>,
    ps: &List<Param>,
    i: usize,
    ignore: bool,
    fuel: usize,
) -> (r: Result<At<Stmt>, DbError>)
    requires
        i <= t@.len(),
    ensures
        outcome(r) == p_block(t@, ps@, i as int, ignore, fuel as nat),
        r matches Ok(a) ==> a.i <= t@.len(),
    decreases fuel,
{
    reveal(p_block);
    if fuel == 0 {
        Err(err(ErrKind::Parse))
    } else {
        if at_mark(t, i, Sym::Colons) {
            match parse_sysop(t, ps, i + 1, fuel - 1) {
                Err(e) => Err(e),
                Ok(At { v: op, i: j }) => {
                    if at_mark(t, j, Sym::BraceR) {
                        parse_kept(t, ps, j + 1, Stmt::Sys(op, None, ignore), fuel - 1)
                    } else {
                        Err(err(ErrKind::Parse))
                    }
                }
            }
        } else {
            match parse_program(t, ps, i, empty_program(), fuel - 1) {
                Err(e) => Err(e),
                Ok(At { v: p, i: j }) => {
                    if at_mark(t, j, Sym::BraceR) {
                        parse_kept(t, ps, j + 1, Stmt::Query(p, None, ignore), fuel - 1)
                    } else {
                        Err(err(ErrKind::Parse))
                    }
                }
            }
        }
    }
}

/// A statement whose rows a relation keeps.
pub open spec fn keeping(s: StmtV, n: Seq<char>) -> StmtV {
    match s {
        StmtV::Query(p, _, g) => StmtV::Query(p, Some(n), g),
        StmtV::Sys(op, _, g) => StmtV::Sys(op, Some(n), g),
        other => other,
    }
}

fn keep(s: Stmt, n: String) -> (r: Stmt)
    ensures
        r@ == keeping(s@, n@),
{
    match s {
        Stmt::Query(p, _, g) => Stmt::Query(p, Some(n), g),
        Stmt::Sys(op, _, g) => Stmt::Sys(op, Some(n), g),
        other => other,
    }
}

/// The relation that keeps the rows of a statement, where one is named.
#[verifier::opaque]
pub open spec fn p_kept(
    t: Seq<TokV>,
    ps: Seq<ParamV>,
    i: int,
    s: StmtV,
    fuel: nat,
) -> Result<(StmtV, int), Fault>
    decreases fuel,
{
    if fuel == 0 {
        Err(fault(ErrKind::Parse))
    } else {
        if is_word(t, i, "as"@) {
            match word_at(t, i + 1) {
                None => Err(fault(ErrKind::Parse)),
                Some(n) => Ok((keeping(s, n), i + 2)),
            }
        } else {
            Ok((s, i))
        }
    }
}

fn parse_kept(
    t: &List<Tok>,
    ps: &List<Param>,
    i: usize,
    s: Stmt,
    fuel: usize,
) -> (r: Result<At<Stmt>, DbError>)
    requires
        i <= t@.len(),
    ensures
        outcome(r) == p_kept(t@, ps@, i as int, s@, fuel as nat),
        r matches Ok(a) ==> a.i <= t@.len(),
    decreases fuel,
{
    reveal(p_kept);
    if fuel == 0 {
        Err(err(ErrKind::Parse))
    } else {
        if at_word(t, i, "as") {
            match get_word(t, i + 1) {
                None => Err(err(ErrKind::Parse)),
                Some(n) => Ok(At { v: keep(s, n), i: i + 2 }),
            }
        } else {
            Ok(At { v: s, i })
        }
    }
}

/// What a condition asks: a query in braces or a relation.
#[verifier::opaque]
pub open spec fn p_condition(
    t: Seq<TokV>,
    ps: Seq<ParamV>,
    i: int,
    neg: bool,
    fuel: nat,
) -> Result<(StmtV, int), Fault>
    decreases fuel,
{
    if fuel == 0 {
        Err(fault(ErrKind::Parse))
    } else {
        if is_mark(t, i, Sym::BraceL) {
            match p_program(t, ps, i + 1, no_program(), (fuel - 1) as nat) {
                Err(f) => Err(f),
                Ok((p, j)) => {
                    if is_mark(t, j, Sym::BraceR) {
                        Ok((StmtV::IfQuery(p, neg), j + 1))
                    } else {
                        Err(fault(ErrKind::Parse))
                    }
                }
            }
        } else {
            match p_rel_name(t, ps, i, (fuel - 1) as nat) {
                Err(f) => Err(f),
                Ok((n, j)) => {
                    Ok((StmtV::IfRel(n, neg), j))
                }
            }
        }
    }
}

fn parse_condition(
    t: &List<Tok>,
    ps: &List<Param>,
    i: usize,
    neg: bool,
    fuel: usize,
) -> (r: Result<At<Stmt>, DbError>)
    requires
        i <= t@.len(),
    ensures
        outcome(r) == p_condition(t@, ps@, i as int, neg, fuel as nat),
        r matches Ok(a) ==> a.i <= t@.len(),
    decreases fuel,
{
    reveal(p_condition);
    if fuel == 0 {
        Err(err(ErrKind::Parse))
    } else {
        if at_mark(t, i, Sym::BraceL) {
            match parse_program(t, ps, i + 1, empty_program(), fuel - 1) {
                Err(e) => Err(e),
                Ok(At { v: p, i: j }) => {
                    if at_mark(t, j, Sym::BraceR) {
                        Ok(At { v: Stmt::IfQuery(p, neg), i: j + 1 })
                    } else {
                        Err(err(ErrKind::Parse))
                    }
                }
            }
        } else {
            match parse_rel_name(t, ps, i, fuel - 1) {
                Err(e) => Err(e),
                Ok(At { v: n, i: j }) => {
                    Ok(At { v: Stmt::IfRel(n, neg), i: j })
                }
            }
        }
    }
}

/// What a script ends with.
#[verifier::opaque]
pub open spec fn p_returned(
    t: Seq<TokV>,
    ps: Seq<ParamV>,
    i: int,
    fuel: nat,
) -> Result<(StmtV, int), Fault>
    decreases fuel,
{
    if fuel == 0 {
        Err(fault(ErrKind::Parse))
    } else {
        if is_mark(t, i, Sym::BraceL) {
            match p_program(t, ps, i + 1, no_program(), (fuel - 1) as nat) {
                Err(f) => Err(f),
                Ok((p, j)) => {
                    if is_mark(t, j, Sym::BraceR) {
                        Ok((StmtV::ReturnQuery(p), j + 1))
                    } else {
                        Err(fault(ErrKind::Parse))
                    }
                }
            }
        } else {
            match word_at(t, i) {
                None => Ok((StmtV::Return, i)),
                Some(_) => match p_rel_name(t, ps, i, (fuel - 1) as nat) {
                    Err(f) => Err(f),
                    Ok((n, j)) => {
                        Ok((StmtV::ReturnRel(n), j))
                    }
                },
            }
        }
    }
}

fn parse_returned(
    t: &List<Tok>,
    ps: &List<Param>,
    i: usize,
    fuel: usize,
) -> (r: Result<At<Stmt>, DbError>)
    requires
        i <= t@.len(),
    ensures
        outcome(r) == p_returned(t@, ps@, i as int, fuel as nat),
        r matches Ok(a) ==> a.i <= t@.len(),
    decreases fuel,
{
    reveal(p_returned);
    if fuel == 0 {
        Err(err(ErrKind::Parse))
    } else {
        if at_mark(t, i, Sym::BraceL) {
            match parse_program(t, ps, i + 1, empty_program(), fuel - 1) {
                Err(e) => Err(e),
                Ok(At { v: p, i: j }) => {
                    if at_mark(t, j, Sym::BraceR) {
                        Ok(At { v: Stmt::ReturnQuery(p), i: j + 1 })
                    } else {
                        Err(err(ErrKind::Parse))
                    }
                }
            }
        } else {
            match get_word(t, i) {
                None => Ok(At { v: Stmt::Return, i }),
                Some(_) => match parse_rel_name(t, ps, i, fuel - 1) {
                    Err(e) => Err(e),
                    Ok(At { v: n, i: j }) => {
                        Ok(At { v: Stmt::ReturnRel(n), i: j })
                    }
                },
            }
        }
    }
}

/// A statement behind its percent sign.
#[verifier::opaque]
pub open spec fn p_directive(
    t: Seq<TokV>,
    ps: Seq<ParamV>,
    i: int,
    fuel: nat,
) -> Result<(StmtV, int), Fault>
    decreases fuel,
{
    if fuel == 0 {
        Err(fault(ErrKind::Parse))
    } else {
        if is_word(t, i, "loop"@) {
            Ok((StmtV::Loop, i + 1))
        } else if is_word(t, i, "if"@) {
            p_condition(t, ps, i + 1, false, (fuel - 1) as nat)
        } else if is_word(t, i, "if_not"@) {
            p_condition(t, ps, i + 1, true, (fuel - 1) as nat)
        } else if is_word(t, i, "else"@) {
            Ok((StmtV::Else, i + 1))
        } else if is_word(t, i, "end"@) {
            Ok((StmtV::End, i + 1))
        } else if is_word(t, i, "break"@) {
            Ok((StmtV::Break, i + 1))
        } else if is_word(t, i, "continue"@) {
            Ok((StmtV::Continue, i + 1))
        } else if is_word(t, i, "return"@) {
            p_returned(t, ps, i + 1, (fuel - 1) as nat)
        } else if is_word(t, i, "ignore_error"@) && is_mark(t, i + 1, Sym::BraceL) {
            p_block(t, ps, i + 2, true, (fuel - 1) as nat)
        } else {
            Err(fault(ErrKind::Parse))
        }
    }
}

fn parse_directive(
    t: &List<Tok>,
    ps: &List<Param>,
    i: usize,
    fuel: usize,
) -> (r: Result<At<Stmt>, DbError>)
    requires
        i <= t@.len(),
    ensures
        outcome(r) == p_directive(t@, ps@, i as int, fuel as nat),
        r matches Ok(a) ==> a.i <= t@.len(),
    decreases fuel,
{
    reveal(p_directive);
    if fuel == 0 {
        Err(err(ErrKind::Parse))
    } else {
        if at_word(t, i, "loop") {
            Ok(At { v: Stmt::Loop, i: i + 1 })
        } else if at_word(t, i, "if") {
            parse_condition(t, ps, i + 1, false, fuel - 1)
        } else if at_word(t, i, "if_not") {
            parse_condition(t, ps, i + 1, true, fuel - 1)
        } else if at_word(t, i, "else") {
            Ok(At { v: Stmt::Else, i: i + 1 })
        } else if at_word(t, i, "end") {
            Ok(At { v: Stmt::End, i: i + 1 })
        } else if at_word(t, i, "break") {
            Ok(At { v: Stmt::Break, i: i + 1 })
        } else if at_word(t, i, "continue") {
            Ok(At { v: Stmt::Continue, i: i + 1 })
        } else if at_word(t, i, "return") {
            parse_returned(t, ps, i + 1, fuel - 1)
        } else if at_word(t, i, "ignore_error") && at_mark(t, i + 1, Sym::BraceL) {
            parse_block(t, ps, i + 2, true, fuel - 1)
        } else {
            Err(err(ErrKind::Parse))
        }
    }
}

/// Statements up to the end of the script.
#[verifier::opaque]
pub open spec fn p_stmts(
    t: Seq<TokV>,
    ps: Seq<ParamV>,
    i: int,
    acc: Seq<StmtV>,
    fuel: nat,
) -> Result<(Seq<StmtV>, int), Fault>
    decreases fuel,
{
    if fuel == 0 {
        Err(fault(ErrKind::Parse))
    } else {
        if i >= t.len() {
            Ok((acc, i))
        } else if is_mark(t, i, Sym::BraceL) {
            match p_block(t, ps, i + 1, false, (fuel - 1) as nat) {
                Err(f) => Err(f),
                Ok((s, j)) => {
                    p_stmts(t, ps, j, acc.push(s), (fuel - 1) as nat)
                }
            }
        } else if is_mark(t, i, Sym::Percent) && is_word(t, i + 1, "then"@) {
            p_stmts(t, ps, i + 2, acc, (fuel - 1) as nat)
        } else if is_mark(t, i, Sym::Percent) {
            match p_directive(t, ps, i + 1, (fuel - 1) as nat) {
                Err(f) => Err(f),
                Ok((s, j)) => {
                    p_stmts(t, ps, j, acc.push(s), (fuel - 1) as nat)
                }
            }
        } else {
            Err(fault(ErrKind::Parse))
        }
    }
}

fn parse_stmts(
    t: &List<Tok>,
    ps: &List<Param>,
    i: usize,
    acc: List<Stmt>,
    fuel: usize,
) -> (r: Result<At<List<Stmt>>, DbError>)
    requires
        i <= t@.len(),
    ensures
        outcome(r) == p_stmts(t@, ps@, i as int, acc@, fuel as nat),
        r matches Ok(a) ==> a.i <= t@.len(),
    decreases fuel,
{
    reveal(p_stmts);
    if fuel == 0 {
        Err(err(ErrKind::Parse))
    } else {
        if i >= t.len() {
            Ok(At { v: acc, i })
        } else if at_mark(t, i, Sym::BraceL) {
            match parse_block(t, ps, i + 1, false, fuel - 1) {
                Err(e) => Err(e),
                Ok(At { v: s, i: j }) => {
                    parse_stmts(t, ps, j, pushed(acc, s), fuel - 1)
                }
            }
        } else if at_mark(t, i, Sym::Percent) && at_word(t, i + 1, "then") {
            parse_stmts(t, ps, i + 2, acc, fuel - 1)
        } else if at_mark(t, i, Sym::Percent) {
            match parse_directive(t, ps, i + 1, fuel - 1) {
                Err(e) => Err(e),
                Ok(At { v: s, i: j }) => {
                    parse_stmts(t, ps, j, pushed(acc, s), fuel - 1)
                }
            }
        } else {
            Err(err(ErrKind::Parse))
        }
    }
}

/// A script: an operation, a query, or statements.
#[verifier::opaque]
pub open spec fn p_script(
    t: Seq<TokV>,
    ps: Seq<ParamV>,
    i: int,
    fuel: nat,
) -> Result<(Seq<StmtV>, int), Fault>
    decreases fuel,
{
    if fuel == 0 {
        Err(fault(ErrKind::Parse))
    } else {
        if is_mark(t, i, Sym::Colons) {
            match p_sysop(t, ps, i + 1, (fuel - 1) as nat) {
                Err(f) => Err(f),
                Ok((op, j)) => {
                    Ok((Seq::empty().push(StmtV::Sys(op, None, false)), j))
                }
            }
        } else if is_mark(t, i, Sym::BraceL) || is_mark(t, i, Sym::Percent) {
            p_stmts(t, ps, i, Seq::empty(), (fuel - 1) as nat)
        } else {
            match p_program(t, ps, i, no_program(), (fuel - 1) as nat) {
                Err(f) => Err(f),
                Ok((p, j)) => {
                    Ok((Seq::empty().push(StmtV::Query(p, None, false)), j))
                }
            }
        }
    }
}

fn parse_script(
    t: &List<Tok>,
    ps: &List<Param>,
    i: usize,
    fuel: usize,
) -> (r: Result<At<List<Stmt>>, DbError>)
    requires
        i <= t@.len(),
    ensures
        outcome(r) == p_script(t@, ps@, i as int, fuel as nat),
        r matches Ok(a) ==> a.i <= t@.len(),
    decreases fuel,
{
    reveal(p_script);
    if fuel == 0 {
        Err(err(ErrKind::Parse))
    } else {
        if at_mark(t, i, Sym::Colons) {
            match parse_sysop(t, ps, i + 1, fuel - 1) {
                Err(e) => Err(e),
                Ok(At { v: op, i: j }) => {
                    Ok(At { v: pushed(List::new(), Stmt::Sys(op, None, false)), i: j })
                }
            }
        } else if at_mark(t, i, Sym::BraceL) || at_mark(t, i, Sym::Percent) {
            parse_stmts(t, ps, i, List::new(), fuel - 1)
        } else {
            match parse_program(t, ps, i, empty_program(), fuel - 1) {
                Err(e) => Err(e),
                Ok(At { v: p, i: j }) => {
                    Ok(At { v: pushed(List::new(), Stmt::Query(p, None, false)), i: j })
                }
            }
        }
    }
}

/// The deepest that parsers may call each other for so many tokens.
pub open spec fn depth(n: int) -> nat {
    if 16 * n + 64 <= usize::MAX {
        (16 * n + 64) as nat
    } else {
        usize::MAX as nat
    }
}

/// The statements of a script.
pub open spec fn script_of(s: Seq<char>, ps: Seq<ParamV>) -> Result<Seq<StmtV>, Fault> {
    match tokens_from(s, 0, Seq::empty()) {
        Err(f) => Err(f),
        Ok(t) => match p_script(t, ps, 0, depth(t.len() as int)) {
            Err(f) => Err(f),
            Ok((v, j)) => if j == t.len() && t.len() > 0 {
                Ok(v)
            } else {
                Err(fault(ErrKind::Parse))
            },
        },
    }
}

/// The statements of a script.
pub fn parse(s: &str, ps: &List<Param>) -> (r: Result<List<Stmt>, DbError>)
    ensures
        outcome(r) == script_of(s@, ps@),
{
    match tokens(s) {
        Err(e) => Err(e),
        Ok(t) => {
            let n: usize = t.len();
            let fuel: usize = if n <= (usize::MAX - 64) / 16 {
                16 * n + 64
            } else {
                usize::MAX
            };
            match parse_script(&t, ps, 0, fuel) {
                Err(e) => Err(e),
                Ok(At { v, i }) => {
                    if i == t.len() && t.len() > 0 {
                        Ok(v)
                    } else {
                        Err(err(ErrKind::Parse))
                    }
                },
            }
        },
    }
}

} // verus!
