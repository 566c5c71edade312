//! What the scripts of the history ask for.
use vstd::prelude::*;

use crate::error::Fault;
use crate::expr::{ExprV, Op};
use crate::history_text::{
    create_tokens, early_tokens, lemma_early_tokens, lemma_read_tokens, number_token, put_tokens,
    read_text, read_tokens,
};
use crate::lex::{EDGE, Sym, TokV};
use crate::parse::{
    is_mark, literal_at, p_base_type, p_column, p_column_type, p_columns, p_expr, p_exprs, p_level,
    p_operand, p_rest, p_type, p_unary, type_of,
};
use crate::parse_query::{
    crossed_from, crossed_with, no_program, p_atom, p_axes, p_both, p_clauses, p_either, p_head,
    p_name, p_option, p_program, p_rel_name, p_rule, p_selector, p_stored, p_terms, rows_head,
    with_atoms, with_rule, write_kind_of,
};
use crate::parse_script::{depth, p_script, script_of};
use crate::query::{AtomV, BodyV, FieldsV, HeadItemV, ProgramV, RuleV, SelectorV, WriteKind, WriteV};
use crate::schema::{ColType, ColumnV};
use crate::stmt::{ParamV, StmtV};
use crate::value::Value;

verus! {

/// A column without a type of its own.
pub open spec fn loose(name: Seq<char>) -> ColumnV {
    ColumnV { name, typ: ColType::Any, default: None }
}

/// The key columns of the history: the fact, and the two axes of time.
pub open spec fn history_keys() -> Seq<ColumnV> {
    seq![
        loose("k"@),
        ColumnV { name: "v"@, typ: ColType::Validity, default: None },
        ColumnV { name: "tt"@, typ: ColType::TxTime, default: None },
    ]
}

/// The value columns of the history.
pub open spec fn history_vals() -> Seq<ColumnV> {
    seq![ColumnV { name: "x"@, typ: ColType::Int, default: None }]
}

/// The program that makes the relation of the history.
pub open spec fn create_program() -> ProgramV {
    ProgramV {
        write: Some(
            WriteV {
                kind: WriteKind::Create,
                rel: "hist"@,
                keys: history_keys(),
                vals: history_vals(),
            },
        ),
        ..no_program()
    }
}

/// The variables of a row that is written.
pub open spec fn put_head() -> Seq<HeadItemV> {
    seq![
        HeadItemV { var: "k"@, aggr: None },
        HeadItemV { var: "v"@, aggr: None },
        HeadItemV { var: "x"@, aggr: None },
    ]
}

/// The point on the valid-time axis of a row that is written.
pub open spec fn put_point(vt: i64, up: bool) -> ExprV {
    ExprV::Call(
        Op::MakeList,
        seq![ExprV::Const(Value::Int(vt)), ExprV::Const(Value::Bool(up))],
    )
}

/// The row that is written.
pub open spec fn put_row(vt: i64, up: bool, x: i64) -> ExprV {
    ExprV::Call(
        Op::MakeList,
        seq![ExprV::Const(Value::Int(1)), put_point(vt, up), ExprV::Const(Value::Int(x))],
    )
}

/// The rows that are written.
pub open spec fn put_rows(vt: i64, up: bool, x: i64) -> ExprV {
    ExprV::Call(Op::MakeList, seq![put_row(vt, up, x)])
}

/// The program that writes one row of the history.
pub open spec fn put_program(vt: i64, up: bool, x: i64) -> ProgramV {
    ProgramV {
        rules: seq![
            RuleV { name: "?"@, head: put_head(), body: BodyV::Rows(put_rows(vt, up, x)) },
        ],
        write: Some(
            WriteV {
                kind: WriteKind::Put,
                rel: "hist"@,
                keys: seq![loose("k"@), loose("v"@)],
                vals: seq![loose("x"@)],
            },
        ),
        ..no_program()
    }
}

/// How a flag is written.
pub open spec fn flag_word(up: bool) -> Seq<char> {
    if up {
        "true"@
    } else {
        "false"@
    }
}

proof fn lemma_flag(t: Seq<TokV>, ps: Seq<ParamV>, i: int, up: bool)
    requires
        0 <= i < t.len(),
        t[i] == TokV::Word(flag_word(up)),
    ensures
        literal_at(t, ps, i) == Ok::<Option<Value>, Fault>(Some(Value::Bool(up))),
{
    reveal_strlit("true");
    reveal_strlit("false");
    assert("true"@.len() != "false"@.len());
}

/// Whether an expression ends at a place.
spec fn ends(t: Seq<TokV>, j: int) -> bool {
    is_mark(t, j, Sym::Comma) || is_mark(t, j, Sym::BrackR) || is_mark(t, j, Sym::Colon)
        || is_mark(t, j, Sym::ParenR) || is_mark(t, j, Sym::At)
}

/// What a single operand is, an expression is where no operator follows it.
proof fn lemma_lift(t: Seq<TokV>, ps: Seq<ParamV>, i: int, fuel: nat, e: ExprV, j: int)
    requires
        fuel >= 8,
        p_unary(t, ps, i, (fuel - 7) as nat) == Ok::<(ExprV, int), Fault>((e, j)),
        ends(t, j),
    ensures
        p_expr(t, ps, i, fuel) == Ok::<(ExprV, int), Fault>((e, j)),
{
    reveal(p_expr);
    reveal(p_level);
    reveal(p_rest);
    reveal(p_unary);
    let ok = Ok::<(ExprV, int), Fault>((e, j));
    assert(p_level(t, ps, i, 5, (fuel - 6) as nat) == ok);
    assert(p_rest(t, ps, j, e, 4, (fuel - 6) as nat) == ok);
    assert(p_level(t, ps, i, 4, (fuel - 5) as nat) == ok);
    assert(p_rest(t, ps, j, e, 3, (fuel - 5) as nat) == ok);
    assert(p_level(t, ps, i, 3, (fuel - 4) as nat) == ok);
    assert(p_rest(t, ps, j, e, 2, (fuel - 4) as nat) == ok);
    assert(p_level(t, ps, i, 2, (fuel - 3) as nat) == ok);
    assert(p_rest(t, ps, j, e, 1, (fuel - 3) as nat) == ok);
    assert(p_level(t, ps, i, 1, (fuel - 2) as nat) == ok);
    assert(p_rest(t, ps, j, e, 0, (fuel - 2) as nat) == ok);
    assert(p_level(t, ps, i, 0, (fuel - 1) as nat) == ok);
}

proof fn lemma_literal(t: Seq<TokV>, ps: Seq<ParamV>, i: int, fuel: nat, v: Value)
    requires
        fuel >= 9,
        literal_at(t, ps, i) == Ok::<Option<Value>, Fault>(Some(v)),
        !is_mark(t, i, Sym::Minus),
        !is_mark(t, i, Sym::Bang),
        ends(t, i + 1),
    ensures
        p_expr(t, ps, i, fuel) == Ok::<(ExprV, int), Fault>((ExprV::Const(v), i + 1)),
{
    reveal(p_unary);
    reveal(p_operand);
    let ok = Ok::<(ExprV, int), Fault>((ExprV::Const(v), i + 1));
    assert(p_operand(t, ps, i, (fuel - 8) as nat) == ok);
    assert(p_unary(t, ps, i, (fuel - 7) as nat) == ok);
    lemma_lift(t, ps, i, fuel, ExprV::Const(v), i + 1);
}

proof fn lemma_list(
    t: Seq<TokV>,
    ps: Seq<ParamV>,
    i: int,
    fuel: nat,
    args: Seq<ExprV>,
    j: int,
)
    requires
        fuel >= 10,
        is_mark(t, i, Sym::BrackL),
        p_exprs(t, ps, i + 1, Sym::BrackR, Seq::empty(), (fuel - 9) as nat) == Ok::<
            (Seq<ExprV>, int),
            Fault,
        >((args, j)),
        ends(t, j),
    ensures
        p_expr(t, ps, i, fuel) == Ok::<(ExprV, int), Fault>(
            (ExprV::Call(Op::MakeList, args), j),
        ),
{
    reveal(p_unary);
    reveal(p_operand);
    reveal(p_exprs);
    let ok = Ok::<(ExprV, int), Fault>((ExprV::Call(Op::MakeList, args), j));
    assert(p_operand(t, ps, i, (fuel - 8) as nat) == ok);
    assert(p_unary(t, ps, i, (fuel - 7) as nat) == ok);
    lemma_lift(t, ps, i, fuel, ExprV::Call(Op::MakeList, args), j);
}

proof fn lemma_more(
    t: Seq<TokV>,
    ps: Seq<ParamV>,
    i: int,
    acc: Seq<ExprV>,
    fuel: nat,
    e: ExprV,
    j: int,
)
    requires
        fuel >= 1,
        !is_mark(t, i, Sym::BrackR),
        p_expr(t, ps, i, (fuel - 1) as nat) == Ok::<(ExprV, int), Fault>((e, j)),
        is_mark(t, j, Sym::Comma) || is_mark(t, j, Sym::BrackR),
    ensures
        p_exprs(t, ps, i, Sym::BrackR, acc, fuel) == if is_mark(t, j, Sym::Comma) {
            p_exprs(t, ps, j + 1, Sym::BrackR, acc.push(e), (fuel - 1) as nat)
        } else {
            Ok::<(Seq<ExprV>, int), Fault>((acc.push(e), j + 1))
        },
{
    reveal(p_exprs);
    reveal(p_expr);
}

/// The rows of a script that writes one row.
proof fn lemma_put_rows(t: Seq<TokV>, ps: Seq<ParamV>, vt: i64, up: bool, x: i64, fuel: nat)
    requires
        t == put_tokens(vt, flag_word(up), x),
        fuel >= 100,
    ensures
        p_expr(t, ps, 9, fuel) == Ok::<(ExprV, int), Fault>((put_rows(vt, up, x), 22)),
{
    let none = Seq::<ExprV>::empty();
    let one = ExprV::Const(Value::Int(1));
    let a = ExprV::Const(Value::Int(vt));
    let b = ExprV::Const(Value::Bool(up));
    let c = ExprV::Const(Value::Int(x));
    // The outer list begins with the fuel that is left at its first element.
    let f = (fuel - 9) as nat;
    let g = (f - 1 - 9) as nat;
    lemma_literal(t, ps, 11, (g - 1) as nat, Value::Int(1));
    lemma_more(t, ps, 11, none, g, one, 12);
    let h = (g - 1 - 1 - 9) as nat;
    lemma_literal(t, ps, 14, (h - 1) as nat, Value::Int(vt));
    lemma_more(t, ps, 14, none, h, a, 15);
    lemma_flag(t, ps, 16, up);
    lemma_literal(t, ps, 16, (h - 2) as nat, Value::Bool(up));
    lemma_more(t, ps, 16, none.push(a), (h - 1) as nat, b, 17);
    assert(none.push(a).push(b) =~= seq![a, b]);
    let p = put_point(vt, up);
    lemma_list(t, ps, 13, (g - 2) as nat, seq![a, b], 18);
    lemma_more(t, ps, 13, none.push(one), (g - 1) as nat, p, 18);
    lemma_literal(t, ps, 19, (g - 3) as nat, Value::Int(x));
    lemma_more(t, ps, 19, none.push(one).push(p), (g - 2) as nat, c, 20);
    assert(none.push(one).push(p).push(c) =~= seq![one, p, c]);
    let r = put_row(vt, up, x);
    lemma_list(t, ps, 10, (f - 1) as nat, seq![one, p, c], 21);
    lemma_more(t, ps, 10, none, f, r, 21);
    assert(none.push(r) =~= seq![r]);
    lemma_list(t, ps, 9, fuel, seq![r], 22);
}

proof fn lemma_put_rule(t: Seq<TokV>, ps: Seq<ParamV>, vt: i64, up: bool, x: i64, fuel: nat)
    requires
        t == put_tokens(vt, flag_word(up), x),
        fuel >= 120,
    ensures
        p_rule(t, ps, 2, "?"@, fuel) == Ok::<(RuleV, int), Fault>(
            (
                RuleV { name: "?"@, head: put_head(), body: BodyV::Rows(put_rows(vt, up, x)) },
                22,
            ),
        ),
{
    reveal(p_rule);
    let none = Seq::<HeadItemV>::empty();
    let k = HeadItemV { var: "k"@, aggr: None };
    let v = HeadItemV { var: "v"@, aggr: None };
    let w = HeadItemV { var: "x"@, aggr: None };
    reveal_with_fuel(p_head, 7);
    assert(none.push(k).push(v).push(w) =~= put_head());
    assert(p_head(t, ps, 2, none, (fuel - 1) as nat) == Ok::<(Seq<HeadItemV>, int), Fault>(
        (put_head(), 8),
    ));
    lemma_put_rows(t, ps, vt, up, x, (fuel - 1) as nat);
    assert(rows_head(t, 9, put_head()) == put_head());
}

proof fn lemma_loose_column(t: Seq<TokV>, ps: Seq<ParamV>, i: int, fuel: nat, n: Seq<char>)
    requires
        fuel >= 3,
        0 <= i,
        i + 1 < t.len(),
        t[i] == TokV::Word(n),
        t[i + 1] is Mark,
        !is_mark(t, i + 1, Sym::Colon),
    ensures
        p_column(t, ps, i, fuel) == Ok::<(ColumnV, int), Fault>((loose(n), i + 1)),
{
    reveal(p_column);
    reveal(p_column_type);
}

proof fn lemma_put_columns(t: Seq<TokV>, ps: Seq<ParamV>, vt: i64, up: bool, x: i64, fuel: nat)
    requires
        t == put_tokens(vt, flag_word(up), x),
        fuel >= 20,
    ensures
        p_columns(t, ps, 26, Seq::empty(), Seq::empty(), false, fuel) == Ok::<
            ((Seq<ColumnV>, Seq<ColumnV>), int),
            Fault,
        >(((seq![loose("k"@), loose("v"@)], seq![loose("x"@)]), 32)),
{
    let none = Seq::<ColumnV>::empty();
    lemma_loose_column(t, ps, 26, (fuel - 1) as nat, "k"@);
    lemma_loose_column(t, ps, 28, (fuel - 3) as nat, "v"@);
    lemma_loose_column(t, ps, 30, (fuel - 5) as nat, "x"@);
    reveal_with_fuel(p_columns, 7);
    assert(none.push(loose("k"@)).push(loose("v"@)) =~= seq![loose("k"@), loose("v"@)]);
    assert(none.push(loose("x"@)) =~= seq![loose("x"@)]);
}

proof fn lemma_rel_name(t: Seq<TokV>, ps: Seq<ParamV>, i: int, fuel: nat, n: Seq<char>)
    requires
        fuel >= 2,
        0 <= i,
        i + 1 < t.len(),
        t[i] == TokV::Word(n),
        is_mark(t, i + 1, Sym::BraceL) || is_mark(t, i + 1, Sym::BrackL),
    ensures
        p_rel_name(t, ps, i, fuel) == Ok::<(Seq<char>, int), Fault>((n, i + 1)),
{
    reveal(p_rel_name);
    reveal(p_name);
}

/// Whether a word is that of an option which is no write.
spec fn is_option(w: Seq<char>) -> bool {
    w == "returning"@ || w == "limit"@ || w == "offset"@ || w == "order"@ || w == "sort"@ || w
        == "as_of"@
}

proof fn lemma_words()
    ensures
        write_kind_of("put"@) == Some(WriteKind::Put),
        write_kind_of("create"@) == Some(WriteKind::Create),
        !is_option("put"@),
        !is_option("create"@),
{
    reveal_strlit("put");
    assert("put"@.len() == 3);
    reveal_strlit("create");
    assert("create"@.len() == 6);
    reveal_strlit("replace");
    assert("replace"@.len() == 7);
    reveal_strlit("returning");
    assert("returning"@.len() == 9);
    reveal_strlit("limit");
    assert("limit"@.len() == 5);
    reveal_strlit("offset");
    assert("offset"@.len() == 6);
    reveal_strlit("order");
    assert("order"@.len() == 5);
    reveal_strlit("sort");
    assert("sort"@.len() == 4);
    reveal_strlit("as_of");
    assert("as_of"@.len() == 5);
    assert("create"@[0] != "offset"@[0]);
}

proof fn lemma_put_program(t: Seq<TokV>, ps: Seq<ParamV>, vt: i64, up: bool, x: i64, fuel: nat)
    requires
        t == put_tokens(vt, flag_word(up), x),
        fuel >= 200,
    ensures
        p_program(t, ps, 0, no_program(), fuel) == Ok::<(ProgramV, int), Fault>(
            (put_program(vt, up, x), 32),
        ),
{
    let rule = RuleV { name: "?"@, head: put_head(), body: BodyV::Rows(put_rows(vt, up, x)) };
    lemma_put_rule(t, ps, vt, up, x, (fuel - 1) as nat);
    let p = with_rule(no_program(), rule);
    assert(p.rules =~= seq![rule]);
    lemma_words();
    lemma_rel_name(t, ps, 24, (fuel - 3) as nat, "hist"@);
    lemma_put_columns(t, ps, vt, up, x, (fuel - 3) as nat);
    let q = put_program(vt, up, x);
    assert(p_option(t, ps, 24, p, "put"@, (fuel - 2) as nat) == Ok::<(ProgramV, int), Fault>(
        (q, 32),
    )) by {
        reveal(p_option);
    }
    reveal_with_fuel(p_program, 3);
}

/// The statement that writes one row of the history.
pub proof fn lemma_put_parsed(ps: Seq<ParamV>, vt: i64, up: bool, x: i64)
    ensures
        p_script(put_tokens(vt, flag_word(up), x), ps, 0, depth(32)) == Ok::<
            (Seq<StmtV>, int),
            Fault,
        >((seq![StmtV::Query(put_program(vt, up, x), None, false)], 32)),
        put_tokens(vt, flag_word(up), x).len() == 32,
{
    let t = put_tokens(vt, flag_word(up), x);
    lemma_put_program(t, ps, vt, up, x, (depth(32) - 1) as nat);
    reveal(p_script);
}

proof fn lemma_typed_column(
    t: Seq<TokV>,
    ps: Seq<ParamV>,
    i: int,
    fuel: nat,
    n: Seq<char>,
    w: Seq<char>,
    typ: ColType,
)
    requires
        fuel >= 5,
        0 <= i,
        i + 3 < t.len(),
        t[i] == TokV::Word(n),
        is_mark(t, i + 1, Sym::Colon),
        t[i + 2] == TokV::Word(w),
        type_of(w) == Some(typ),
        t[i + 3] is Mark,
        !is_mark(t, i + 3, Sym::Quest),
    ensures
        p_column(t, ps, i, fuel) == Ok::<(ColumnV, int), Fault>(
            (ColumnV { name: n, typ, default: None }, i + 3),
        ),
{
    reveal(p_column);
    reveal(p_column_type);
    reveal(p_type);
    reveal(p_base_type);
}

proof fn lemma_types()
    ensures
        type_of("Validity"@) == Some(ColType::Validity),
        type_of("TxTime"@) == Some(ColType::TxTime),
        type_of("Int"@) == Some(ColType::Int),
{
    reveal_strlit("Any");
    assert("Any"@.len() == 3);
    reveal_strlit("Bool");
    assert("Bool"@.len() == 4);
    reveal_strlit("Int");
    assert("Int"@.len() == 3);
    reveal_strlit("Float");
    assert("Float"@.len() == 5);
    reveal_strlit("String");
    assert("String"@.len() == 6);
    reveal_strlit("Bytes");
    assert("Bytes"@.len() == 5);
    reveal_strlit("Uuid");
    assert("Uuid"@.len() == 4);
    reveal_strlit("Json");
    assert("Json"@.len() == 4);
    reveal_strlit("Validity");
    assert("Validity"@.len() == 8);
    reveal_strlit("TxTime");
    assert("TxTime"@.len() == 6);
    assert("Int"@[0] != "Any"@[0]);
    assert("TxTime"@[0] != "String"@[0]);
}

proof fn lemma_create_columns(t: Seq<TokV>, ps: Seq<ParamV>, fuel: nat)
    requires
        t == create_tokens(),
        fuel >= 20,
    ensures
        p_columns(t, ps, 4, Seq::empty(), Seq::empty(), false, fuel) == Ok::<
            ((Seq<ColumnV>, Seq<ColumnV>), int),
            Fault,
        >(((history_keys(), history_vals()), 18)),
{
    let none = Seq::<ColumnV>::empty();
    lemma_types();
    lemma_loose_column(t, ps, 4, (fuel - 1) as nat, "k"@);
    lemma_typed_column(t, ps, 6, (fuel - 3) as nat, "v"@, "Validity"@, ColType::Validity);
    lemma_typed_column(t, ps, 10, (fuel - 5) as nat, "tt"@, "TxTime"@, ColType::TxTime);
    lemma_typed_column(t, ps, 14, (fuel - 7) as nat, "x"@, "Int"@, ColType::Int);
    reveal_with_fuel(p_columns, 9);
    let v = ColumnV { name: "v"@, typ: ColType::Validity, default: None };
    let tt = ColumnV { name: "tt"@, typ: ColType::TxTime, default: None };
    let x = ColumnV { name: "x"@, typ: ColType::Int, default: None };
    assert(none.push(loose("k"@)).push(v).push(tt) =~= history_keys());
    assert(none.push(x) =~= history_vals());
}

/// The statement that makes the relation of the history.
pub proof fn lemma_create_parsed(ps: Seq<ParamV>)
    ensures
        p_script(create_tokens(), ps, 0, depth(18)) == Ok::<(Seq<StmtV>, int), Fault>(
            (seq![StmtV::Query(create_program(), None, false)], 18),
        ),
        create_tokens().len() == 18,
{
    let t = create_tokens();
    let fuel = (depth(18) - 1) as nat;
    lemma_words();
    lemma_rel_name(t, ps, 2, (fuel - 2) as nat, "hist"@);
    lemma_create_columns(t, ps, (fuel - 2) as nat);
    assert(p_option(t, ps, 2, no_program(), "create"@, (fuel - 1) as nat) == Ok::<
        (ProgramV, int),
        Fault,
    >((create_program(), 18))) by {
        reveal(p_option);
    }
    assert(p_program(t, ps, 0, no_program(), fuel) == Ok::<(ProgramV, int), Fault>(
        (create_program(), 18),
    )) by {
        reveal_with_fuel(p_program, 2);
    }
    reveal(p_script);
}

/// The variables of a read, one for each column.
pub open spec fn read_terms() -> Seq<ExprV> {
    seq![ExprV::Var("k"@), ExprV::Var("v"@), ExprV::Var("t"@), ExprV::Var("x"@)]
}

/// The condition of a read: a row of the history at an instant, as of a write.
pub open spec fn read_atom(vt: ExprV, tt: ExprV) -> AtomV {
    AtomV::Stored(
        "hist"@,
        FieldsV::Places(read_terms()),
        SelectorV { vt: Some(vt), tt: Some(tt) },
        false,
    )
}

/// What a read asks for.
pub open spec fn read_head() -> Seq<HeadItemV> {
    seq![HeadItemV { var: "x"@, aggr: None }]
}

/// The rule of a read.
pub open spec fn read_rule(vt: ExprV, tt: ExprV) -> RuleV {
    RuleV {
        name: "?"@,
        head: read_head(),
        body: BodyV::Clauses(seq![seq![read_atom(vt, tt)]]),
    }
}

/// The query of what the fact is at an instant, as of a write.
pub open spec fn read_program(vt: ExprV, tt: ExprV) -> ProgramV {
    ProgramV { rules: seq![read_rule(vt, tt)], ..no_program() }
}

/// Whether tokens are those of a read, but for the instant, which takes `m` more
/// than one of them.
spec fn reads(t: Seq<TokV>, m: int, tt: i64) -> bool {
    &&& m >= 0
    &&& t.len() == 26 + m
    &&& t[0] == TokV::Mark(Sym::Quest)
    &&& t[1] == TokV::Mark(Sym::BrackL)
    &&& t[2] == TokV::Word("x"@)
    &&& t[3] == TokV::Mark(Sym::BrackR)
    &&& t[4] == TokV::Mark(Sym::Define)
    &&& t[5] == TokV::Mark(Sym::Star)
    &&& t[6] == TokV::Word("hist"@)
    &&& t[7] == TokV::Mark(Sym::BrackL)
    &&& t[8] == TokV::Word("k"@)
    &&& t[9] == TokV::Mark(Sym::Comma)
    &&& t[10] == TokV::Word("v"@)
    &&& t[11] == TokV::Mark(Sym::Comma)
    &&& t[12] == TokV::Word("t"@)
    &&& t[13] == TokV::Mark(Sym::Comma)
    &&& t[14] == TokV::Word("x"@)
    &&& t[15] == TokV::Mark(Sym::At)
    &&& t[16] == TokV::Mark(Sym::ParenL)
    &&& t[17] == TokV::Word("vt"@)
    &&& t[18] == TokV::Mark(Sym::Colon)
    &&& t[20 + m] == TokV::Mark(Sym::Comma)
    &&& t[21 + m] == TokV::Word("tt"@)
    &&& t[22 + m] == TokV::Mark(Sym::Colon)
    &&& t[23 + m] == TokV::Int(tt)
    &&& t[24 + m] == TokV::Mark(Sym::ParenR)
    &&& t[25 + m] == TokV::Mark(Sym::BrackR)
}

proof fn lemma_var(t: Seq<TokV>, ps: Seq<ParamV>, i: int, fuel: nat, n: Seq<char>)
    requires
        fuel >= 9,
        0 <= i < t.len(),
        t[i] == TokV::Word(n),
        n.len() == 1,
        ends(t, i + 1),
    ensures
        p_expr(t, ps, i, fuel) == Ok::<(ExprV, int), Fault>((ExprV::Var(n), i + 1)),
{
    reveal_strlit("true");
    reveal_strlit("false");
    reveal_strlit("null");
    assert("true"@.len() == 4 && "false"@.len() == 5 && "null"@.len() == 4);
    reveal(p_unary);
    reveal(p_operand);
    let ok = Ok::<(ExprV, int), Fault>((ExprV::Var(n), i + 1));
    assert(literal_at(t, ps, i) == Ok::<Option<Value>, Fault>(None));
    assert(p_operand(t, ps, i, (fuel - 8) as nat) == ok);
    assert(p_unary(t, ps, i, (fuel - 7) as nat) == ok);
    lemma_lift(t, ps, i, fuel, ExprV::Var(n), i + 1);
}

proof fn lemma_negative(t: Seq<TokV>, ps: Seq<ParamV>, i: int, fuel: nat, v: int)
    requires
        fuel >= 10,
        0 < v <= EDGE,
        0 <= i,
        i + 1 < t.len(),
        t[i] == TokV::Mark(Sym::Minus),
        t[i + 1] == number_token(v),
        ends(t, i + 2),
    ensures
        p_expr(t, ps, i, fuel) == Ok::<(ExprV, int), Fault>((instant_expr((-v) as i64), i + 2)),
{
    reveal(p_unary);
    reveal(p_operand);
    let e = instant_expr((-v) as i64);
    if v < EDGE {
        let c = ExprV::Const(Value::Int(v as i64));
        let ok = Ok::<(ExprV, int), Fault>((c, i + 2));
        assert(p_operand(t, ps, i + 1, (fuel - 9) as nat) == ok);
        assert(p_unary(t, ps, i + 1, (fuel - 8) as nat) == ok);
    }
    assert(p_unary(t, ps, i, (fuel - 7) as nat) == Ok::<(ExprV, int), Fault>((e, i + 2)));
    lemma_lift(t, ps, i, fuel, e, i + 2);
}

proof fn lemma_read_terms(t: Seq<TokV>, ps: Seq<ParamV>, m: int, tt: i64, fuel: nat)
    requires
        reads(t, m, tt),
        fuel >= 20,
    ensures
        p_terms(t, ps, 8, Seq::empty(), fuel) == Ok::<(Seq<ExprV>, int), Fault>((read_terms(), 15)),
{
    reveal_strlit("k");
    reveal_strlit("v");
    reveal_strlit("t");
    reveal_strlit("x");
    assert("k"@.len() == 1 && "v"@.len() == 1 && "t"@.len() == 1 && "x"@.len() == 1);
    lemma_var(t, ps, 8, (fuel - 1) as nat, "k"@);
    lemma_var(t, ps, 10, (fuel - 2) as nat, "v"@);
    lemma_var(t, ps, 12, (fuel - 3) as nat, "t"@);
    lemma_var(t, ps, 14, (fuel - 4) as nat, "x"@);
    let none = Seq::<ExprV>::empty();
    assert(none.push(ExprV::Var("k"@)).push(ExprV::Var("v"@)).push(ExprV::Var("t"@)).push(
        ExprV::Var("x"@),
    ) =~= read_terms());
    reveal_with_fuel(p_terms, 5);
}

proof fn lemma_read_selector(
    t: Seq<TokV>,
    ps: Seq<ParamV>,
    m: int,
    tt: i64,
    a: ExprV,
    fuel: nat,
)
    requires
        reads(t, m, tt),
        fuel >= 30,
        p_expr(t, ps, 19, (fuel - 2) as nat) == Ok::<(ExprV, int), Fault>((a, 20 + m)),
    ensures
        p_selector(t, ps, 15, fuel) == Ok::<(SelectorV, int), Fault>(
            (SelectorV { vt: Some(a), tt: Some(ExprV::Const(Value::Int(tt))) }, 25 + m),
        ),
{
    reveal_strlit("vt");
    reveal_strlit("tt");
    assert("vt"@[0] != "tt"@[0]);
    let b = ExprV::Const(Value::Int(tt));
    lemma_literal(t, ps, 23 + m, (fuel - 4) as nat, Value::Int(tt));
    let none = SelectorV { vt: None, tt: None };
    let one = SelectorV { vt: Some(a), tt: None };
    let both = SelectorV { vt: Some(a), tt: Some(b) };
    let ok = Ok::<(SelectorV, int), Fault>((both, 25 + m));
    reveal(p_axes);
    assert(p_axes(t, ps, 24 + m, both, (fuel - 4) as nat) == ok);
    assert(p_axes(t, ps, 21 + m, one, (fuel - 3) as nat) == ok);
    assert(p_axes(t, ps, 20 + m, one, (fuel - 2) as nat) == ok);
    assert(p_axes(t, ps, 17, none, (fuel - 1) as nat) == ok);
    reveal(p_selector);
}

proof fn lemma_read_clause(
    t: Seq<TokV>,
    ps: Seq<ParamV>,
    m: int,
    tt: i64,
    a: ExprV,
    fuel: nat,
)
    requires
        reads(t, m, tt),
        fuel >= 50,
        p_expr(t, ps, 19, (fuel - 7) as nat) == Ok::<(ExprV, int), Fault>((a, 20 + m)),
    ensures
        p_clauses(t, ps, 5, Seq::empty().push(Seq::empty()), fuel) == Ok::<
            (Seq<Seq<AtomV>>, int),
            Fault,
        >((seq![seq![read_atom(a, ExprV::Const(Value::Int(tt)))]], 26 + m)),
{
    let b = ExprV::Const(Value::Int(tt));
    let atom = read_atom(a, b);
    let f = (fuel - 4) as nat;
    lemma_rel_name(t, ps, 6, (f - 1) as nat, "hist"@);
    lemma_read_terms(t, ps, m, tt, (f - 1) as nat);
    lemma_read_selector(t, ps, m, tt, a, (f - 1) as nat);
    assert(p_stored(t, ps, 6, false, f) == Ok::<(AtomV, int), Fault>((atom, 26 + m))) by {
        reveal(p_stored);
    }
    assert(p_atom(t, ps, 5, (fuel - 3) as nat) == Ok::<(AtomV, int), Fault>((atom, 26 + m))) by {
        reveal(p_atom);
    }
    let none = Seq::<AtomV>::empty();
    assert(none.push(atom) =~= seq![atom]);
    assert(p_both(t, ps, 5, none, (fuel - 2) as nat) == Ok::<(Seq<AtomV>, int), Fault>(
        (seq![atom], 26 + m),
    )) by {
        reveal(p_both);
    }
    let bare = Seq::<Seq<AtomV>>::empty();
    assert(bare.push(seq![atom]) =~= seq![seq![atom]]);
    assert(p_either(t, ps, 5, bare, (fuel - 1) as nat) == Ok::<(Seq<Seq<AtomV>>, int), Fault>(
        (seq![seq![atom]], 26 + m),
    )) by {
        reveal(p_either);
    }
    let d = seq![seq![atom]];
    let start = bare.push(none);
    assert(with_atoms(seq![atom], seq![atom], 1) == seq![atom]);
    assert(with_atoms(none, seq![atom], 0) == seq![atom]);
    assert(crossed_with(start, seq![atom], 1, d) == d);
    assert(crossed_with(start, seq![atom], 0, bare) == d);
    assert(crossed_from(start, d, 1, d) == d);
    assert(crossed_from(start, d, 0, bare) == d);
    reveal(p_clauses);
}

proof fn lemma_read_program(
    t: Seq<TokV>,
    ps: Seq<ParamV>,
    m: int,
    tt: i64,
    a: ExprV,
    fuel: nat,
)
    requires
        reads(t, m, tt),
        fuel >= 60,
        p_expr(t, ps, 19, (fuel - 9) as nat) == Ok::<(ExprV, int), Fault>((a, 20 + m)),
    ensures
        p_program(t, ps, 0, no_program(), fuel) == Ok::<(ProgramV, int), Fault>(
            (read_program(a, ExprV::Const(Value::Int(tt))), 26 + m),
        ),
{
    let b = ExprV::Const(Value::Int(tt));
    let rule = read_rule(a, b);
    let f = (fuel - 1) as nat;
    lemma_read_clause(t, ps, m, tt, a, (f - 1) as nat);
    let none = Seq::<HeadItemV>::empty();
    assert(none.push(HeadItemV { var: "x"@, aggr: None }) =~= read_head());
    assert(p_head(t, ps, 2, none, (f - 1) as nat) == Ok::<(Seq<HeadItemV>, int), Fault>(
        (read_head(), 4),
    )) by {
        reveal_with_fuel(p_head, 3);
    }
    assert(p_rule(t, ps, 2, "?"@, f) == Ok::<(RuleV, int), Fault>((rule, 26 + m))) by {
        reveal(p_rule);
    }
    assert(with_rule(no_program(), rule).rules =~= seq![rule]);
    reveal_with_fuel(p_program, 2);
}

/// The expression of an instant.
pub open spec fn instant_expr(vt: i64) -> ExprV {
    if vt >= 0 || vt == i64::MIN {
        ExprV::Const(Value::Int(vt))
    } else {
        ExprV::Call(Op::Neg, seq![ExprV::Const(Value::Int((-vt) as i64))])
    }
}

/// A script that asks what the fact is says so.
pub proof fn lemma_read_script(vt: i64, tt: i64)
    requires
        0 <= tt,
    ensures
        script_of(read_text(vt, tt), Seq::empty()) == Ok::<Seq<StmtV>, Fault>(
            seq![
                StmtV::Query(
                    read_program(instant_expr(vt), ExprV::Const(Value::Int(tt))),
                    None,
                    false,
                ),
            ],
        ),
{
    let ps = Seq::<ParamV>::empty();
    let m: int = if vt >= 0 {
        0
    } else {
        1
    };
    let t = if vt >= 0 {
        read_tokens(vt, tt)
    } else {
        early_tokens(-vt, tt)
    };
    let fuel = (depth(26 + m) - 1) as nat;
    assert(reads(t, m, tt));
    if vt >= 0 {
        lemma_read_tokens(vt, tt);
        lemma_literal(t, ps, 19, (fuel - 9) as nat, Value::Int(vt));
    } else {
        lemma_early_tokens(vt, tt);
        lemma_negative(t, ps, 19, (fuel - 9) as nat, -vt);
    }
    lemma_read_program(t, ps, m, tt, instant_expr(vt), fuel);
    reveal(p_script);
}

} // verus!
