//! What a query of the history answers.
use vstd::prelude::*;

use crate::bind::{
    PlanV, SlotV, TableV, clause_from, combined, head_places_from, input_of, join_from,
    join_row_from, match_from, narrowed, plan_from, plan_of, selected, unit,
};
use crate::error::Fault;
use crate::eval::{clauses_from, labels_of, rule_rows};
use crate::expr::{Ctx, ExprV, Op, apply_op, branched, eval_args_from, eval_of, place, place_from};
use crate::fixtures::history_of;
use crate::history_parse::{
    instant_expr, lemma_read_script, read_atom, read_head, read_program, read_rule, read_terms,
};
use crate::history_run::{history_relation, holds_history, lemma_lasting, lemma_one_statement};
use crate::history_text::read_text;
use crate::instance::{DbV, after_script};
use crate::law_history::{
    increasing, is_history, law_history_is_made, law_history_reads, read_rows, records_of,
    shown_row, timeline,
};
use crate::law_least::lemma_one_arranged;
use crate::law_single::{gives, law_single_empty, law_single_row, plain_head, stands_alone};
use crate::mutate::{DoneV, asked, context, ran};
use crate::order::arranged;
use crate::scan::{SourceV, all_picked, picked};
use crate::store::{RelationV, StoreV, columns_of, names_of, rel_place};
use crate::value::Value;

verus! {

/// Whether an expression has a value wherever it stands.
pub open spec fn stands_for(e: ExprV, n: i64) -> bool {
    forall|ctx: Ctx| #[trigger]
        eval_of(e, Seq::empty(), Seq::empty(), ctx) == Ok::<Value, Fault>(Value::Int(n))
}

/// The names of the variables.
spec fn read_cols() -> Seq<Seq<char>> {
    seq!["k"@, "v"@, "t"@, "x"@]
}

/// Every column gives a variable its value.
spec fn read_plan() -> PlanV {
    PlanV {
        cols: read_cols(),
        slots: seq![SlotV::Fresh, SlotV::Fresh, SlotV::Fresh, SlotV::Fresh],
    }
}

proof fn lemma_read_names()
    ensures
        "k"@ != "v"@,
        "k"@ != "t"@,
        "k"@ != "x"@,
        "v"@ != "t"@,
        "v"@ != "x"@,
        "t"@ != "x"@,
        "k"@ != "_"@,
        "v"@ != "_"@,
        "t"@ != "_"@,
        "x"@ != "_"@,
{
    reveal_strlit("k");
    reveal_strlit("v");
    reveal_strlit("t");
    reveal_strlit("x");
    reveal_strlit("_");
    assert("k"@[0] == 'k' && "v"@[0] == 'v' && "t"@[0] == 't' && "x"@[0] == 'x' && "_"@[0] == '_');
}

proof fn lemma_read_plan()
    ensures
        plan_of(read_terms(), Seq::empty()) == read_plan(),
{
    lemma_read_names();
    let ts = read_terms();
    let e = Seq::<Seq<char>>::empty();
    let f = Seq::<SlotV>::empty();
    let c1 = seq!["k"@];
    let c2 = seq!["k"@, "v"@];
    let c3 = seq!["k"@, "v"@, "t"@];
    let s1 = f.push(SlotV::Fresh);
    let s2 = s1.push(SlotV::Fresh);
    let s3 = s2.push(SlotV::Fresh);
    let s4 = s3.push(SlotV::Fresh);
    assert(e.push("k"@) =~= c1);
    assert(c1.push("v"@) =~= c2);
    assert(c2.push("t"@) =~= c3);
    assert(c3.push("x"@) =~= read_cols());
    assert(s4 =~= read_plan().slots);
    reveal_with_fuel(place_from, 4);
    assert(place(e, "k"@) == 0);
    assert(place(c1, "v"@) == 1);
    assert(place(c2, "t"@) == 2);
    assert(place(c3, "x"@) == 3);
    let p4 = PlanV { cols: read_cols(), slots: s4 };
    assert(plan_from(ts, 4, p4) == p4);
    assert(plan_from(ts, 3, PlanV { cols: c3, slots: s3 }) == p4);
    assert(plan_from(ts, 2, PlanV { cols: c2, slots: s2 }) == p4);
    assert(plan_from(ts, 1, PlanV { cols: c1, slots: s1 }) == p4);
    assert(plan_from(ts, 0, PlanV { cols: e, slots: f }) == p4);
}

proof fn lemma_read_match(row: Seq<Value>, ctx: Ctx)
    requires
        row.len() == 4,
    ensures
        match_from(read_plan(), row, 0, Seq::empty(), ctx) == Ok::<Option<Seq<Value>>, Fault>(
            Some(row),
        ),
{
    let p = read_plan();
    let e = Seq::<Value>::empty();
    let a = e.push(row[0]);
    let b = a.push(row[1]);
    let c = b.push(row[2]);
    assert(c.push(row[3]) =~= row);
    assert(match_from(p, row, 4, row, ctx) == Ok::<Option<Seq<Value>>, Fault>(Some(row)));
    assert(match_from(p, row, 3, c, ctx) == Ok::<Option<Seq<Value>>, Fault>(Some(row)));
    assert(match_from(p, row, 2, b, ctx) == Ok::<Option<Seq<Value>>, Fault>(Some(row)));
    assert(match_from(p, row, 1, a, ctx) == Ok::<Option<Seq<Value>>, Fault>(Some(row)));
}

/// The rows of a read are those of the source, where that has at most one.
proof fn lemma_read_combined(src: Seq<Seq<Value>>, ctx: Ctx)
    requires
        src.len() <= 1,
        src.len() == 1 ==> src[0].len() == 4,
    ensures
        combined(unit(), read_terms(), src, false, ctx) == Ok::<SourceV, Fault>(
            SourceV { cols: read_cols(), rows: src },
        ),
{
    lemma_read_plan();
    let p = read_plan();
    let none = Seq::<Seq<Value>>::empty();
    let e = Seq::<Value>::empty();
    let rows = unit().rows;
    assert(rows.len() == 1 && rows[0] == e);
    if src.len() == 1 {
        lemma_read_match(src[0], ctx);
        assert(none.push(src[0]) =~= src);
        assert(join_row_from(p, e, src, 1, ctx, src) == Ok::<Seq<Seq<Value>>, Fault>(src));
    } else {
        assert(none =~= src);
    }
    assert(join_row_from(p, e, src, 0, ctx, none) == Ok::<Seq<Seq<Value>>, Fault>(src));
    assert(join_from(p, rows, src, 1, ctx, src) == Ok::<Seq<Seq<Value>>, Fault>(src));
    assert(join_from(p, rows, src, 0, ctx, none) == Ok::<Seq<Seq<Value>>, Fault>(src));
}

proof fn lemma_read_input(
    rels: Seq<RelationV>,
    t: Seq<TableV>,
    times: Seq<i64>,
    vt: i64,
    i: int,
    a: ExprV,
    b: ExprV,
    ctx: Ctx,
)
    requires
        rels == seq![history_relation(records_of(times, 4))],
        times.len() == 4,
        increasing(times),
        0 <= i < 4,
        stands_for(a, vt),
        stands_for(b, times[i]),
    ensures
        input_of(rels, t, None, read_atom(a, b), ctx) == Ok::<(Seq<ExprV>, Seq<Seq<Value>>), Fault>(
            (read_terms(), read_rows(times, vt, i)),
        ),
{
    let rel = history_relation(records_of(times, 4));
    law_history_reads(times, vt, i);
    assert(eval_of(a, Seq::empty(), Seq::empty(), ctx) == Ok::<Value, Fault>(Value::Int(vt)));
    assert(eval_of(b, Seq::empty(), Seq::empty(), ctx) == Ok::<Value, Fault>(
        Value::Int(times[i]),
    ));
    assert(selected(Some(a), false, ctx) == Ok::<Option<i64>, Fault>(Some(vt)));
    assert(selected(Some(b), true, ctx) == Ok::<Option<i64>, Fault>(Some(times[i])));
    assert(rels[0] == rel);
    assert(rel_place(rels, "hist"@) == 0);
    assert(columns_of(rel).len() == 4);
    assert(names_of(columns_of(rel)).len() == 4);
    assert(read_terms().len() == 4);
}

/// What a query of the fact answers with.
pub open spec fn answer(vt: i64, i: int) -> SourceV {
    SourceV { cols: seq!["x"@], rows: answer_rows(vt, i) }
}

/// The rows that a query of the fact answers with.
pub open spec fn answer_rows(vt: i64, i: int) -> Seq<Seq<Value>> {
    match timeline(vt, i) {
        None => Seq::empty(),
        Some(x) => seq![seq![Value::Int(x)]],
    }
}

proof fn lemma_read_picked(times: Seq<i64>, vt: i64, i: int)
    ensures
        head_places_from(read_head(), read_cols(), 0, Seq::empty()) == Ok::<Seq<usize>, Fault>(
            seq![3usize],
        ),
        all_picked(read_rows(times, vt, i), seq![3usize]) == answer_rows(vt, i),
{
    lemma_read_names();
    reveal_with_fuel(place_from, 5);
    assert(place(read_cols(), "x"@) == 3);
    let none = Seq::<usize>::empty();
    assert(none.push(3usize) =~= seq![3usize]);
    assert(head_places_from(read_head(), read_cols(), 1, seq![3usize]) == Ok::<Seq<usize>, Fault>(
        seq![3usize],
    ));
    if let Some(x) = timeline(vt, i) {
        let row = shown_row(times, x - 1);
        assert(row.len() == 4 && row[3] == Value::Int(x));
        assert(picked(row, seq![3usize]) =~= seq![Value::Int(x)]);
    }
    assert(all_picked(read_rows(times, vt, i), seq![3usize]) =~= answer_rows(vt, i));
}

proof fn lemma_read_gives(
    rels: Seq<RelationV>,
    times: Seq<i64>,
    vt: i64,
    i: int,
    a: ExprV,
    b: ExprV,
    ctx: Ctx,
)
    requires
        rels == seq![history_relation(records_of(times, 4))],
        times.len() == 4,
        increasing(times),
        0 <= i < 4,
        stands_for(a, vt),
        stands_for(b, times[i]),
    ensures
        gives(rels, read_rule(a, b), Seq::empty(), ctx, answer_rows(vt, i)),
{
    let c = branched(ctx, 0);
    let d = branched(c, 0);
    let r = read_rule(a, b);
    let atom = read_atom(a, b);
    let cs = seq![seq![atom]];
    let src = read_rows(times, vt, i);
    let none = Seq::<Seq<Value>>::empty();
    let got = SourceV { cols: read_cols(), rows: src };
    assert(src.len() == 1 ==> src[0].len() == 4);
    lemma_read_picked(times, vt, i);
    lemma_one_arranged(seq![atom]);
    let atoms = arranged(seq![atom]);
    assert forall|t: Seq<TableV>| #[trigger] rule_rows(rels, t, None, r, Seq::empty(), c) == Ok::<
        Seq<Seq<Value>>,
        Fault,
    >(answer_rows(vt, i)) by {
        let e = branched(d, 0);
        lemma_read_input(rels, t, times, vt, i, a, b, e);
        lemma_read_combined(src, e);
        assert(narrowed(rels, t, None, unit(), atom, e) == Ok::<SourceV, Fault>(got));
        assert(clause_from(rels, t, None, atoms, 1, got, d) == Ok::<SourceV, Fault>(got));
        assert(clause_from(rels, t, None, atoms, 0, unit(), d) == Ok::<SourceV, Fault>(got));
        assert(none + answer_rows(vt, i) =~= answer_rows(vt, i));
        assert(clauses_from(rels, t, None, r.head, cs, 1, c, answer_rows(vt, i)) == Ok::<
            Seq<Seq<Value>>,
            Fault,
        >(answer_rows(vt, i)));
        assert(clauses_from(rels, t, None, r.head, cs, 0, c, none) == Ok::<
            Seq<Seq<Value>>,
            Fault,
        >(answer_rows(vt, i)));
    }
    reveal(gives);
}

proof fn lemma_read_asked(
    store: StoreV,
    times: Seq<i64>,
    vt: i64,
    i: int,
    a: ExprV,
    b: ExprV,
    ctx: Ctx,
)
    requires
        store.rels == seq![history_relation(records_of(times, 4))],
        times.len() == 4,
        increasing(times),
        0 <= i < 4,
        stands_for(a, vt),
        stands_for(b, times[i]),
    ensures
        asked(store, Seq::empty(), read_program(a, b), Seq::empty(), ctx) == Ok::<SourceV, Fault>(
            answer(vt, i),
        ),
{
    let p = read_program(a, b);
    let r = read_rule(a, b);
    lemma_read_gives(store.rels, times, vt, i, a, b, ctx);
    assert(plain_head(r.head));
    assert(stands_alone(r.body));
    assert(labels_of(r.head) =~= seq!["x"@]);
    match timeline(vt, i) {
        None => law_single_empty(store, p, r, Seq::empty(), ctx),
        Some(x) => law_single_row(store, p, r, Seq::empty(), ctx, seq![Value::Int(x)]),
    }
}

proof fn lemma_instant(vt: i64)
    ensures
        stands_for(instant_expr(vt), vt),
{
    let e = instant_expr(vt);
    let n = Seq::<Seq<char>>::empty();
    let none = Seq::<Value>::empty();
    if i64::MIN < vt < 0 {
        let c = ExprV::Const(Value::Int((-vt) as i64));
        let args = seq![c];
        let got = seq![Value::Int((-vt) as i64)];
        assert(none.push(Value::Int((-vt) as i64)) =~= got);
        assert forall|ctx: Ctx| #[trigger] eval_of(e, n, none, ctx) == Ok::<Value, Fault>(
            Value::Int(vt),
        ) by {
            assert(eval_of(c, n, none, branched(ctx, 0)) == Ok::<Value, Fault>(
                Value::Int((-vt) as i64),
            ));
            assert(eval_args_from(args, 1, n, none, ctx, got) == Ok::<Seq<Value>, Fault>(got));
            assert(eval_args_from(args, 0, n, none, ctx, none) == Ok::<Seq<Value>, Fault>(got));
            assert(apply_op(Op::Neg, got, ctx) == Ok::<Value, Fault>(Value::Int(vt)));
        }
    }
}

proof fn lemma_read_ran(
    store: StoreV,
    times: Seq<i64>,
    vt: i64,
    i: int,
    ro: bool,
    now: i64,
)
    requires
        holds_history(store, records_of(times, 4)),
        times.len() == 4,
        increasing(times),
        0 <= i < 4,
        store.tick < u64::MAX,
    ensures
        ran(
            store,
            read_program(instant_expr(vt), ExprV::Const(Value::Int(times[i]))),
            Seq::empty(),
            now,
            ro,
        ) == Ok::<DoneV, Fault>(
            DoneV {
                store: StoreV { tick: (store.tick + 1) as u64, ..store },
                out: answer(vt, i),
            },
        ),
{
    reveal(ran);
    let s = StoreV { tick: (store.tick + 1) as u64, ..store };
    lemma_instant(vt);
    let b = ExprV::Const(Value::Int(times[i]));
    assert(stands_for(b, times[i]));
    lemma_read_asked(s, times, vt, i, instant_expr(vt), b, context(s, now));
}

/// A script that asks what the fact is at any instant, as of each of the writes
/// of the history, answers with what it is by its timeline, and with nothing
/// where there is none.
pub proof fn law_history_answers(
    db: DbV,
    times: Seq<i64>,
    vt: i64,
    i: int,
    ro: bool,
    now: i64,
)
    requires
        is_history(db, times),
        0 <= i < 4,
    ensures
        after_script(db.inst, read_text(vt, times[i]), Seq::empty(), ro, now) matches Ok((_, out))
            && out == answer(vt, i),
{
    let store = db.inst.store;
    let p = read_program(instant_expr(vt), ExprV::Const(Value::Int(times[i])));
    assert(i > 0 ==> times[0] < times[i]);
    lemma_read_script(vt, times[i]);
    assert(db.inst.customs =~= Seq::empty());
    lemma_read_ran(store, times, vt, i, ro, now);
    lemma_one_statement(store, p, now, ro);
    lemma_lasting(records_of(times, 4));
}

/// The history reads the same in whichever engine it was made, and whenever.
pub proof fn law_history_is_one(
    a: Seq<char>,
    b: Seq<char>,
    nows: Seq<i64>,
    thens: Seq<i64>,
    vt: i64,
    i: int,
    now: i64,
    later: i64,
)
    requires
        nows.len() == 5,
        thens.len() == 5,
        history_of(a, nows) is Ok,
        history_of(b, thens) is Ok,
        0 <= i < 4,
    ensures
        ({
            let (x, s) = history_of(a, nows)->Ok_0;
            let (y, t) = history_of(b, thens)->Ok_0;
            after_script(x.inst, read_text(vt, s[i]), Seq::empty(), true, now) matches Ok((_, out))
                && after_script(
                y.inst,
                read_text(vt, t[i]),
                Seq::empty(),
                true,
                later,
            ) matches Ok((_, other)) && out == other
        }),
{
    law_history_is_made(a, nows);
    law_history_is_made(b, thens);
    let (x, s) = history_of(a, nows)->Ok_0;
    let (y, t) = history_of(b, thens)->Ok_0;
    law_history_answers(x, s, vt, i, true, now);
    law_history_answers(y, t, vt, i, true, later);
}

} // verus!
