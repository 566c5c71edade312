//! What the scripts of the history do to a database.
use vstd::prelude::*;

use crate::codec::encode_row_of;
use crate::db::ticked_to;
use crate::error::{ErrKind, Fault, fault, fault_on};
use crate::eval::{labels_of, list_rows_from};
use crate::expr::{Ctx, ExprV, branched, eval_args_from, eval_of, place, place_from};
use crate::history_parse::{
    create_program, history_keys, history_vals, loose, put_head, put_point, put_program, put_row,
    put_rows,
};
use crate::instance::{InstanceV, after_script};
use crate::law_single::{gives, law_single_row, plain_head};
use crate::mutate::{
    DoneV, EffectV, asked, context, created, foreign_from, fresh_relation, givens_from, is_temp,
    names_tt, nothing, put_rows_of, put_tt_of, ran, repeated_from, written, written_names,
};
use crate::parse_script::script_of;
use crate::query::{BodyV, ProgramV, RuleV, WriteKind, WriteV};
use crate::scan::SourceV;
use crate::schema::{
    ColType, ColumnV, RelKind, axis_fault, axis_from, declares, kind_of, to_validity,
};
use crate::script::{StateV, lasting_from, run_from, script_done, step_of};
use crate::stmt::StmtV;
use crate::store::{
    PendingV, RecordV, RelationV, StoreV, columns_of, decoded_from, names_of, rel_place, with_rec,
};
use crate::value::Value;
use crate::write::{WorkV, fill_of, fills_from, given_at, salted};
use crate::write_tt::{bi_row_of, first_cols, report_row, stamped_from, stamped_key, tt_rows_from};

verus! {

/// The relation of the history with these records.
pub open spec fn history_relation(recs: Seq<RecordV>) -> RelationV {
    RelationV { recs, ..fresh_relation("hist"@, 1, history_keys(), history_vals()) }
}

/// The columns of a row that is written.
spec fn written_cols() -> Seq<Seq<char>> {
    seq!["k"@, "v"@, "x"@]
}

/// The row that a script writes, as it is given.
spec fn given_row(vt: i64, up: bool, x: i64) -> Seq<Value> {
    seq![
        Value::Int(1),
        Value::List(seq![Value::Int(vt), Value::Bool(up)]),
        Value::Int(x),
    ]
}

#[verifier::spinoff_prover]
#[verifier::rlimit(40)]
proof fn lemma_consts(a: ExprV, b: ExprV, c: ExprV, u: Value, v: Value, w: Value, ctx: Ctx)
    requires
        forall|k: int| #[trigger]
            eval_of(a, Seq::empty(), Seq::empty(), branched(ctx, k)) == Ok::<Value, Fault>(u),
        forall|k: int| #[trigger]
            eval_of(b, Seq::empty(), Seq::empty(), branched(ctx, k)) == Ok::<Value, Fault>(v),
        forall|k: int| #[trigger]
            eval_of(c, Seq::empty(), Seq::empty(), branched(ctx, k)) == Ok::<Value, Fault>(w),
    ensures
        eval_args_from(seq![a, b, c], 0, Seq::empty(), Seq::empty(), ctx, Seq::empty()) == Ok::<
            Seq<Value>,
            Fault,
        >(seq![u, v, w]),
        eval_args_from(seq![a, b], 0, Seq::empty(), Seq::empty(), ctx, Seq::empty()) == Ok::<
            Seq<Value>,
            Fault,
        >(seq![u, v]),
        eval_args_from(seq![a], 0, Seq::empty(), Seq::empty(), ctx, Seq::empty()) == Ok::<
            Seq<Value>,
            Fault,
        >(seq![u]),
{
    let none = Seq::<Value>::empty();
    let n = Seq::<Seq<char>>::empty();
    let e = seq![u];
    let f = seq![u, v];
    let g = seq![u, v, w];
    assert(none.push(u) =~= e);
    assert(e.push(v) =~= f);
    assert(f.push(w) =~= g);
    assert(eval_of(a, n, none, branched(ctx, 0)) == Ok::<Value, Fault>(u));
    assert(eval_of(b, n, none, branched(ctx, 1)) == Ok::<Value, Fault>(v));
    assert(eval_of(c, n, none, branched(ctx, 2)) == Ok::<Value, Fault>(w));
    let x = seq![a, b, c];
    assert(eval_args_from(x, 3, n, none, ctx, g) == Ok::<Seq<Value>, Fault>(g));
    assert(eval_args_from(x, 2, n, none, ctx, f) == Ok::<Seq<Value>, Fault>(g));
    assert(eval_args_from(x, 1, n, none, ctx, e) == Ok::<Seq<Value>, Fault>(g));
    let y = seq![a, b];
    assert(eval_args_from(y, 2, n, none, ctx, f) == Ok::<Seq<Value>, Fault>(f));
    assert(eval_args_from(y, 1, n, none, ctx, e) == Ok::<Seq<Value>, Fault>(f));
    let z = seq![a];
    assert(eval_args_from(z, 1, n, none, ctx, e) == Ok::<Seq<Value>, Fault>(e));
}

#[verifier::spinoff_prover]
#[verifier::rlimit(40)]
proof fn lemma_put_value(vt: i64, up: bool, x: i64, ctx: Ctx)
    ensures
        eval_of(put_rows(vt, up, x), Seq::empty(), Seq::empty(), ctx) == Ok::<Value, Fault>(
            Value::List(seq![Value::List(given_row(vt, up, x))]),
        ),
{
    let one = ExprV::Const(Value::Int(1));
    let a = ExprV::Const(Value::Int(vt));
    let b = ExprV::Const(Value::Bool(up));
    let c = ExprV::Const(Value::Int(x));
    let p = put_point(vt, up);
    let pv = Value::List(seq![Value::Int(vt), Value::Bool(up)]);
    let r = put_row(vt, up, x);
    let rv = Value::List(given_row(vt, up, x));
    let none = Seq::<Seq<char>>::empty();
    let bare = Seq::<Value>::empty();
    assert forall|d: Ctx| #[trigger] eval_of(p, none, bare, d) == Ok::<Value, Fault>(pv) by {
        lemma_consts(a, b, a, Value::Int(vt), Value::Bool(up), Value::Int(vt), d);
    }
    assert forall|d: Ctx| #[trigger] eval_of(r, none, bare, d) == Ok::<Value, Fault>(rv) by {
        lemma_consts(one, p, c, Value::Int(1), pv, Value::Int(x), d);
    }
    lemma_consts(r, r, r, rv, rv, rv, ctx);
}

#[verifier::spinoff_prover]
#[verifier::rlimit(40)]
proof fn lemma_put_gives(rels: Seq<RelationV>, vt: i64, up: bool, x: i64, ctx: Ctx)
    ensures
        gives(
            rels,
            RuleV { name: "?"@, head: put_head(), body: BodyV::Rows(put_rows(vt, up, x)) },
            Seq::empty(),
            ctx,
            seq![given_row(vt, up, x)],
        ),
{
    let r = RuleV { name: "?"@, head: put_head(), body: BodyV::Rows(put_rows(vt, up, x)) };
    let row = given_row(vt, up, x);
    let none = Seq::<Seq<Value>>::empty();
    let l = seq![Value::List(row)];
    assert(row.len() == 3 && put_head().len() == 3);
    assert(list_rows_from(l, 3, 1, seq![row]) == Ok::<Seq<Seq<Value>>, Fault>(seq![row]));
    assert(none.push(row) =~= seq![row]);
    assert(list_rows_from(l, 3, 0, none) == Ok::<Seq<Seq<Value>>, Fault>(seq![row]));
    lemma_put_value(vt, up, x, branched(ctx, 0));
    reveal(gives);
}

#[verifier::spinoff_prover]
#[verifier::rlimit(40)]
proof fn lemma_put_answer(store: StoreV, vt: i64, up: bool, x: i64, ctx: Ctx)
    ensures
        asked(store, Seq::empty(), put_program(vt, up, x), Seq::empty(), ctx) == Ok::<
            SourceV,
            Fault,
        >(SourceV { cols: written_cols(), rows: seq![given_row(vt, up, x)] }),
{
    let p = put_program(vt, up, x);
    let r = RuleV { name: "?"@, head: put_head(), body: BodyV::Rows(put_rows(vt, up, x)) };
    let row = given_row(vt, up, x);
    lemma_put_gives(store.rels, vt, up, x, ctx);
    assert(plain_head(put_head()));
    assert(labels_of(put_head()) =~= written_cols());
    law_single_row(store, p, r, Seq::empty(), ctx, row);
}

proof fn lemma_names()
    ensures
        "k"@ != "v"@,
        "k"@ != "tt"@,
        "k"@ != "x"@,
        "v"@ != "tt"@,
        "v"@ != "x"@,
        "tt"@ != "x"@,
        !is_temp("hist"@),
{
    reveal_strlit("k");
    reveal_strlit("v");
    reveal_strlit("tt");
    reveal_strlit("x");
    reveal_strlit("hist");
    assert("k"@[0] != "v"@[0]);
    assert("k"@[0] != "x"@[0]);
    assert("v"@[0] != "x"@[0]);
    assert("tt"@.len() == 2 && "k"@.len() == 1 && "v"@.len() == 1 && "x"@.len() == 1);
    assert("hist"@[0] != '_');
}

/// The names of all columns.
spec fn all_cols() -> Seq<Seq<char>> {
    seq!["k"@, "v"@, "tt"@, "x"@]
}

proof fn lemma_columns(rel: RelationV)
    requires
        rel.keys == history_keys(),
        rel.vals == history_vals(),
    ensures
        columns_of(rel).len() == 4,
        columns_of(rel)[0] == history_keys()[0],
        columns_of(rel)[1] == history_keys()[1],
        columns_of(rel)[2] == history_keys()[2],
        columns_of(rel)[3] == history_vals()[0],
        names_of(columns_of(rel)) == all_cols(),
        names_of(history_keys()) + names_of(history_vals()) == all_cols(),
        kind_of(rel.keys) == RelKind::Bi,
{
    assert(names_of(columns_of(rel)) =~= all_cols());
    assert(names_of(history_keys()) + names_of(history_vals()) =~= all_cols());
}

/// Where the columns of a written row stand.
spec fn put_givens() -> Seq<Option<usize>> {
    seq![Some(0usize), Some(1usize), None, Some(2usize)]
}

#[verifier::spinoff_prover]
#[verifier::rlimit(40)]
proof fn lemma_put_givens(rel: RelationV)
    requires
        rel.keys == history_keys(),
        rel.vals == history_vals(),
    ensures
        foreign_from(written_cols(), all_cols(), 0) == 3,
        !names_tt(rel.keys, written_cols()),
        givens_from(columns_of(rel), written_cols(), written_cols(), false, 0, Seq::empty())
            == Ok::<Seq<Option<usize>>, Fault>(put_givens()),
{
    lemma_names();
    lemma_columns(rel);
    reveal_with_fuel(place_from, 5);
    assert(place(written_cols(), "k"@) == 0);
    assert(place(written_cols(), "v"@) == 1);
    assert(place(written_cols(), "x"@) == 2);
    assert(place(written_cols(), "tt"@) == 3);
    assert(place(all_cols(), "k"@) == 0);
    assert(place(all_cols(), "v"@) == 1);
    assert(place(all_cols(), "x"@) == 3);
    reveal_with_fuel(foreign_from, 4);
    reveal_with_fuel(givens_from, 5);
    let none = Seq::<Option<usize>>::empty();
    assert(none.push(Some(0usize)).push(Some(1usize)).push(None).push(Some(2usize))
        =~= put_givens());
}

/// What a script leaves to be committed.
spec fn put_pending(vt: i64, up: bool, x: i64) -> PendingV {
    PendingV {
        rel: "hist"@,
        key: seq![Value::Int(1), Value::Validity(vt, up)],
        flag: true,
        vals: seq![Value::Int(x)],
    }
}

#[verifier::spinoff_prover]
#[verifier::rlimit(40)]
proof fn lemma_put_fills(rel: RelationV, vt: i64, up: bool, x: i64, ctx: Ctx)
    requires
        rel.keys == history_keys(),
        rel.vals == history_vals(),
    ensures
        fills_from(
            first_cols(rel.keys, 2),
            put_givens(),
            0,
            given_row(vt, up, x),
            ctx,
            0,
            Seq::empty(),
        ) == Ok::<Seq<Value>, Fault>(seq![Value::Int(1), Value::Validity(vt, up)]),
        fills_from(rel.vals, put_givens(), 3, given_row(vt, up, x), ctx, 0, Seq::empty()) == Ok::<
            Seq<Value>,
            Fault,
        >(seq![Value::Int(x)]),
{
    let none = Seq::<Value>::empty();
    let gs = put_givens();
    let row = given_row(vt, up, x);
    let c = first_cols(rel.keys, 2);
    assert(c.len() == 2 && c[0] == history_keys()[0] && c[1] == history_keys()[1]);
    let d = branched(branched(ctx, 0), 0);
    let e = branched(branched(ctx, 0), 1);
    let f = branched(branched(ctx, 3), 0);
    lemma_fact_column(c[0], row, d);
    lemma_point_column(c[1], row, vt, up, e);
    lemma_value_column(rel.vals[0], row, x, f);
    let k = seq![Value::Int(1)];
    let kv = seq![Value::Int(1), Value::Validity(vt, up)];
    assert(none.push(Value::Int(1)) =~= k);
    assert(k.push(Value::Validity(vt, up)) =~= kv);
    assert(none.push(Value::Int(x)) =~= seq![Value::Int(x)]);
    assert(given_at(gs, 0) == Some(0usize) && given_at(gs, 1) == Some(1usize) && given_at(gs, 3)
        == Some(2usize));
    assert(fills_from(c, gs, 0, row, ctx, 2, kv) == Ok::<Seq<Value>, Fault>(kv));
    assert(fills_from(c, gs, 0, row, ctx, 1, k) == Ok::<Seq<Value>, Fault>(kv));
    assert(fills_from(c, gs, 0, row, ctx, 0, none) == Ok::<Seq<Value>, Fault>(kv));
    let v = seq![Value::Int(x)];
    assert(fills_from(rel.vals, gs, 3, row, ctx, 1, v) == Ok::<Seq<Value>, Fault>(v));
    assert(fills_from(rel.vals, gs, 3, row, ctx, 0, none) == Ok::<Seq<Value>, Fault>(v));
}

proof fn lemma_fact_column(c: ColumnV, row: Seq<Value>, ctx: Ctx)
    requires
        c.typ == ColType::Any,
        row.len() == 3,
        row[0] == Value::Int(1),
    ensures
        fill_of(c, Some(0usize), row, ctx) == Ok::<Value, Fault>(Value::Int(1)),
{
}

proof fn lemma_point_column(c: ColumnV, row: Seq<Value>, vt: i64, up: bool, ctx: Ctx)
    requires
        c.typ == ColType::Validity,
        row.len() == 3,
        row[1] == Value::List(seq![Value::Int(vt), Value::Bool(up)]),
    ensures
        fill_of(c, Some(1usize), row, ctx) == Ok::<Value, Fault>(Value::Validity(vt, up)),
{
    assert(to_validity(row[1], ctx.now) == Some(Value::Validity(vt, up)));
}

proof fn lemma_value_column(c: ColumnV, row: Seq<Value>, x: i64, ctx: Ctx)
    requires
        c.typ == ColType::Int,
        row.len() == 3,
        row[2] == Value::Int(x),
    ensures
        fill_of(c, Some(2usize), row, ctx) == Ok::<Value, Fault>(Value::Int(x)),
{
}

/// What one write leaves.
spec fn put_work(vt: i64, up: bool, x: i64) -> WorkV {
    WorkV {
        recs: Seq::empty(),
        pending: seq![put_pending(vt, up, x)],
        news: seq![report_row(put_pending(vt, up, x).key, seq![Value::Int(x)])],
        olds: Seq::empty(),
    }
}

/// The work before anything is written.
spec fn no_work() -> WorkV {
    WorkV {
        recs: Seq::empty(),
        pending: Seq::empty(),
        news: Seq::empty(),
        olds: Seq::empty(),
    }
}

#[verifier::spinoff_prover]
#[verifier::rlimit(40)]
proof fn lemma_put_row(
    rel: RelationV,
    olds: Seq<Seq<Value>>,
    vt: i64,
    up: bool,
    x: i64,
    ctx: Ctx,
)
    requires
        rel.name == "hist"@,
        rel.keys == history_keys(),
        rel.vals == history_vals(),
    ensures
        tt_rows_from(
            WriteKind::Put,
            rel,
            olds,
            put_givens(),
            seq![given_row(vt, up, x)],
            ctx,
            0,
            0,
            no_work(),
        ) == Ok::<WorkV, Fault>(put_work(vt, up, x)),
{
    lemma_columns(rel);
    let row = given_row(vt, up, x);
    let c = salted(ctx, 0);
    lemma_put_fills(rel, vt, up, x, c);
    let work = put_work(vt, up, x);
    let p = put_pending(vt, up, x);
    assert(no_work().pending.push(p) =~= work.pending);
    assert(no_work().news.push(report_row(p.key, p.vals)) =~= work.news);
    assert(rel.keys.len() == 3);
    assert(bi_row_of(WriteKind::Put, rel, olds, put_givens(), row, c, 0, no_work()) == Ok::<
        WorkV,
        Fault,
    >(work));
    assert(tt_rows_from(
        WriteKind::Put,
        rel,
        olds,
        put_givens(),
        seq![row],
        ctx,
        0,
        1,
        work,
    ) == Ok::<WorkV, Fault>(work));
}

/// Whether a store holds the history with these records and nothing else, with
/// nothing left to be committed.
pub open spec fn holds_history(store: StoreV, recs: Seq<RecordV>) -> bool {
    &&& store.rels == seq![history_relation(recs)]
    &&& store.pending.len() == 0
    &&& store.declared.len() == 0
    &&& store.events.len() == 0
    &&& decoded_from(recs, 0, Seq::empty()) is Ok
}

/// The write of a script.
spec fn put_write() -> WriteV {
    WriteV {
        kind: WriteKind::Put,
        rel: "hist"@,
        keys: seq![loose("k"@), loose("v"@)],
        vals: seq![loose("x"@)],
    }
}

/// What a write has done.
spec fn put_effect(store: StoreV, vt: i64, up: bool, x: i64) -> EffectV {
    EffectV {
        store: StoreV { pending: seq![put_pending(vt, up, x)], ..store },
        news: put_work(vt, up, x).news,
        olds: Seq::empty(),
    }
}

#[verifier::spinoff_prover]
#[verifier::rlimit(40)]
proof fn lemma_put_tt(
    store: StoreV,
    recs: Seq<RecordV>,
    vt: i64,
    up: bool,
    x: i64,
    ctx: Ctx,
)
    requires
        holds_history(store, recs),
    ensures
        put_tt_of(
            store,
            0,
            WriteKind::Put,
            put_givens(),
            seq![given_row(vt, up, x)],
            ctx,
        ) == Ok::<EffectV, Fault>(put_effect(store, vt, up, x)),
{
    let rel = history_relation(recs);
    assert(store.rels[0] == rel);
    let olds = decoded_from(recs, 0, Seq::empty())->Ok_0;
    lemma_put_row(rel, olds, vt, up, x, ctx);
    assert(store.pending =~= Seq::empty());
    assert(place(store.declared, rel.name) == 0);
}

#[verifier::spinoff_prover]
#[verifier::rlimit(40)]
proof fn lemma_put_rows_of(
    store: StoreV,
    recs: Seq<RecordV>,
    vt: i64,
    up: bool,
    x: i64,
    ctx: Ctx,
)
    requires
        holds_history(store, recs),
    ensures
        put_rows_of(
            store,
            0,
            put_write(),
            SourceV { cols: written_cols(), rows: seq![given_row(vt, up, x)] },
            false,
            ctx,
        ) == Ok::<EffectV, Fault>(put_effect(store, vt, up, x)),
{
    let rel = history_relation(recs);
    assert(store.rels[0] == rel);
    lemma_columns(rel);
    lemma_put_givens(rel);
    assert(written_names(put_write(), written_cols()) =~= written_cols());
    assert(written_cols().len() == 3);
    lemma_put_tt(store, recs, vt, up, x, ctx);
}

#[verifier::spinoff_prover]
#[verifier::rlimit(40)]
proof fn lemma_put_written(
    store: StoreV,
    recs: Seq<RecordV>,
    vt: i64,
    up: bool,
    x: i64,
    ctx: Ctx,
)
    requires
        holds_history(store, recs),
    ensures
        written(
            store,
            put_write(),
            SourceV { cols: written_cols(), rows: seq![given_row(vt, up, x)] },
            ctx,
        ) == Ok::<EffectV, Fault>(put_effect(store, vt, up, x)),
{
    assert(store.rels[0] == history_relation(recs));
    assert(rel_place(store.rels, "hist"@) == 0);
    lemma_put_rows_of(store, recs, vt, up, x, ctx);
}

/// A store after a script has run and before it is committed.
spec fn put_left(store: StoreV, next: StoreV, vt: i64, up: bool, x: i64) -> bool {
    &&& next.rels == store.rels
    &&& next.next_id == store.next_id
    &&& next.hwm == store.hwm
    &&& next.tick == store.tick + 1
    &&& next.pending == seq![put_pending(vt, up, x)]
}

#[verifier::spinoff_prover]
#[verifier::rlimit(40)]
proof fn lemma_put_ran(
    store: StoreV,
    recs: Seq<RecordV>,
    vt: i64,
    up: bool,
    x: i64,
    now: i64,
)
    requires
        holds_history(store, recs),
        store.tick < u64::MAX,
    ensures
        ran(store, put_program(vt, up, x), Seq::empty(), now, false) matches Ok(d) && put_left(
            store,
            d.store,
            vt,
            up,
            x,
        ),
{
    reveal(ran);
    let p = put_program(vt, up, x);
    let s = StoreV { tick: (store.tick + 1) as u64, ..store };
    let ctx = context(s, now);
    lemma_put_answer(s, vt, up, x, ctx);
    lemma_put_written(s, recs, vt, up, x, ctx);
    assert(p.write == Some(put_write()));
    assert(rel_place(s.rels, "hist"@) == 0);
    assert(s.rels[0].triggers.len() == 0);
}

pub proof fn lemma_lasting(recs: Seq<RecordV>)
    ensures
        lasting_from(seq![history_relation(recs)], 0, Seq::empty()) == seq![
            history_relation(recs),
        ],
{
    lemma_names();
    let rels = seq![history_relation(recs)];
    let none = Seq::<RelationV>::empty();
    assert(none.push(rels[0]) =~= rels);
    assert(lasting_from(rels, 1, rels) == rels);
}

/// A script of one statement does what the statement does.
pub proof fn lemma_one_statement(store: StoreV, p: ProgramV, now: i64, ro: bool)
    requires
        ran(store, p, Seq::empty(), now, ro) is Ok,
    ensures
        ({
            let d = ran(store, p, Seq::empty(), now, ro)->Ok_0;
            script_done(store, seq![StmtV::Query(p, None, false)], Seq::empty(), now, ro) == Ok::<
                DoneV,
                Fault,
            >(
                DoneV {
                    store: StoreV {
                        rels: lasting_from(d.store.rels, 0, Seq::empty()),
                        ..d.store
                    },
                    out: d.out,
                },
            )
        }),
{
    reveal(step_of);
    let ss = seq![StmtV::Query(p, None, false)];
    let d = ran(store, p, Seq::empty(), now, ro)->Ok_0;
    let start = StateV { store, pc: 0, out: nothing(), over: false };
    let next = StateV { store: d.store, pc: 1, out: d.out, over: false };
    assert(step_of(start, ss, Seq::empty(), now, ro) == Ok::<StateV, Fault>(next));
    reveal_with_fuel(run_from, 3);
}

/// The record that a write leaves.
pub open spec fn history_record(vt: i64, up: bool, tt: i64, x: i64) -> RecordV {
    RecordV {
        key: seq![Value::Int(1), Value::Validity(vt, up), Value::Validity(tt, true)],
        blob: encode_row_of(seq![Value::Int(x)]),
    }
}

/// The records with that of one more write.
pub open spec fn with_write(recs: Seq<RecordV>, vt: i64, up: bool, tt: i64, x: i64) -> Seq<
    RecordV,
> {
    let r = history_record(vt, up, tt, x);
    with_rec(recs, r.key, r.blob)
}

proof fn lemma_stamped(recs: Seq<RecordV>, vt: i64, up: bool, x: i64, tt: i64)
    ensures
        stamped_from(seq![history_relation(recs)], seq![put_pending(vt, up, x)], tt, 0) == seq![
            history_relation(with_write(recs, vt, up, tt, x)),
        ],
{
    let rels = seq![history_relation(recs)];
    let p = put_pending(vt, up, x);
    lemma_columns(rels[0]);
    assert(rel_place(rels, "hist"@) == 0);
    assert(stamped_key(p, RelKind::Bi, tt) =~= history_record(vt, up, tt, x).key);
    let next = rels.update(0, history_relation(with_write(recs, vt, up, tt, x)));
    assert(next =~= seq![history_relation(with_write(recs, vt, up, tt, x))]);
    assert(stamped_from(next, seq![p], tt, 1) == next);
}

/// A script that writes one row adds its record, with the next time of the
/// clock.
#[verifier::spinoff_prover]
#[verifier::rlimit(40)]
pub proof fn lemma_put_done(
    i: InstanceV,
    recs: Seq<RecordV>,
    script: Seq<char>,
    vt: i64,
    up: bool,
    x: i64,
    now: i64,
)
    requires
        script_of(script, Seq::empty()) == Ok::<Seq<StmtV>, Fault>(
            seq![StmtV::Query(put_program(vt, up, x), None, false)],
        ),
        holds_history(i.store, recs),
        i.customs.len() == 0,
        i.store.tick < u64::MAX,
        i.clock < i64::MAX,
    ensures
        after_script(i, script, Seq::empty(), false, now) matches Ok((j, _)) && {
            &&& j.clock == ticked_to(i.clock, now)
            &&& j.store.rels == seq![history_relation(with_write(recs, vt, up, j.clock, x))]
            &&& j.store.pending.len() == 0
            &&& j.store.declared.len() == 0
            &&& j.store.events.len() == 0
            &&& j.store.tick == i.store.tick + 1
            &&& j.customs == i.customs
        },
{
    let p = put_program(vt, up, x);
    let tt = ticked_to(i.clock, now);
    assert(i.customs =~= Seq::empty());
    lemma_put_ran(i.store, recs, vt, up, x, now);
    lemma_one_statement(i.store, p, now, false);
    lemma_lasting(recs);
    lemma_stamped(recs, vt, up, x, tt);
}

/// It fails where the clock has run out.
#[verifier::spinoff_prover]
#[verifier::rlimit(40)]
pub proof fn lemma_put_fails(
    i: InstanceV,
    recs: Seq<RecordV>,
    script: Seq<char>,
    vt: i64,
    up: bool,
    x: i64,
    now: i64,
)
    requires
        script_of(script, Seq::empty()) == Ok::<Seq<StmtV>, Fault>(
            seq![StmtV::Query(put_program(vt, up, x), None, false)],
        ),
        holds_history(i.store, recs),
        i.customs.len() == 0,
        i.store.tick < u64::MAX,
        i.clock == i64::MAX,
    ensures
        after_script(i, script, Seq::empty(), false, now) == Err::<(InstanceV, SourceV), Fault>(
            fault(ErrKind::ClockExhausted),
        ),
{
    assert(i.customs =~= Seq::empty());
    lemma_put_ran(i.store, recs, vt, up, x, now);
    lemma_one_statement(i.store, put_program(vt, up, x), now, false);
}

/// The write that makes the relation.
spec fn create_write() -> WriteV {
    WriteV {
        kind: WriteKind::Create,
        rel: "hist"@,
        keys: history_keys(),
        vals: history_vals(),
    }
}

proof fn lemma_axes()
    ensures
        axis_fault(history_keys(), history_vals()) is None,
        repeated_from(all_cols(), 0) == 4,
{
    lemma_names();
    let k = history_keys();
    let v = history_vals();
    assert(!declares(k[0].typ, true) && !declares(k[1].typ, true) && declares(k[2].typ, true));
    assert(!declares(k[0].typ, false) && declares(k[1].typ, false) && !declares(k[2].typ, false));
    assert(!declares(v[0].typ, true));
    reveal_with_fuel(axis_from, 5);
    assert(axis_from(k, true, 0) == 2);
    assert(axis_from(k, true, 3) == 3);
    assert(axis_from(k, false, 0) == 1);
    assert(axis_from(k, false, 2) == 3);
    assert(axis_from(v, true, 0) == 1);
    reveal_with_fuel(place_from, 5);
    let a = all_cols();
    assert(place(a, a[0]) == 0);
    assert(place(a, a[1]) == 1);
    assert(place(a, a[2]) == 2);
    assert(place(a, a[3]) == 3);
    reveal_with_fuel(repeated_from, 5);
}

/// A store with the relation of the history, empty.
spec fn made_store(store: StoreV) -> StoreV {
    StoreV {
        rels: seq![history_relation(Seq::empty())],
        next_id: (store.next_id + 1) as u64,
        ..store
    }
}

proof fn lemma_created(store: StoreV)
    requires
        store.rels.len() == 0,
        store.next_id == 1,
    ensures
        created(store, "hist"@, history_keys(), history_vals()) == Ok::<StoreV, Fault>(
            made_store(store),
        ),
{
    lemma_names();
    lemma_axes();
    let rel = history_relation(Seq::empty());
    lemma_columns(rel);
    assert(store.rels.push(rel) =~= seq![rel]);
    assert(rel_place(store.rels, "hist"@) == 0);
    assert(fresh_relation("hist"@, store.next_id, history_keys(), history_vals()) == rel);
}

/// No column is given.
spec fn no_givens() -> Seq<Option<usize>> {
    seq![None, None, None, None]
}

#[verifier::spinoff_prover]
#[verifier::rlimit(40)]
proof fn lemma_create_givens(rel: RelationV)
    requires
        rel.keys == history_keys(),
        rel.vals == history_vals(),
    ensures
        foreign_from(all_cols(), all_cols(), 0) == 4,
        !names_tt(rel.keys, Seq::empty()),
        givens_from(columns_of(rel), all_cols(), Seq::empty(), true, 0, Seq::empty()) == Ok::<
            Seq<Option<usize>>,
            Fault,
        >(no_givens()),
{
    lemma_names();
    lemma_columns(rel);
    let a = all_cols();
    let e = Seq::<Seq<char>>::empty();
    reveal_with_fuel(place_from, 5);
    assert(place(a, a[0]) == 0);
    assert(place(a, a[1]) == 1);
    assert(place(a, a[2]) == 2);
    assert(place(a, a[3]) == 3);
    assert(place(e, a[0]) == 0 && place(e, a[1]) == 0 && place(e, a[2]) == 0 && place(e, a[3])
        == 0);
    reveal_with_fuel(foreign_from, 5);
    reveal_with_fuel(givens_from, 5);
    let none = Seq::<Option<usize>>::empty();
    assert(none.push(None).push(None).push(None).push(None) =~= no_givens());
}

#[verifier::spinoff_prover]
#[verifier::rlimit(40)]
proof fn lemma_create_rows_of(store: StoreV, ctx: Ctx)
    requires
        holds_history(store, Seq::empty()),
    ensures
        put_rows_of(store, 0, create_write(), nothing(), true, ctx) == Ok::<EffectV, Fault>(
            EffectV { store, news: Seq::empty(), olds: Seq::empty() },
        ),
{
    let rel = history_relation(Seq::empty());
    assert(store.rels[0] == rel);
    lemma_columns(rel);
    lemma_create_givens(rel);
    assert(written_names(create_write(), nothing().cols) == all_cols());
    assert(all_cols().len() == 4);
    assert(place(store.declared, rel.name) == 0);
    assert(store.pending =~= Seq::empty());
    assert(StoreV { pending: Seq::empty(), ..store } == store);
}

proof fn lemma_create_written(s: StoreV, ctx: Ctx)
    requires
        s.rels.len() == 0,
        s.next_id == 1,
        s.pending.len() == 0,
        s.declared.len() == 0,
        s.events.len() == 0,
    ensures
        written(s, create_write(), nothing(), ctx) == Ok::<EffectV, Fault>(
            EffectV { store: made_store(s), news: Seq::empty(), olds: Seq::empty() },
        ),
{
    let made = made_store(s);
    lemma_created(s);
    assert(decoded_from(Seq::empty(), 0, Seq::empty()) is Ok);
    assert(holds_history(made, Seq::empty()));
    assert(rel_place(made.rels, "hist"@) == 0);
    lemma_create_rows_of(made, ctx);
    assert(history_keys().len() == 3);
}

#[verifier::spinoff_prover]
#[verifier::rlimit(40)]
proof fn lemma_create_ran(store: StoreV, now: i64)
    requires
        store.rels.len() == 0,
        store.next_id == 1,
        store.pending.len() == 0,
        store.declared.len() == 0,
        store.events.len() == 0,
        store.tick < u64::MAX,
    ensures
        ran(store, create_program(), Seq::empty(), now, false) matches Ok(d) && d.store
            == made_store(StoreV { tick: (store.tick + 1) as u64, ..store }),
{
    let s = StoreV { tick: (store.tick + 1) as u64, ..store };
    let ctx = context(s, now);
    let made = made_store(s);
    lemma_create_written(s, ctx);
    assert(create_program().write == Some(create_write()));
    assert(asked(s, Seq::empty(), create_program(), Seq::empty(), ctx) == Ok::<SourceV, Fault>(
        nothing(),
    ));
    assert(rel_place(made.rels, "hist"@) == 0);
    assert(made.rels[0].triggers.len() == 0);
    reveal(ran);
}

/// The script that makes the relation leaves it empty, and the clock as it is.
#[verifier::spinoff_prover]
#[verifier::rlimit(40)]
pub proof fn lemma_create_done(i: InstanceV, script: Seq<char>, now: i64)
    requires
        script_of(script, Seq::empty()) == Ok::<Seq<StmtV>, Fault>(
            seq![StmtV::Query(create_program(), None, false)],
        ),
        i.store.rels.len() == 0,
        i.store.next_id == 1,
        i.store.pending.len() == 0,
        i.store.declared.len() == 0,
        i.store.events.len() == 0,
        i.store.tick < u64::MAX,
        i.customs.len() == 0,
    ensures
        after_script(i, script, Seq::empty(), false, now) matches Ok((j, _)) && {
            &&& j.clock == i.clock
            &&& holds_history(j.store, Seq::empty())
            &&& j.store.tick == i.store.tick + 1
            &&& j.customs == i.customs
        },
{
    assert(i.customs =~= Seq::empty());
    lemma_create_ran(i.store, now);
    lemma_one_statement(i.store, create_program(), now, false);
    lemma_lasting(Seq::empty());
    assert(decoded_from(Seq::empty(), 0, Seq::empty()) is Ok);
}

/// The script that makes the relation fails where there is one of its name.
pub proof fn lemma_create_refused(i: InstanceV, script: Seq<char>, now: i64)
    requires
        script_of(script, Seq::empty()) == Ok::<Seq<StmtV>, Fault>(
            seq![StmtV::Query(create_program(), None, false)],
        ),
        rel_place(i.store.rels, "hist"@) < i.store.rels.len(),
    ensures
        after_script(i, script, Seq::empty(), false, now) == Err::<(InstanceV, SourceV), Fault>(
            if i.store.tick == u64::MAX {
                fault(ErrKind::IdsExhausted)
            } else {
                fault_on(ErrKind::RelationExists, "hist"@)
            },
        ),
{
    let store = i.store;
    let p = create_program();
    let s = StoreV { tick: (store.tick + 1) as u64, ..store };
    let ctx = context(s, now);
    assert(p.write == Some(create_write()));
    assert(history_keys().len() == 3);
    assert(asked(s, Seq::empty(), p, i.customs, ctx) == Ok::<SourceV, Fault>(nothing()));
    reveal(ran);
    reveal(step_of);
    let ss = seq![StmtV::Query(p, None, false)];
    let start = StateV { store, pc: 0, out: nothing(), over: false };
    assert(ran(store, p, i.customs, now, false) is Err);
    assert(step_of(start, ss, i.customs, now, false) is Err);
    reveal_with_fuel(run_from, 2);
}

} // verus!
