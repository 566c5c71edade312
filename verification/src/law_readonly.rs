//! What a transaction that only reads leaves alone.
use vstd::prelude::*;

use crate::aggr::CustomV;
use crate::bind::TableV;
use crate::db::transacted;
use crate::error::Fault;
use crate::expr::Ctx;
use crate::law_store::{law_new_relation, law_write_keeps_sound, lemma_remove_rel, sound};
use crate::mutate::{
    DoneV, EffectV, StepV, asked, context, created, event_of_write, fire_from, fresh_relation,
    has_tt, is_temp, loose_columns, nothing, put_rows_of, ran, ran_alone, ticked, trigger_tables,
    written,
};
use crate::parse_script::script_of;
use crate::query::{ProgramV, WriteKind, WriteV};
use crate::scan::SourceV;
use crate::schema::ColumnV;
use crate::script::{StateV, lasting_from, plain_names, rows_kept, run_from, settled_step, step_of};
use crate::stmt::{ParamV, StmtV, SysOpV};
use crate::store::{EventV, RelationV, StoreV, TrigKind, TriggerV, lemma_rel_from, rel_place};
use crate::sysop::op_done;

verus! {

/// Whether the relations of scripts are without transaction times.
pub open spec fn temps_plain(s: StoreV) -> bool {
    forall|i: int|
        0 <= i < s.rels.len() && is_temp((#[trigger] s.rels[i]).name) ==> !has_tt(s.rels[i].keys)
}

/// Whether two stores agree in everything that outlives a script.
pub open spec fn agree(s: StoreV, t: StoreV) -> bool {
    &&& lasting_from(s.rels, 0, Seq::empty()) == lasting_from(t.rels, 0, Seq::empty())
    &&& s.pending == t.pending
    &&& s.hwm == t.hwm
}

proof fn lemma_lasting_alike(a: Seq<RelationV>, b: Seq<RelationV>, i: int, acc: Seq<RelationV>)
    requires
        0 <= i,
        a.len() == b.len(),
        forall|j: int|
            i <= j < a.len() ==> (#[trigger] a[j]) == b[j] || (is_temp(a[j].name) && is_temp(
                b[j].name,
            )),
    ensures
        lasting_from(a, i, acc) == lasting_from(b, i, acc),
    decreases a.len() - i,
{
    if i < a.len() {
        assert(a[i] == b[i] || (is_temp(a[i].name) && is_temp(b[i].name)));
        if is_temp(a[i].name) {
            lemma_lasting_alike(a, b, i + 1, acc);
        } else {
            lemma_lasting_alike(a, b, i + 1, acc.push(a[i]));
        }
    }
}

proof fn lemma_lasting_push(a: Seq<RelationV>, r: RelationV, i: int, acc: Seq<RelationV>)
    requires
        0 <= i <= a.len(),
        is_temp(r.name),
    ensures
        lasting_from(a.push(r), i, acc) == lasting_from(a, i, acc),
    decreases a.len() - i,
{
    let b = a.push(r);
    if i < a.len() {
        assert(b[i] == a[i]);
        if is_temp(a[i].name) {
            lemma_lasting_push(a, r, i + 1, acc);
        } else {
            lemma_lasting_push(a, r, i + 1, acc.push(a[i]));
        }
    } else {
        assert(b[i] == r);
        assert(lasting_from(b, i + 1, acc) == acc);
    }
}

proof fn lemma_lasting_shift(a: Seq<RelationV>, p: int, i: int, acc: Seq<RelationV>)
    requires
        0 <= p < i <= a.len(),
    ensures
        lasting_from(a.remove(p), i - 1, acc) == lasting_from(a, i, acc),
    decreases a.len() - i,
{
    let b = a.remove(p);
    if i < a.len() {
        assert(b[i - 1] == a[i]);
        if is_temp(a[i].name) {
            lemma_lasting_shift(a, p, i + 1, acc);
        } else {
            lemma_lasting_shift(a, p, i + 1, acc.push(a[i]));
        }
    }
}

proof fn lemma_lasting_remove(a: Seq<RelationV>, p: int, i: int, acc: Seq<RelationV>)
    requires
        0 <= i <= p < a.len(),
        is_temp(a[p].name),
    ensures
        lasting_from(a.remove(p), i, acc) == lasting_from(a, i, acc),
    decreases p - i,
{
    let b = a.remove(p);
    if i == p {
        lemma_lasting_shift(a, p, p + 1, acc);
    } else {
        assert(b[i] == a[i]);
        if is_temp(a[i].name) {
            lemma_lasting_remove(a, p, i + 1, acc);
        } else {
            lemma_lasting_remove(a, p, i + 1, acc.push(a[i]));
        }
    }
}

proof fn lemma_created(
    s: StoreV,
    name: Seq<char>,
    keys: Seq<ColumnV>,
    vals: Seq<ColumnV>,
    t: StoreV,
)
    requires
        sound(s),
        temps_plain(s),
        is_temp(name),
        created(s, name, keys, vals) == Ok::<StoreV, Fault>(t),
    ensures
        sound(t),
        temps_plain(t),
        agree(s, t),
        rel_place(t.rels, name) == s.rels.len(),
        t.rels.len() == s.rels.len() + 1,
        t.rels[s.rels.len() as int].name == name,
{
    law_new_relation(s, name, keys, vals, t);
    let r = fresh_relation(name, s.next_id, keys, vals);
    lemma_lasting_push(s.rels, r, 0, Seq::empty());
    assert forall|i: int|
        0 <= i < t.rels.len() && is_temp((#[trigger] t.rels[i]).name) implies !has_tt(
        t.rels[i].keys,
    ) by {
        if i < s.rels.len() {
            assert(t.rels[i] == s.rels[i]);
        }
    }
}

proof fn lemma_put(
    s: StoreV,
    p: int,
    w: WriteV,
    ans: SourceV,
    lenient: bool,
    ctx: Ctx,
    e: EffectV,
)
    requires
        sound(s),
        temps_plain(s),
        0 <= p < s.rels.len(),
        is_temp(s.rels[p].name),
        put_rows_of(s, p, w, ans, lenient, ctx) == Ok::<EffectV, Fault>(e),
    ensures
        temps_plain(e.store),
        agree(s, e.store),
{
    assert(!has_tt(s.rels[p].keys));
    let next = e.store.rels[p];
    assert(e.store.rels == s.rels.update(p, next));
    assert(next.name == s.rels[p].name && next.keys == s.rels[p].keys);
    lemma_lasting_alike(s.rels, e.store.rels, 0, Seq::empty());
    assert forall|i: int|
        0 <= i < e.store.rels.len() && is_temp((#[trigger] e.store.rels[i]).name) implies !has_tt(
        e.store.rels[i].keys,
    ) by {
        assert(s.rels[i].name == e.store.rels[i].name);
    }
}

proof fn lemma_removed(s: StoreV, p: int, t: StoreV)
    requires
        sound(s),
        temps_plain(s),
        0 <= p < s.rels.len(),
        is_temp(s.rels[p].name),
        t == (StoreV { rels: s.rels.remove(p), ..s }),
    ensures
        sound(t),
        temps_plain(t),
        agree(s, t),
{
    lemma_remove_rel(s, p, t);
    lemma_lasting_remove(s.rels, p, 0, Seq::empty());
    assert forall|i: int|
        0 <= i < t.rels.len() && is_temp((#[trigger] t.rels[i]).name) implies !has_tt(
        t.rels[i].keys,
    ) by {
        let x = if i < p { i } else { i + 1 };
        assert(t.rels[i] == s.rels[x]);
    }
}

proof fn lemma_written(s: StoreV, w: WriteV, ans: SourceV, ctx: Ctx, e: EffectV)
    requires
        sound(s),
        temps_plain(s),
        is_temp(w.rel),
        written(s, w, ans, ctx) == Ok::<EffectV, Fault>(e),
    ensures
        sound(e.store),
        temps_plain(e.store),
        agree(s, e.store),
{
    law_write_keeps_sound(s, w, ans, ctx, e);
    let p = rel_place(s.rels, w.rel);
    lemma_rel_from(s.rels, w.rel, 0);
    match w.kind {
        WriteKind::Create => {
            let bare = w.keys.len() == 0 && w.vals.len() == 0;
            let keys = if bare {
                loose_columns(ans.cols)
            } else {
                w.keys
            };
            let made = created(s, w.rel, keys, w.vals)->Ok_0;
            lemma_created(s, w.rel, keys, w.vals, made);
            lemma_put(made, s.rels.len() as int, w, ans, true, ctx, e);
        },
        WriteKind::Replace => {
            let bare = w.keys.len() == 0 && w.vals.len() == 0;
            let keys = if !bare {
                w.keys
            } else if p < s.rels.len() {
                s.rels[p].keys
            } else {
                loose_columns(ans.cols)
            };
            let vals = if bare && p < s.rels.len() {
                s.rels[p].vals
            } else {
                w.vals
            };
            let next = if p < s.rels.len() {
                StoreV { rels: s.rels.remove(p), ..s }
            } else {
                s
            };
            if p < s.rels.len() {
                lemma_removed(s, p, next);
            }
            let made = created(next, w.rel, keys, vals)->Ok_0;
            lemma_created(next, w.rel, keys, vals, made);
            lemma_put(made, next.rels.len() as int, w, ans, true, ctx, e);
        },
        _ => {
            lemma_put(s, p, w, ans, false, ctx, e);
        },
    }
}

proof fn lemma_alone(
    s: StoreV,
    given: Seq<TableV>,
    p: ProgramV,
    customs: Seq<CustomV>,
    now: i64,
    t: StepV,
)
    requires
        sound(s),
        temps_plain(s),
        ran_alone(s, given, p, customs, now, true) == Ok::<StepV, Fault>(t),
    ensures
        sound(t.store),
        temps_plain(t.store),
        agree(s, t.store),
{
    let next = ticked(s)->Ok_0;
    assert(sound(next) && temps_plain(next) && agree(s, next));
    let ctx = context(next, now);
    let ans = asked(next, given, p, customs, ctx)->Ok_0;
    if let Some(w) = p.write {
        let e = written(next, w, ans, ctx)->Ok_0;
        lemma_written(next, w, ans, ctx, e);
    }
}

proof fn lemma_fire(
    ts: Seq<TriggerV>,
    on: TrigKind,
    given: Seq<TableV>,
    customs: Seq<CustomV>,
    now: i64,
    i: int,
    s: StoreV,
)
    requires
        sound(s),
        temps_plain(s),
        0 <= i,
    ensures
        fire_from(ts, on, given, customs, now, true, i, s) matches Ok(t) ==> sound(t)
            && temps_plain(t) && agree(s, t),
    decreases ts.len() - i,
{
    if i < ts.len() {
        if ts[i].on != on {
            lemma_fire(ts, on, given, customs, now, i + 1, s);
        } else if let Ok(t) = ran_alone(s, given, ts[i].prog, customs, now, true) {
            lemma_alone(s, given, ts[i].prog, customs, now, t);
            lemma_fire(ts, on, given, customs, now, i + 1, t.store);
        }
    }
}

proof fn lemma_ran(s: StoreV, p: ProgramV, customs: Seq<CustomV>, now: i64)
    requires
        sound(s),
        temps_plain(s),
    ensures
        ran(s, p, customs, now, true) matches Ok(d) ==> sound(d.store) && temps_plain(d.store)
            && agree(s, d.store),
{
    reveal(ran);
    if let Ok(t) = ran_alone(s, Seq::empty(), p, customs, now, true) {
        lemma_alone(s, Seq::empty(), p, customs, now, t);
        if let Some(w) = p.write {
            let q = rel_place(t.store.rels, w.rel);
            if let Some(on) = event_of_write(w.kind) {
                if q < t.store.rels.len() && t.store.rels[q].triggers.len() > 0 {
                    lemma_fire(
                        t.store.rels[q].triggers,
                        on,
                        trigger_tables(t.news, t.olds),
                        Seq::empty(),
                        now,
                        0,
                        t.store,
                    );
                }
            }
        }
    }
}

proof fn lemma_op(s: StoreV, op: SysOpV, customs: Seq<CustomV>, now: i64)
    ensures
        op_done(s, op, customs, now, true) matches Ok(d) ==> d.store == s,
{
    reveal(op_done);
}

proof fn lemma_kept(s: StoreV, name: Seq<char>, src: SourceV)
    requires
        sound(s),
        temps_plain(s),
    ensures
        rows_kept(s, name, src) matches Ok(t) ==> sound(t) && temps_plain(t) && agree(s, t),
{
    if let Ok(t) = rows_kept(s, name, src) {
        let p = rel_place(s.rels, name);
        lemma_rel_from(s.rels, name, 0);
        let next = if p < s.rels.len() {
            StoreV { rels: s.rels.remove(p), ..s }
        } else {
            s
        };
        if p < s.rels.len() {
            lemma_removed(s, p, next);
        }
        let cols = loose_columns(plain_names(src.cols));
        let made = created(next, name, cols, Seq::empty())->Ok_0;
        lemma_created(next, name, cols, Seq::empty(), made);
        let q = next.rels.len() as int;
        assert(t.rels == made.rels.update(q, t.rels[q]));
        crate::law_store::lemma_rows_kept(s, name, src);
        lemma_lasting_alike(made.rels, t.rels, 0, Seq::empty());
        assert forall|i: int|
            0 <= i < t.rels.len() && is_temp((#[trigger] t.rels[i]).name) implies !has_tt(
            t.rels[i].keys,
        ) by {
            assert(made.rels[i].keys == t.rels[i].keys);
        }
    }
}

proof fn lemma_settled(
    was: StoreV,
    done: Result<DoneV, Fault>,
    keep: Option<Seq<char>>,
    ignore: bool,
    pc: int,
)
    requires
        sound(was),
        temps_plain(was),
        done matches Ok(d) ==> sound(d.store) && temps_plain(d.store) && agree(was, d.store),
    ensures
        settled_step(was, done, keep, ignore, pc) matches Ok(st) ==> sound(st.store)
            && temps_plain(st.store) && agree(was, st.store),
{
    if let Ok(d) = done {
        if let Some(n) = keep {
            lemma_kept(d.store, n, d.out);
        }
    }
}

proof fn lemma_step(st: StateV, ss: Seq<StmtV>, customs: Seq<CustomV>, now: i64)
    requires
        sound(st.store),
        temps_plain(st.store),
        st.pc < ss.len(),
    ensures
        step_of(st, ss, customs, now, true) matches Ok(n) ==> sound(n.store) && temps_plain(n.store)
            && agree(st.store, n.store),
{
    reveal(step_of);
    let pc = st.pc as int;
    match ss[pc] {
        StmtV::Query(p, keep, ignore) => {
            lemma_ran(st.store, p, customs, now);
            lemma_settled(st.store, ran(st.store, p, customs, now, true), keep, ignore, pc);
        },
        StmtV::Sys(op, keep, ignore) => {
            lemma_op(st.store, op, customs, now);
            lemma_settled(st.store, op_done(st.store, op, customs, now, true), keep, ignore, pc);
        },
        StmtV::ReturnQuery(p) => lemma_ran(st.store, p, customs, now),
        StmtV::IfQuery(p, neg) => lemma_ran(st.store, p, customs, now),
        _ => {},
    }
}

proof fn lemma_run(st: StateV, ss: Seq<StmtV>, customs: Seq<CustomV>, now: i64, left: nat)
    requires
        sound(st.store),
        temps_plain(st.store),
    ensures
        run_from(st, ss, customs, now, true, left) matches Ok(n) ==> agree(st.store, n.store),
    decreases left,
{
    if !(st.over || st.pc >= ss.len()) && left > 0 {
        lemma_step(st, ss, customs, now);
        if let Ok(n) = step_of(st, ss, customs, now, true) {
            lemma_run(n, ss, customs, now, (left - 1) as nat);
        }
    }
}

proof fn lemma_all_last(rels: Seq<RelationV>, i: int)
    requires
        0 <= i <= rels.len(),
        forall|j: int| 0 <= j < rels.len() ==> !is_temp((#[trigger] rels[j]).name),
    ensures
        lasting_from(rels, i, rels.take(i)) == rels,
    decreases rels.len() - i,
{
    if i < rels.len() {
        assert(!is_temp(rels[i].name));
        assert(rels.take(i).push(rels[i]) =~= rels.take(i + 1));
        lemma_all_last(rels, i + 1);
    } else {
        assert(rels.take(i) =~= rels);
    }
}

/// A transaction that only reads changes no relation, and the clock stands
/// still.
pub proof fn law_read_only_changes_nothing(
    clock: i64,
    customs: Seq<CustomV>,
    s: StoreV,
    script: Seq<char>,
    params: Seq<ParamV>,
    now: i64,
    c: i64,
    t: StoreV,
    out: SourceV,
    events: Seq<EventV>,
)
    requires
        sound(s),
        s.pending.len() == 0,
        forall|i: int| 0 <= i < s.rels.len() ==> !is_temp((#[trigger] s.rels[i]).name),
        transacted(clock, customs, s, script, params, true, now) == Ok::<
            (i64, StoreV, SourceV, Seq<EventV>),
            Fault,
        >((c, t, out, events)),
    ensures
        t.rels == s.rels,
        t.hwm == s.hwm,
        c == clock,
{
    let ss = script_of(script, params)->Ok_0;
    let first = StateV { store: s, pc: 0, out: nothing(), over: false };
    lemma_run(first, ss, customs, now, crate::script::MOST_STEPS as nat);
    let st = run_from(first, ss, customs, now, true, crate::script::MOST_STEPS as nat)->Ok_0;
    lemma_all_last(s.rels, 0);
    assert(s.rels.take(0) =~= Seq::<RelationV>::empty());
}

} // verus!
