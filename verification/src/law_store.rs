//! What every operation keeps of a store.
use vstd::prelude::*;

use crate::aggr::CustomV;
use crate::bind::TableV;
use crate::codec::{decode_row_of, encode_row_of};
use crate::db::{committed, empty_store, transacted};
use crate::error::Fault;
use crate::expr::{Ctx, ExprV, eval_of};
use crate::instance::{above, free_from, fresh_instance, opened};
use crate::mutate::{
    DoneV, EffectV, StepV, asked, context, created, event_of_write, fire_from, fresh_relation,
    has_tt, is_temp, loose_columns, nothing, put_plain_of, put_rows_of, ran, ran_alone, refreshed,
    ticked, trigger_tables, written,
};
use crate::parse_script::script_of;
use crate::query::{ProgramV, WriteKind, WriteV};
use crate::scan::{SourceV, point_of};
use crate::schema::{ColumnV, RelKind, kind_of};
use crate::script::{
    StateV, key_records, lasting_from, plain_names, rows_kept, run_from, script_done, settled_step,
    step_of,
};
use crate::stmt::{ParamV, StmtV, SysOpV};
use crate::store::{
    Access, EventV, PendingV, RecordV, RelationV, StoreV, TrigKind, TriggerV, decoded_from,
    in_order, law_del_rec, law_put_rec, lemma_rec_slot, lemma_rel_from, rec_slot, rel_place,
    with_rec,
};
use crate::sysop::{
    EvictionV, audit_keys, audit_name, audit_vals, entry, evict_done, evict_facts_from, gc_done,
    governed_place, kept_from, marker, op_done, others_from, readable_from, remove_all_from,
    repair_done, set_levels_from, wanted_keys_of,
};
use crate::temporal::{id_of, instant};
use crate::value::{Sign, Value, order_rows};
use crate::write::{WorkV, plain_row_of, plain_rows_from, salted};
use crate::write_tt::{stamped_from, stamped_key};

verus! {

/// Whether no record with a transaction time at the end of its key is later
/// than a time; where there is no such time, there is no record.
pub open spec fn by_time(recs: Seq<RecordV>, t: Option<i64>) -> bool {
    forall|i: int|
        0 <= i < recs.len() ==> t is Some && instant((#[trigger] recs[i]).key.last()) <= t->0
}

/// Whether a relation with transaction times has none later than a time.
pub open spec fn timely(rel: RelationV, t: Option<i64>) -> bool {
    has_tt(rel.keys) ==> by_time(rel.recs, t)
}

/// Whether a store is as every operation leaves it: the records of a relation
/// are in the order of their keys, each key once; no two relations have one
/// name or one identifier; the next identifier is above all in use; and no
/// transaction time is later than the greatest that was noted.
pub open spec fn sound(s: StoreV) -> bool {
    &&& forall|i: int| 0 <= i < s.rels.len() ==> timely(#[trigger] s.rels[i], s.hwm)
    &&& forall|i: int| 0 <= i < s.rels.len() ==> in_order((#[trigger] s.rels[i]).recs)
    &&& forall|i: int, j: int|
        0 <= i < j < s.rels.len() ==> (#[trigger] s.rels[i]).name != (#[trigger] s.rels[j]).name
            && s.rels[i].id != s.rels[j].id
    &&& forall|i: int| 0 <= i < s.rels.len() ==> (#[trigger] s.rels[i]).id < s.next_id
}

/// Whether a relation can take the place of another one in a store.
pub open spec fn succeeds(old: RelationV, new: RelationV, t: Option<i64>) -> bool {
    new.name == old.name && new.id == old.id && in_order(new.recs) && timely(new, t)
}

pub proof fn lemma_set_rel(s: StoreV, p: int, rel: RelationV, t: StoreV)
    requires
        sound(s),
        0 <= p < s.rels.len(),
        succeeds(s.rels[p], rel, s.hwm),
        t.rels == s.rels.update(p, rel),
        t.next_id == s.next_id,
        t.hwm == s.hwm,
    ensures
        sound(t),
{
    assert forall|i: int, j: int| 0 <= i < j < t.rels.len() implies (#[trigger] t.rels[i]).name != (
    #[trigger] t.rels[j]).name && t.rels[i].id != t.rels[j].id by {
        assert(s.rels[i].name != s.rels[j].name && s.rels[i].id != s.rels[j].id);
    }
    assert forall|i: int| 0 <= i < t.rels.len() implies (#[trigger] t.rels[i]).id < t.next_id by {
        assert(s.rels[i].id < s.next_id);
    }
    assert forall|i: int| 0 <= i < t.rels.len() implies in_order((#[trigger] t.rels[i]).recs)
        && timely(t.rels[i], t.hwm) by {
        assert(in_order(s.rels[i].recs) && timely(s.rels[i], s.hwm));
    }
}

pub proof fn lemma_remove_rel(s: StoreV, p: int, t: StoreV)
    requires
        sound(s),
        0 <= p < s.rels.len(),
        t.rels == s.rels.remove(p),
        t.next_id == s.next_id,
        t.hwm == s.hwm,
    ensures
        sound(t),
{
    assert forall|i: int| 0 <= i < t.rels.len() implies in_order((#[trigger] t.rels[i]).recs)
        && t.rels[i].id < t.next_id && timely(t.rels[i], t.hwm) by {
        let x = if i < p { i } else { i + 1 };
        assert(t.rels[i] == s.rels[x]);
    }
    assert forall|i: int, j: int| 0 <= i < j < t.rels.len() implies (#[trigger] t.rels[i]).name != (
    #[trigger] t.rels[j]).name && t.rels[i].id != t.rels[j].id by {
        let x = if i < p { i } else { i + 1 };
        let y = if j < p { j } else { j + 1 };
        assert(t.rels[i] == s.rels[x] && t.rels[j] == s.rels[y]);
    }
}

/// A new relation has an identifier that no relation has, and the store stays
/// sound.
pub proof fn law_new_relation(
    s: StoreV,
    name: Seq<char>,
    keys: Seq<ColumnV>,
    vals: Seq<ColumnV>,
    t: StoreV,
)
    requires
        sound(s),
        created(s, name, keys, vals) == Ok::<StoreV, Fault>(t),
    ensures
        sound(t),
        t.rels == s.rels.push(fresh_relation(name, s.next_id, keys, vals)),
        forall|i: int| 0 <= i < s.rels.len() ==> (#[trigger] s.rels[i]).id != s.next_id,
        rel_place(t.rels, name) == s.rels.len(),
{
    lemma_rel_from(s.rels, name, 0);
    lemma_rel_from(t.rels, name, 0);
    let n = s.rels.len() as int;
    assert(t.rels[n].name == name);
    assert forall|i: int| 0 <= i < t.rels.len() implies in_order((#[trigger] t.rels[i]).recs)
        && t.rels[i].id < t.next_id && timely(t.rels[i], t.hwm) by {
        if i < n {
            assert(t.rels[i] == s.rels[i]);
        }
    }
    assert forall|i: int, j: int| 0 <= i < j < t.rels.len() implies (#[trigger] t.rels[i]).name != (
    #[trigger] t.rels[j]).name && t.rels[i].id != t.rels[j].id by {
        assert(t.rels[i] == s.rels[i]);
        if j < n {
            assert(t.rels[j] == s.rels[j]);
        }
    }
    let q = rel_place(t.rels, name);
    if q < n {
        assert(t.rels[q] == s.rels[q]);
    }
}

proof fn lemma_plain_row(
    op: WriteKind,
    rel: RelationV,
    gs: Seq<Option<usize>>,
    row: Seq<Value>,
    ctx: Ctx,
    w: WorkV,
)
    requires
        in_order(w.recs),
    ensures
        plain_row_of(op, rel, gs, row, ctx, w) matches Ok(n) ==> in_order(n.recs),
{
    if let Ok(n) = plain_row_of(op, rel, gs, row, ctx, w) {
        let key = crate::write::fills_from(rel.keys, gs, 0, row, ctx, 0, Seq::empty())->Ok_0;
        law_del_rec(w.recs, key, key);
        assert forall|b: Seq<u8>| in_order(#[trigger] with_rec(w.recs, key, b)) by {
            law_put_rec(w.recs, key, b, key);
        }
    }
}

proof fn lemma_plain_rows(
    op: WriteKind,
    rel: RelationV,
    gs: Seq<Option<usize>>,
    rows: Seq<Seq<Value>>,
    ctx: Ctx,
    i: int,
    w: WorkV,
)
    requires
        in_order(w.recs),
        0 <= i,
    ensures
        plain_rows_from(op, rel, gs, rows, ctx, i, w) matches Ok(n) ==> in_order(n.recs),
    decreases rows.len() - i,
{
    if i < rows.len() {
        let c = salted(ctx, i);
        lemma_plain_row(op, rel, gs, rows[i], c, w);
        if let Ok(n) = plain_row_of(op, rel, gs, rows[i], c, w) {
            lemma_plain_rows(op, rel, gs, rows, ctx, i + 1, n);
        }
    }
}

proof fn lemma_put_rows(
    s: StoreV,
    p: int,
    w: WriteV,
    ans: SourceV,
    lenient: bool,
    ctx: Ctx,
    e: EffectV,
)
    requires
        sound(s),
        0 <= p < s.rels.len(),
        put_rows_of(s, p, w, ans, lenient, ctx) == Ok::<EffectV, Fault>(e),
    ensures
        sound(e.store),
        has_tt(s.rels[p].keys) ==> e.store.rels == s.rels,
        e.store.next_id == s.next_id,
        e.store.hwm == s.hwm,
        e.store.rels.len() == s.rels.len(),
        forall|i: int|
            0 <= i < s.rels.len() && i != p ==> #[trigger] e.store.rels[i] == s.rels[i],
        e.store.rels[p].name == s.rels[p].name,
{
    if !has_tt(s.rels[p].keys) {
        let rel = s.rels[p];
        let gs = crate::mutate::givens_from(
            crate::store::columns_of(rel),
            crate::mutate::written_names(w, ans.cols),
            ans.cols,
            lenient || w.kind == WriteKind::Rm || w.kind == WriteKind::Delete,
            0,
            Seq::empty(),
        )->Ok_0;
        let start = WorkV {
            recs: rel.recs,
            pending: Seq::empty(),
            news: Seq::empty(),
            olds: Seq::empty(),
        };
        assert(put_plain_of(s, p, w.kind, gs, ans.rows, ctx) == Ok::<EffectV, Fault>(e));
        lemma_plain_rows(w.kind, rel, gs, ans.rows, ctx, 0, start);
        let done = plain_rows_from(w.kind, rel, gs, ans.rows, ctx, 0, start)->Ok_0;
        let next = refreshed(RelationV { recs: done.recs, ..rel })->Ok_0;
        assert(succeeds(rel, next, s.hwm));
        assert(e.store.rels == s.rels.update(p, next));
        lemma_set_rel(s, p, next, e.store);
    }
}

/// Writing the rows of a query keeps a store sound.
pub proof fn law_write_keeps_sound(s: StoreV, w: WriteV, ans: SourceV, ctx: Ctx, e: EffectV)
    requires
        sound(s),
        written(s, w, ans, ctx) == Ok::<EffectV, Fault>(e),
    ensures
        sound(e.store),
        e.store.hwm == s.hwm,
{
    let p = rel_place(s.rels, w.rel);
    lemma_rel_from(s.rels, w.rel, 0);
    match w.kind {
        WriteKind::Create => {
            let bare = w.keys.len() == 0 && w.vals.len() == 0;
            let keys = if bare {
                crate::mutate::loose_columns(ans.cols)
            } else {
                w.keys
            };
            let made = created(s, w.rel, keys, w.vals)->Ok_0;
            law_new_relation(s, w.rel, keys, w.vals, made);
            let q = rel_place(made.rels, w.rel);
            lemma_rel_from(made.rels, w.rel, 0);
            lemma_put_rows(made, q, w, ans, true, ctx, e);
        },
        WriteKind::Replace => {
            let bare = w.keys.len() == 0 && w.vals.len() == 0;
            let keys = if !bare {
                w.keys
            } else if p < s.rels.len() {
                s.rels[p].keys
            } else {
                crate::mutate::loose_columns(ans.cols)
            };
            let vals = if bare && p < s.rels.len() {
                s.rels[p].vals
            } else {
                w.vals
            };
            let next = if p < s.rels.len() {
                StoreV { rels: s.rels.remove(p), ..s }
            } else {
                s
            };
            if p < s.rels.len() {
                lemma_remove_rel(s, p, next);
            }
            let made = created(next, w.rel, keys, vals)->Ok_0;
            law_new_relation(next, w.rel, keys, vals, made);
            let q = rel_place(made.rels, w.rel);
            lemma_rel_from(made.rels, w.rel, 0);
            lemma_put_rows(made, q, w, ans, true, ctx, e);
        },
        _ => {
            lemma_put_rows(s, p, w, ans, false, ctx, e);
        },
    }
}

/// What a transaction writes to a relation with transaction times is not seen
/// by reads in the same transaction: the relations are as they were.
pub proof fn law_pending_is_invisible(s: StoreV, w: WriteV, ans: SourceV, ctx: Ctx, e: EffectV)
    requires
        sound(s),
        w.kind != WriteKind::Create,
        w.kind != WriteKind::Replace,
        written(s, w, ans, ctx) == Ok::<EffectV, Fault>(e),
        has_tt(s.rels[rel_place(s.rels, w.rel)].keys),
    ensures
        e.store.rels == s.rels,
{
    let p = rel_place(s.rels, w.rel);
    lemma_rel_from(s.rels, w.rel, 0);
    lemma_put_rows(s, p, w, ans, false, ctx, e);
}

proof fn lemma_ran_alone(
    s: StoreV,
    given: Seq<TableV>,
    p: ProgramV,
    customs: Seq<CustomV>,
    now: i64,
    ro: bool,
    t: StepV,
)
    requires
        sound(s),
        ran_alone(s, given, p, customs, now, ro) == Ok::<StepV, Fault>(t),
    ensures
        sound(t.store),
        t.store.hwm == s.hwm,
{
    let next = ticked(s)->Ok_0;
    assert(sound(next));
    let ctx = context(next, now);
    let ans = asked(next, given, p, customs, ctx)->Ok_0;
    if let Some(w) = p.write {
        let e = written(next, w, ans, ctx)->Ok_0;
        law_write_keeps_sound(next, w, ans, ctx, e);
    }
}

proof fn lemma_fired(
    ts: Seq<TriggerV>,
    on: TrigKind,
    given: Seq<TableV>,
    customs: Seq<CustomV>,
    now: i64,
    ro: bool,
    i: int,
    s: StoreV,
)
    requires
        sound(s),
        0 <= i,
    ensures
        fire_from(ts, on, given, customs, now, ro, i, s) matches Ok(t) ==> sound(t) && t.hwm == s.hwm,
    decreases ts.len() - i,
{
    if i < ts.len() {
        if ts[i].on != on {
            lemma_fired(ts, on, given, customs, now, ro, i + 1, s);
        } else if let Ok(t) = ran_alone(s, given, ts[i].prog, customs, now, ro) {
            lemma_ran_alone(s, given, ts[i].prog, customs, now, ro, t);
            lemma_fired(ts, on, given, customs, now, ro, i + 1, t.store);
        }
    }
}

/// A query, with what its triggers do, keeps a store sound.
pub proof fn law_query_keeps_sound(
    s: StoreV,
    p: ProgramV,
    customs: Seq<CustomV>,
    now: i64,
    ro: bool,
    d: DoneV,
)
    requires
        sound(s),
        ran(s, p, customs, now, ro) == Ok::<DoneV, Fault>(d),
    ensures
        sound(d.store),
        d.store.hwm == s.hwm,
{
    reveal(ran);
    let t = ran_alone(s, Seq::empty(), p, customs, now, ro)->Ok_0;
    lemma_ran_alone(s, Seq::empty(), p, customs, now, ro, t);
    if let Some(w) = p.write {
        let q = rel_place(t.store.rels, w.rel);
        if let Some(on) = event_of_write(w.kind) {
            if q < t.store.rels.len() && t.store.rels[q].triggers.len() > 0 {
                lemma_fired(
                    t.store.rels[q].triggers,
                    on,
                    trigger_tables(t.news, t.olds),
                    Seq::empty(),
                    now,
                    ro,
                    0,
                    t.store,
                );
            }
        }
    }
}

/// Whether every record of a list comes before those of another from place `i`
/// on.
spec fn before(acc: Seq<RecordV>, recs: Seq<RecordV>, i: int) -> bool {
    forall|a: int, j: int|
        0 <= a < acc.len() && i <= j < recs.len() ==> order_rows(
            (#[trigger] acc[a]).key,
            (#[trigger] recs[j]).key,
            0,
        ) == Sign::Less
}

proof fn lemma_before_push(acc: Seq<RecordV>, recs: Seq<RecordV>, i: int)
    requires
        0 <= i < recs.len(),
        in_order(recs),
        in_order(acc),
        before(acc, recs, i),
    ensures
        in_order(acc.push(recs[i])),
        before(acc.push(recs[i]), recs, i + 1),
        before(acc, recs, i + 1),
{
    let more = acc.push(recs[i]);
    assert forall|a: int, b: int| 0 <= a < b < more.len() implies order_rows(
        (#[trigger] more[a]).key,
        (#[trigger] more[b]).key,
        0,
    ) == Sign::Less by {
        if b < acc.len() {
            assert(more[a] == acc[a] && more[b] == acc[b]);
        } else {
            assert(more[a] == acc[a] && more[b] == recs[i]);
        }
    }
    assert forall|a: int, j: int| 0 <= a < more.len() && i + 1 <= j < recs.len() implies order_rows(
        (#[trigger] more[a]).key,
        (#[trigger] recs[j]).key,
        0,
    ) == Sign::Less by {
        if a < acc.len() {
            assert(more[a] == acc[a]);
        } else {
            assert(order_rows(recs[i].key, recs[j].key, 0) == Sign::Less);
        }
    }
}

proof fn lemma_by_time_push(acc: Seq<RecordV>, r: RecordV, t: Option<i64>)
    requires
        by_time(acc, t),
        t is Some && instant(r.key.last()) <= t->0,
    ensures
        by_time(acc.push(r), t),
{
    let more = acc.push(r);
    assert forall|i: int| 0 <= i < more.len() implies t is Some && instant(
        (#[trigger] more[i]).key.last(),
    ) <= t->0 by {
        if i < acc.len() {
            assert(more[i] == acc[i]);
        }
    }
}

proof fn lemma_kept_in_order(
    recs: Seq<RecordV>,
    rows: Seq<Seq<Value>>,
    k: RelKind,
    nk: int,
    cutoff: i64,
    i: int,
    acc: Seq<RecordV>,
    t: Option<i64>,
)
    requires
        0 <= i <= recs.len(),
        in_order(recs),
        in_order(acc),
        before(acc, recs, i),
        by_time(recs, t),
        by_time(acc, t),
    ensures
        in_order(kept_from(recs, rows, k, nk, cutoff, i, acc)),
        by_time(kept_from(recs, rows, k, nk, cutoff, i, acc), t),
    decreases recs.len() - i,
{
    if i < recs.len() {
        lemma_before_push(acc, recs, i);
        lemma_by_time_push(acc, recs[i], t);
        lemma_kept_in_order(recs, rows, k, nk, cutoff, i + 1, acc, t);
        lemma_kept_in_order(recs, rows, k, nk, cutoff, i + 1, acc.push(recs[i]), t);
    }
}

proof fn lemma_others(
    recs: Seq<RecordV>,
    fact: Seq<Value>,
    k: RelKind,
    nk: int,
    i: int,
    acc: Seq<RecordV>,
)
    requires
        0 <= i <= recs.len(),
        in_order(recs),
        in_order(acc),
        before(acc, recs, i),
        forall|a: int| 0 <= a < acc.len() ==> id_of((#[trigger] acc[a]).key, k, nk) != fact,
    ensures
        in_order(others_from(recs, fact, k, nk, i, acc)),
        forall|a: int|
            0 <= a < others_from(recs, fact, k, nk, i, acc).len() ==> id_of(
                (#[trigger] others_from(recs, fact, k, nk, i, acc)[a]).key,
                k,
                nk,
            ) != fact,
        forall|r: RecordV| #[trigger]
            acc.contains(r) ==> others_from(recs, fact, k, nk, i, acc).contains(r),
        forall|j: int|
            i <= j < recs.len() && id_of((#[trigger] recs[j]).key, k, nk) != fact ==> others_from(
                recs,
                fact,
                k,
                nk,
                i,
                acc,
            ).contains(recs[j]),
    decreases recs.len() - i,
{
    if i < recs.len() {
        lemma_before_push(acc, recs, i);
        if id_of(recs[i].key, k, nk) == fact {
            lemma_others(recs, fact, k, nk, i + 1, acc);
        } else {
            let more = acc.push(recs[i]);
            lemma_others(recs, fact, k, nk, i + 1, more);
            assert forall|r: RecordV| #[trigger] acc.contains(r) implies others_from(
                recs,
                fact,
                k,
                nk,
                i,
                acc,
            ).contains(r) by {
                let a = choose|a: int| 0 <= a < acc.len() && acc[a] == r;
                assert(more[a] == r);
                assert(more.contains(r));
            }
            assert(more[acc.len() as int] == recs[i]);
            assert(more.contains(recs[i]));
        }
    }
}

proof fn lemma_others_by_time(
    recs: Seq<RecordV>,
    fact: Seq<Value>,
    k: RelKind,
    nk: int,
    i: int,
    acc: Seq<RecordV>,
    t: Option<i64>,
)
    requires
        0 <= i,
        by_time(recs, t),
        by_time(acc, t),
    ensures
        by_time(others_from(recs, fact, k, nk, i, acc), t),
    decreases recs.len() - i,
{
    if i < recs.len() {
        lemma_by_time_push(acc, recs[i], t);
        lemma_others_by_time(recs, fact, k, nk, i + 1, acc, t);
        lemma_others_by_time(recs, fact, k, nk, i + 1, acc.push(recs[i]), t);
    }
}

/// An eviction leaves no record of the fact, and every record of another fact.
pub proof fn law_evict_leaves_nothing(recs: Seq<RecordV>, fact: Seq<Value>, k: RelKind, nk: int)
    requires
        in_order(recs),
    ensures
        forall|a: int|
            0 <= a < others_from(recs, fact, k, nk, 0, Seq::empty()).len() ==> id_of(
                (#[trigger] others_from(recs, fact, k, nk, 0, Seq::empty())[a]).key,
                k,
                nk,
            ) != fact,
        forall|j: int|
            0 <= j < recs.len() && id_of((#[trigger] recs[j]).key, k, nk) != fact ==> others_from(
                recs,
                fact,
                k,
                nk,
                0,
                Seq::empty(),
            ).contains(recs[j]),
{
    lemma_others(recs, fact, k, nk, 0, Seq::empty());
}

proof fn lemma_evictions(
    name: Seq<char>,
    k: RelKind,
    nk: int,
    facts: Seq<Seq<Value>>,
    plain: bool,
    ctx: Ctx,
    i: int,
    ev: EvictionV,
    t: Option<i64>,
)
    requires
        in_order(ev.recs),
        by_time(ev.recs, t),
        0 <= i,
    ensures
        in_order(evict_facts_from(name, k, nk, facts, plain, ctx, i, ev).recs),
        by_time(evict_facts_from(name, k, nk, facts, plain, ctx, i, ev).recs, t),
    decreases facts.len() - i,
{
    if i < facts.len() {
        lemma_others(ev.recs, facts[i], k, nk, 0, Seq::empty());
        lemma_others_by_time(ev.recs, facts[i], k, nk, 0, Seq::empty(), t);
        let left = others_from(ev.recs, facts[i], k, nk, 0, Seq::empty());
        let n = (ev.recs.len() - left.len()) as i64;
        let mark = marker(facts[i], plain, crate::write::salted(ctx, i));
        let next = EvictionV {
            rows: ev.rows.push(seq![Value::Str(name), Value::Str(mark), Value::Int(n)]),
            pending: ev.pending.push(entry(name, mark, n)),
            recs: left,
        };
        lemma_evictions(name, k, nk, facts, plain, ctx, i + 1, next, t);
    }
}

proof fn lemma_readable(recs: Seq<RecordV>, i: int, acc: Seq<RecordV>)
    requires
        0 <= i <= recs.len(),
        in_order(recs),
        in_order(acc),
        before(acc, recs, i),
        forall|a: int| 0 <= a < acc.len() ==> decode_row_of((#[trigger] acc[a]).blob) is Some,
    ensures
        in_order(readable_from(recs, i, acc)),
        forall|a: int|
            0 <= a < readable_from(recs, i, acc).len() ==> decode_row_of(
                (#[trigger] readable_from(recs, i, acc)[a]).blob,
            ) is Some,
    decreases recs.len() - i,
{
    if i < recs.len() {
        lemma_before_push(acc, recs, i);
        if decode_row_of(recs[i].blob) is None {
            lemma_readable(recs, i + 1, acc);
        } else {
            lemma_readable(recs, i + 1, acc.push(recs[i]));
        }
    }
}

proof fn lemma_readable_by_time(recs: Seq<RecordV>, i: int, acc: Seq<RecordV>, t: Option<i64>)
    requires
        0 <= i,
        by_time(recs, t),
        by_time(acc, t),
    ensures
        by_time(readable_from(recs, i, acc), t),
    decreases recs.len() - i,
{
    if i < recs.len() {
        lemma_by_time_push(acc, recs[i], t);
        lemma_readable_by_time(recs, i + 1, acc, t);
        lemma_readable_by_time(recs, i + 1, acc.push(recs[i]), t);
    }
}

proof fn lemma_all_decode(recs: Seq<RecordV>, i: int, acc: Seq<Seq<Value>>)
    requires
        0 <= i <= recs.len(),
        forall|a: int| 0 <= a < recs.len() ==> decode_row_of((#[trigger] recs[a]).blob) is Some,
    ensures
        decoded_from(recs, i, acc) is Ok,
    decreases recs.len() - i,
{
    if i < recs.len() {
        assert(decode_row_of(recs[i].blob) is Some);
        lemma_all_decode(recs, i + 1, acc.push(recs[i].key + decode_row_of(recs[i].blob)->0));
    }
}

proof fn lemma_nothing_to_repair(recs: Seq<RecordV>, i: int, rows: Seq<Seq<Value>>)
    requires
        0 <= i <= recs.len(),
        decoded_from(recs, i, rows) is Ok,
    ensures
        readable_from(recs, i, recs.take(i)) == recs,
    decreases recs.len() - i,
{
    if i < recs.len() {
        assert(recs.take(i).push(recs[i]) =~= recs.take(i + 1));
        lemma_nothing_to_repair(
            recs,
            i + 1,
            rows.push(recs[i].key + decode_row_of(recs[i].blob)->0),
        );
    } else {
        assert(recs.take(i) =~= recs);
    }
}

/// After a repair every record of a relation can be read, and where every one
/// could be read before, nothing changes.
pub proof fn law_repair(recs: Seq<RecordV>)
    requires
        in_order(recs),
    ensures
        decoded_from(readable_from(recs, 0, Seq::empty()), 0, Seq::empty()) is Ok,
        decoded_from(recs, 0, Seq::empty()) is Ok ==> readable_from(recs, 0, Seq::empty()) == recs,
{
    lemma_readable(recs, 0, Seq::empty());
    lemma_all_decode(readable_from(recs, 0, Seq::empty()), 0, Seq::empty());
    if decoded_from(recs, 0, Seq::empty()) is Ok {
        assert(recs.take(0) =~= Seq::<RecordV>::empty());
        lemma_nothing_to_repair(recs, 0, Seq::empty());
    }
}

proof fn lemma_set_levels(ns: Seq<Seq<char>>, a: Access, i: int, s: StoreV)
    requires
        sound(s),
        0 <= i,
    ensures
        set_levels_from(ns, a, i, s) matches Ok(t) ==> sound(t) && t.hwm == s.hwm,
    decreases ns.len() - i,
{
    if i < ns.len() {
        let p = rel_place(s.rels, ns[i]);
        lemma_rel_from(s.rels, ns[i], 0);
        if p < s.rels.len() {
            let rel = RelationV { access: a, ..s.rels[p] };
            let t = StoreV { rels: s.rels.update(p, rel), ..s };
            lemma_set_rel(s, p, rel, t);
            lemma_set_levels(ns, a, i + 1, t);
        }
    }
}

proof fn lemma_remove_all(ns: Seq<Seq<char>>, i: int, s: StoreV)
    requires
        sound(s),
        0 <= i,
    ensures
        remove_all_from(ns, i, s) matches Ok(t) ==> sound(t) && t.hwm == s.hwm,
    decreases ns.len() - i,
{
    if i < ns.len() {
        let p = rel_place(s.rels, ns[i]);
        lemma_rel_from(s.rels, ns[i], 0);
        if p < s.rels.len() {
            let t = StoreV { rels: s.rels.remove(p), ..s };
            lemma_remove_rel(s, p, t);
            lemma_remove_all(ns, i + 1, t);
        }
    }
}

proof fn lemma_gc(s: StoreV, name: Seq<char>, e: ExprV, now: i64, ro: bool, d: DoneV)
    requires
        sound(s),
        gc_done(s, name, e, now, ro) == Ok::<DoneV, Fault>(d),
    ensures
        sound(d.store),
        d.store.hwm == s.hwm,
{
    let p = rel_place(s.rels, name);
    lemma_rel_from(s.rels, name, 0);
    let v = eval_of(e, Seq::empty(), Seq::empty(), context(s, now))->Ok_0;
    let cutoff = point_of(v, now, true)->0;
    let rel = s.rels[p];
    let rows = decoded_from(rel.recs, 0, Seq::empty())->Ok_0;
    lemma_kept_in_order(
        rel.recs,
        rows,
        kind_of(rel.keys),
        rel.keys.len() as int,
        cutoff,
        0,
        Seq::empty(),
        s.hwm,
    );
    lemma_set_rel(s, p, d.store.rels[p], d.store);
}

proof fn lemma_evict(
    s: StoreV,
    name: Seq<char>,
    e: ExprV,
    plain: bool,
    now: i64,
    ro: bool,
    d: DoneV,
)
    requires
        sound(s),
        evict_done(s, name, e, plain, now, ro) == Ok::<DoneV, Fault>(d),
    ensures
        sound(d.store),
        d.store.hwm == s.hwm,
{
    let p = rel_place(s.rels, name);
    let q = rel_place(s.rels, audit_name());
    lemma_rel_from(s.rels, name, 0);
    let ctx = context(s, now);
    let ks = wanted_keys_of(s.rels[p], e, ctx)->Ok_0;
    let rel = s.rels[p];
    let start = EvictionV { recs: rel.recs, pending: s.pending, rows: Seq::empty() };
    lemma_evictions(
        name,
        kind_of(rel.keys),
        rel.keys.len() as int,
        ks,
        plain,
        ctx,
        0,
        start,
        s.hwm,
    );
    let ev = evict_facts_from(
        name,
        kind_of(rel.keys),
        rel.keys.len() as int,
        ks,
        plain,
        ctx,
        0,
        start,
    );
    let next = StoreV {
        rels: s.rels.update(p, RelationV { recs: ev.recs, ..rel }),
        pending: ev.pending,
        ..s
    };
    lemma_set_rel(s, p, RelationV { recs: ev.recs, ..rel }, next);
    if q >= s.rels.len() {
        law_new_relation(next, audit_name(), audit_keys(), audit_vals(), d.store);
    }
}

proof fn lemma_repaired(s: StoreV, name: Seq<char>, ro: bool, d: DoneV)
    requires
        sound(s),
        repair_done(s, name, ro) == Ok::<DoneV, Fault>(d),
    ensures
        sound(d.store),
        d.store.hwm == s.hwm,
{
    let p = rel_place(s.rels, name);
    lemma_rel_from(s.rels, name, 0);
    lemma_readable(s.rels[p].recs, 0, Seq::empty());
    if has_tt(s.rels[p].keys) {
        lemma_readable_by_time(s.rels[p].recs, 0, Seq::empty(), s.hwm);
    }
    lemma_set_rel(s, p, d.store.rels[p], d.store);
}

proof fn lemma_governed(s: StoreV, name: Seq<char>)
    ensures
        governed_place(s, name) matches Ok(p) ==> 0 <= p < s.rels.len(),
{
    lemma_rel_from(s.rels, name, 0);
}

/// An operation keeps a store sound.
pub proof fn law_operation_keeps_sound(
    s: StoreV,
    op: SysOpV,
    customs: Seq<CustomV>,
    now: i64,
    ro: bool,
    d: DoneV,
)
    requires
        sound(s),
        op_done(s, op, customs, now, ro) == Ok::<DoneV, Fault>(d),
    ensures
        sound(d.store),
        d.store.hwm == s.hwm,
{
    reveal(op_done);
    match op {
        SysOpV::SetAccess(a, ns) => lemma_set_levels(ns, a, 0, s),
        SysOpV::IndexCreate(n, x, cs) => {
            lemma_governed(s, n);
            let p = governed_place(s, n)->Ok_0 as int;
            lemma_set_rel(s, p, d.store.rels[p], d.store);
        },
        SysOpV::IndexDrop(n, x) => {
            lemma_governed(s, n);
            let p = governed_place(s, n)->Ok_0 as int;
            lemma_set_rel(s, p, d.store.rels[p], d.store);
        },
        SysOpV::SetTriggers(n, ts) => {
            lemma_governed(s, n);
            let p = governed_place(s, n)->Ok_0 as int;
            lemma_set_rel(s, p, d.store.rels[p], d.store);
        },
        SysOpV::SearchCreate(n, x, k, opts) => {
            lemma_governed(s, n);
            let p = governed_place(s, n)->Ok_0 as int;
            lemma_set_rel(s, p, d.store.rels[p], d.store);
        },
        SysOpV::SearchDrop(n, x, k) => {
            lemma_governed(s, n);
            let p = governed_place(s, n)->Ok_0 as int;
            lemma_set_rel(s, p, d.store.rels[p], d.store);
        },
        SysOpV::Remove(ns) => lemma_remove_all(ns, 0, s),
        SysOpV::HistoryGc(n, e) => lemma_gc(s, n, e, now, ro, d),
        SysOpV::Evict(n, e, plain) => lemma_evict(s, n, e, plain, now, ro, d),
        SysOpV::Repair(n) => lemma_repaired(s, n, ro, d),
        _ => {},
    }
}

proof fn lemma_key_records(rows: Seq<Seq<Value>>, i: int, recs: Seq<RecordV>)
    requires
        0 <= i,
        in_order(recs),
    ensures
        in_order(key_records(rows, i, recs)),
    decreases rows.len() - i,
{
    if i < rows.len() {
        let blob = encode_row_of(Seq::empty());
        law_put_rec(recs, rows[i], blob, rows[i]);
        lemma_key_records(rows, i + 1, with_rec(recs, rows[i], blob));
    }
}

pub proof fn lemma_rows_kept(s: StoreV, name: Seq<char>, src: SourceV)
    requires
        sound(s),
    ensures
        rows_kept(s, name, src) matches Ok(t) ==> sound(t) && t.hwm == s.hwm,
{
    if let Ok(t) = rows_kept(s, name, src) {
        let p = rel_place(s.rels, name);
        lemma_rel_from(s.rels, name, 0);
        let next = if p < s.rels.len() {
            StoreV { rels: s.rels.remove(p), ..s }
        } else {
            s
        };
        if p < s.rels.len() {
            lemma_remove_rel(s, p, next);
        }
        let cols = loose_columns(plain_names(src.cols));
        let made = created(next, name, cols, Seq::empty())->Ok_0;
        law_new_relation(next, name, cols, Seq::empty(), made);
        let q = rel_place(made.rels, name);
        lemma_rel_from(made.rels, name, 0);
        lemma_key_records(src.rows, 0, Seq::empty());
        let rel = RelationV { recs: key_records(src.rows, 0, Seq::empty()), ..made.rels[q] };
        lemma_set_rel(made, q, rel, t);
    }
}

proof fn lemma_settled_step(
    was: StoreV,
    done: Result<DoneV, Fault>,
    keep: Option<Seq<char>>,
    ignore: bool,
    pc: int,
)
    requires
        sound(was),
        done matches Ok(d) ==> sound(d.store) && d.store.hwm == was.hwm,
    ensures
        settled_step(was, done, keep, ignore, pc) matches Ok(st) ==> sound(st.store)
            && st.store.hwm == was.hwm,
{
    if let Ok(d) = done {
        if let Some(n) = keep {
            lemma_rows_kept(d.store, n, d.out);
        }
    }
}

proof fn lemma_step(
    st: StateV,
    ss: Seq<StmtV>,
    customs: Seq<CustomV>,
    now: i64,
    ro: bool,
)
    requires
        sound(st.store),
        st.pc < ss.len(),
    ensures
        step_of(st, ss, customs, now, ro) matches Ok(n) ==> sound(n.store) && n.store.hwm
            == st.store.hwm,
{
    reveal(step_of);
    let pc = st.pc as int;
    match ss[pc] {
        StmtV::Query(p, keep, ignore) => {
            let r = ran(st.store, p, customs, now, ro);
            if let Ok(d) = r {
                law_query_keeps_sound(st.store, p, customs, now, ro, d);
            }
            lemma_settled_step(st.store, r, keep, ignore, pc);
        },
        StmtV::Sys(op, keep, ignore) => {
            let r = op_done(st.store, op, customs, now, ro);
            if let Ok(d) = r {
                law_operation_keeps_sound(st.store, op, customs, now, ro, d);
            }
            lemma_settled_step(st.store, r, keep, ignore, pc);
        },
        StmtV::ReturnQuery(p) => {
            if let Ok(d) = ran(st.store, p, customs, now, ro) {
                law_query_keeps_sound(st.store, p, customs, now, ro, d);
            }
        },
        StmtV::IfQuery(p, neg) => {
            if let Ok(d) = ran(st.store, p, customs, now, ro) {
                law_query_keeps_sound(st.store, p, customs, now, ro, d);
            }
        },
        _ => {},
    }
}

proof fn lemma_run(
    st: StateV,
    ss: Seq<StmtV>,
    customs: Seq<CustomV>,
    now: i64,
    ro: bool,
    left: nat,
)
    requires
        sound(st.store),
    ensures
        run_from(st, ss, customs, now, ro, left) matches Ok(n) ==> sound(n.store)
            && n.store.hwm == st.store.hwm,
    decreases left,
{
    if !(st.over || st.pc >= ss.len()) && left > 0 {
        lemma_step(st, ss, customs, now, ro);
        if let Ok(n) = step_of(st, ss, customs, now, ro) {
            lemma_run(n, ss, customs, now, ro, (left - 1) as nat);
        }
    }
}

proof fn lemma_lasting(s: StoreV, i: int, acc: Seq<RelationV>)
    requires
        sound(s),
        0 <= i <= s.rels.len(),
        sound(StoreV { rels: acc, ..s }),
        forall|a: int, j: int|
            0 <= a < acc.len() && i <= j < s.rels.len() ==> (#[trigger] acc[a]).name != (
            #[trigger] s.rels[j]).name && acc[a].id != s.rels[j].id,
        forall|a: int| 0 <= a < acc.len() ==> !is_temp((#[trigger] acc[a]).name),
    ensures
        sound(StoreV { rels: lasting_from(s.rels, i, acc), ..s }),
        forall|a: int|
            0 <= a < lasting_from(s.rels, i, acc).len() ==> !is_temp(
                (#[trigger] lasting_from(s.rels, i, acc)[a]).name,
            ),
    decreases s.rels.len() - i,
{
    if i < s.rels.len() {
        if is_temp(s.rels[i].name) {
            lemma_lasting(s, i + 1, acc);
        } else {
            let more = acc.push(s.rels[i]);
            let t = StoreV { rels: more, ..s };
            let u = StoreV { rels: acc, ..s };
            assert forall|a: int| 0 <= a < more.len() implies in_order((#[trigger] more[a]).recs)
                && more[a].id < t.next_id && timely(more[a], t.hwm) by {
                if a < acc.len() {
                    assert(more[a] == acc[a]);
                    assert(in_order(u.rels[a].recs) && timely(u.rels[a], u.hwm));
                }
            }
            assert forall|a: int, b: int| 0 <= a < b < more.len() implies (#[trigger] more[a]).name
                != (#[trigger] more[b]).name && more[a].id != more[b].id by {
                assert(more[a] == acc[a]);
                if b < acc.len() {
                    assert(more[b] == acc[b]);
                    assert(u.rels[a].name != u.rels[b].name && u.rels[a].id != u.rels[b].id);
                }
            }
            assert forall|a: int, j: int|
                0 <= a < more.len() && i + 1 <= j < s.rels.len() implies (#[trigger] more[a]).name
                != (#[trigger] s.rels[j]).name && more[a].id != s.rels[j].id by {
                if a < acc.len() {
                    assert(more[a] == acc[a]);
                }
            }
            lemma_lasting(s, i + 1, more);
        }
    }
}

/// A script keeps a store sound, and leaves none of its own relations behind.
pub proof fn law_script_keeps_sound(
    s: StoreV,
    ss: Seq<StmtV>,
    customs: Seq<CustomV>,
    now: i64,
    ro: bool,
    d: DoneV,
)
    requires
        sound(s),
        script_done(s, ss, customs, now, ro) == Ok::<DoneV, Fault>(d),
    ensures
        sound(d.store),
        d.store.hwm == s.hwm,
        forall|i: int|
            0 <= i < d.store.rels.len() ==> !is_temp((#[trigger] d.store.rels[i]).name),
{
    let first = StateV { store: s, pc: 0, out: nothing(), over: false };
    lemma_run(first, ss, customs, now, ro, crate::script::MOST_STEPS as nat);
    let st = run_from(first, ss, customs, now, ro, crate::script::MOST_STEPS as nat)->Ok_0;
    assert(sound(StoreV { rels: Seq::empty(), ..st.store }));
    lemma_lasting(st.store, 0, Seq::empty());
}

proof fn lemma_put_by_time(recs: Seq<RecordV>, key: Seq<Value>, blob: Seq<u8>, t: Option<i64>)
    requires
        by_time(recs, t),
        t is Some && instant(key.last()) <= t->0,
    ensures
        by_time(with_rec(recs, key, blob), t),
{
    let s = rec_slot(recs, key);
    let out = with_rec(recs, key, blob);
    lemma_rec_slot(recs, key, recs.len() as int);
    assert forall|i: int| 0 <= i < out.len() implies t is Some && instant(
        (#[trigger] out[i]).key.last(),
    ) <= t->0 by {
        if s > 0 && recs[s - 1].key == key {
            assert(out[i].key == recs[i].key);
        } else if i < s {
            assert(out[i] == recs[i]);
        } else if i > s {
            assert(out[i] == recs[i - 1]);
        }
    }
}

proof fn lemma_stamped(s: StoreV, ps: Seq<PendingV>, tt: i64, i: int, t: StoreV)
    requires
        sound(s),
        0 <= i,
        t.rels == stamped_from(s.rels, ps, tt, i),
        t.next_id == s.next_id,
        s.hwm == Some(tt),
        t.hwm == s.hwm,
    ensures
        sound(t),
    decreases ps.len() - i,
{
    if i < ps.len() {
        let p = rel_place(s.rels, ps[i].rel);
        lemma_rel_from(s.rels, ps[i].rel, 0);
        if p >= s.rels.len() {
            lemma_stamped(s, ps, tt, i + 1, t);
        } else {
            let key = stamped_key(ps[i], kind_of(s.rels[p].keys), tt);
            law_put_rec(s.rels[p].recs, key, encode_row_of(ps[i].vals), key);
            let rel = RelationV {
                recs: with_rec(s.rels[p].recs, key, encode_row_of(ps[i].vals)),
                ..s.rels[p]
            };
            let next = StoreV { rels: s.rels.update(p, rel), ..s };
            if has_tt(rel.keys) {
                assert(instant(key.last()) == tt);
                lemma_put_by_time(s.rels[p].recs, key, encode_row_of(ps[i].vals), s.hwm);
            }
            lemma_set_rel(s, p, rel, next);
            lemma_stamped(next, ps, tt, i + 1, t);
        }
    }
}

/// Whether a clock is not behind the greatest time that a store has noted.
pub open spec fn abreast(clock: i64, s: StoreV) -> bool {
    s.hwm is Some ==> s.hwm->0 <= clock
}

/// A commit keeps a store sound, and the clock abreast of it. What was pending
/// has then got its time, which is later than every time in the store and than
/// that of every earlier commit, and nothing is pending.
pub proof fn law_commit(clock: i64, s: StoreV, now: i64, c: i64, t: StoreV)
    requires
        sound(s),
        abreast(clock, s),
        committed(clock, s, now) == Ok::<(i64, StoreV), Fault>((c, t)),
    ensures
        sound(t),
        abreast(c, t),
        t.pending.len() == 0 && t.declared.len() == 0 && t.events.len() == 0,
        s.pending.len() > 0 ==> c > clock && t.hwm == Some(c),
        s.pending.len() > 0 ==> forall|i: int, j: int|
            0 <= i < s.rels.len() && has_tt(s.rels[i].keys) && 0 <= j < s.rels[i].recs.len()
                ==> instant((#[trigger] s.rels[i].recs[j]).key.last()) < c,
        s.pending.len() == 0 ==> c == clock && t.rels == s.rels && t.hwm == s.hwm,
{
    if s.pending.len() > 0 {
        let later = StoreV { hwm: Some(c), ..s };
        assert forall|i: int| 0 <= i < later.rels.len() implies timely(
            #[trigger] later.rels[i],
            later.hwm,
        ) by {
            assert(timely(s.rels[i], s.hwm));
        }
        assert(sound(later));
        lemma_stamped(later, s.pending, c, 0, t);
        assert forall|i: int, j: int|
            0 <= i < s.rels.len() && has_tt(s.rels[i].keys) && 0 <= j
                < s.rels[i].recs.len() implies instant(
            (#[trigger] s.rels[i].recs[j]).key.last(),
        ) < c by {
            assert(timely(s.rels[i], s.hwm));
        }
    }
}

/// A transaction keeps a store sound, and the clock abreast of it.
pub proof fn law_transaction_keeps_sound(
    clock: i64,
    customs: Seq<CustomV>,
    s: StoreV,
    script: Seq<char>,
    params: Seq<ParamV>,
    ro: bool,
    now: i64,
    c: i64,
    t: StoreV,
    out: SourceV,
    events: Seq<EventV>,
)
    requires
        sound(s),
        abreast(clock, s),
        transacted(clock, customs, s, script, params, ro, now) == Ok::<
            (i64, StoreV, SourceV, Seq<EventV>),
            Fault,
        >((c, t, out, events)),
    ensures
        sound(t),
        abreast(c, t),
        t.pending.len() == 0 && t.declared.len() == 0 && t.events.len() == 0,
        c >= clock,
{
    let ss = script_of(script, params)->Ok_0;
    let d = script_done(s, ss, customs, now, ro)->Ok_0;
    law_script_keeps_sound(s, ss, customs, now, ro, d);
    law_commit(clock, d.store, now, c, t);
}

/// A store without anything in it is sound.
pub proof fn law_empty_is_sound()
    ensures
        sound(empty_store()),
{
}

proof fn lemma_free(rels: Seq<RelationV>, i: int, next: u64)
    requires
        0 <= i <= rels.len(),
    ensures
        next <= free_from(rels, i, next),
        forall|j: int|
            i <= j < rels.len() && (#[trigger] rels[j]).id < u64::MAX ==> rels[j].id < free_from(
                rels,
                i,
                next,
            ),
    decreases rels.len() - i,
{
    if i < rels.len() {
        lemma_free(
            rels,
            i + 1,
            if above(rels[i].id) > next {
                above(rels[i].id)
            } else {
                next
            },
        );
    }
}

/// Opening a store repairs its counter of identifiers, whatever it was: where
/// nothing else was amiss, the store is sound.
pub proof fn law_open_repairs_counter(s: StoreV)
    requires
        forall|i: int| 0 <= i < s.rels.len() ==> in_order((#[trigger] s.rels[i]).recs),
        forall|i: int, j: int|
            0 <= i < j < s.rels.len() ==> (#[trigger] s.rels[i]).name != (
            #[trigger] s.rels[j]).name && s.rels[i].id != s.rels[j].id,
        forall|i: int| 0 <= i < s.rels.len() ==> (#[trigger] s.rels[i]).id < u64::MAX,
        forall|i: int| 0 <= i < s.rels.len() ==> timely(#[trigger] s.rels[i], s.hwm),
    ensures
        sound(opened(s)),
        abreast(fresh_instance(s).clock, opened(s)),
        opened(s).rels == s.rels,
{
    lemma_free(s.rels, 0, s.next_id);
}

proof fn lemma_nothing_above(rels: Seq<RelationV>, i: int, next: u64)
    requires
        0 <= i <= rels.len(),
        forall|j: int| 0 <= j < rels.len() ==> (#[trigger] rels[j]).id < next,
    ensures
        free_from(rels, i, next) == next,
    decreases rels.len() - i,
{
    if i < rels.len() {
        assert(rels[i].id < next);
        lemma_nothing_above(rels, i + 1, next);
    }
}

/// What a database keeps between transactions is opened as it was closed; so a
/// backup that is restored, and a database that is opened again, show what was
/// there.
pub proof fn law_closed_is_opened(s: StoreV)
    requires
        sound(s),
        s.pending.len() == 0,
        s.declared.len() == 0,
        s.events.len() == 0,
    ensures
        opened(s) == s,
{
    lemma_nothing_above(s.rels, 0, s.next_id);
    assert(opened(s) =~= s);
}

} // verus!
