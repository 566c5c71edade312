//! What a transaction writes to a relation with transaction times.
use vstd::prelude::*;

use crate::codec::decode_row_of;
use crate::db::committed;
use crate::error::Fault;
use crate::expr::{Ctx, branched};
use crate::law_reconcile::{
    Point, all_stamped, believed_after, entry_point, holds, law_writes_are_believed,
    lemma_pending_found,
};
use crate::law_store::{abreast, law_commit, sound};
use crate::law_time::{fits, is_stamped, lemma_decoded_each, with_stamped};
use crate::query::WriteKind;
use crate::schema::{ColumnV, RelKind, kind_of};
use crate::store::{PendingV, RelationV, StoreV, decoded_from, lemma_rel_from, rel_place};
use crate::temporal::{instant, tt_of};
use crate::value::Value;
use crate::write::{WorkV, fill_of, fills_from, given_at, salted};
use crate::write_tt::{
    bi_now_row_of, bi_row_of, fact_in, first_cols, pending_about_from, pending_from, point_in,
    same_point, stamped_from, tt_row_of, tt_rows_from, tx_row_of,
};

verus! {

/// Whether no two of the writes to a relation are about one fact from one
/// instant.
pub open spec fn one_per_point(ps: Seq<PendingV>, name: Seq<char>, k: RelKind) -> bool {
    forall|i: int, j: int|
        0 <= i < j < ps.len() && (#[trigger] ps[i]).rel == name && (#[trigger] ps[j]).rel == name
            ==> !same_point(ps[i].key, ps[j].key, k)
}

/// Another write may join the others where none of them is about its point.
proof fn lemma_push(ps: Seq<PendingV>, name: Seq<char>, key: Seq<Value>, k: RelKind, w: PendingV)
    requires
        one_per_point(ps, name, k),
        pending_from(ps, name, key, k, 0) >= ps.len(),
        w.rel == name,
        forall|a: Seq<Value>| #[trigger] same_point(a, w.key, k) ==> same_point(a, key, k),
    ensures
        one_per_point(ps.push(w), name, k),
{
    lemma_pending_found(ps, name, key, k, 0);
    let more = ps.push(w);
    assert forall|i: int, j: int|
        0 <= i < j < more.len() && (#[trigger] more[i]).rel == name && (#[trigger] more[j]).rel
            == name implies !same_point(more[i].key, more[j].key, k) by {
        assert(more[i] == ps[i]);
        if j < ps.len() {
            assert(more[j] == ps[j]);
        } else {
            assert(!same_point(ps[i].key, key, k));
        }
    }
}

/// A write may take the place of the one about its point.
proof fn lemma_update(ps: Seq<PendingV>, name: Seq<char>, k: RelKind, w: PendingV)
    requires
        one_per_point(ps, name, k),
        pending_from(ps, name, w.key, k, 0) < ps.len(),
        w.rel == name,
    ensures
        one_per_point(ps.update(pending_from(ps, name, w.key, k, 0), w), name, k),
{
    lemma_pending_found(ps, name, w.key, k, 0);
    let p = pending_from(ps, name, w.key, k, 0);
    let more = ps.update(p, w);
    assert forall|i: int, j: int|
        0 <= i < j < more.len() && (#[trigger] more[i]).rel == name && (#[trigger] more[j]).rel
            == name implies !same_point(more[i].key, more[j].key, k) by {
        assert(ps[i].rel == name && ps[j].rel == name);
        assert(!same_point(ps[i].key, ps[j].key, k));
    }
}

proof fn lemma_about(ps: Seq<PendingV>, name: Seq<char>, fact: Seq<Value>, i: int)
    requires
        0 <= i <= ps.len(),
        pending_about_from(ps, name, fact, i) >= ps.len(),
    ensures
        forall|j: int|
            i <= j < ps.len() && (#[trigger] ps[j]).rel == name && ps[j].key.len() >= fact.len()
                ==> ps[j].key.take(fact.len() as int) != fact,
    decreases ps.len() - i,
{
    if i < ps.len() {
        lemma_about(ps, name, fact, i + 1);
    }
}

/// Where no write is about a fact, none is about it from an instant.
proof fn lemma_no_point(ps: Seq<PendingV>, name: Seq<char>, key: Seq<Value>, i: int)
    requires
        0 <= i <= ps.len(),
        key.len() > 0,
        forall|j: int|
            0 <= j < ps.len() && (#[trigger] ps[j]).rel == name && ps[j].key.len() >= key.len() - 1
                ==> ps[j].key.take(key.len() - 1) != key.drop_last(),
    ensures
        pending_from(ps, name, key, RelKind::Bi, i) >= ps.len(),
    decreases ps.len() - i,
{
    if i < ps.len() {
        if ps[i].rel == name && same_point(ps[i].key, key, RelKind::Bi) {
            assert(ps[i].key.drop_last().len() == key.drop_last().len());
            assert(ps[i].key.take(key.len() - 1) =~= ps[i].key.drop_last());
        }
        lemma_no_point(ps, name, key, i + 1);
    }
}

proof fn lemma_fills_len(
    cols: Seq<ColumnV>,
    gs: Seq<Option<usize>>,
    off: int,
    row: Seq<Value>,
    ctx: Ctx,
    i: int,
    acc: Seq<Value>,
)
    requires
        0 <= i <= cols.len(),
        acc.len() == i,
    ensures
        fills_from(cols, gs, off, row, ctx, i, acc) matches Ok(out) ==> out.len() == cols.len(),
    decreases cols.len() - i,
{
    if i < cols.len() {
        if let Ok(v) = fill_of(
            cols[i],
            given_at(gs, off + i),
            row,
            branched(branched(ctx, off), i),
        ) {
            lemma_fills_len(cols, gs, off, row, ctx, i + 1, acc.push(v));
        }
    }
}

proof fn lemma_tx_row(
    op: WriteKind,
    rel: RelationV,
    rows: Seq<Seq<Value>>,
    gs: Seq<Option<usize>>,
    row: Seq<Value>,
    ctx: Ctx,
    start: int,
    work: WorkV,
)
    requires
        one_per_point(work.pending, rel.name, RelKind::Tx),
    ensures
        tx_row_of(op, rel, rows, gs, row, ctx, start, work) matches Ok(next) ==> one_per_point(
            next.pending,
            rel.name,
            RelKind::Tx,
        ),
{
    let k = RelKind::Tx;
    let nk = rel.keys.len() as int;
    if let Ok(key) = fills_from(first_cols(rel.keys, nk - 1), gs, 0, row, ctx, 0, Seq::empty()) {
        let ps = work.pending;
        let p = pending_from(ps, rel.name, key, k, 0);
        lemma_pending_found(ps, rel.name, key, k, 0);
        if p >= ps.len() {
            assert forall|w: PendingV| w.rel == rel.name && w.key == key implies one_per_point(
                #[trigger] ps.push(w),
                rel.name,
                k,
            ) by {
                lemma_push(ps, rel.name, key, k, w);
            }
        } else {
            assert forall|w: PendingV| w.rel == rel.name && w.key == key implies one_per_point(
                #[trigger] ps.update(p, w),
                rel.name,
                k,
            ) by {
                lemma_update(ps, rel.name, k, w);
            }
        }
    }
}

proof fn lemma_bi_row(
    op: WriteKind,
    rel: RelationV,
    rows: Seq<Seq<Value>>,
    gs: Seq<Option<usize>>,
    row: Seq<Value>,
    ctx: Ctx,
    start: int,
    work: WorkV,
)
    requires
        rel.keys.len() >= 2,
        one_per_point(work.pending, rel.name, RelKind::Bi),
    ensures
        bi_row_of(op, rel, rows, gs, row, ctx, start, work) matches Ok(next) ==> one_per_point(
            next.pending,
            rel.name,
            RelKind::Bi,
        ),
{
    let k = RelKind::Bi;
    let nk = rel.keys.len() as int;
    lemma_fills_len(first_cols(rel.keys, nk - 1), gs, 0, row, ctx, 0, Seq::empty());
    if let Ok(key) = fills_from(first_cols(rel.keys, nk - 1), gs, 0, row, ctx, 0, Seq::empty()) {
        let ps = work.pending;
        let p = pending_from(ps, rel.name, key, k, 0);
        lemma_pending_found(ps, rel.name, key, k, 0);
        let back = fact_in(key).push(Value::Validity(point_in(key), false));
        assert(back.drop_last() =~= key.drop_last());
        if pending_about_from(ps, rel.name, fact_in(key), 0) >= ps.len() {
            lemma_about(ps, rel.name, fact_in(key), 0);
            lemma_no_point(ps, rel.name, key, 0);
        }
        if p >= ps.len() {
            assert forall|w: PendingV|
                w.rel == rel.name && (w.key == key || w.key == back) implies one_per_point(
                #[trigger] ps.push(w),
                rel.name,
                k,
            ) by {
                lemma_push(ps, rel.name, key, k, w);
            }
        } else {
            assert forall|w: PendingV| w.rel == rel.name && w.key == key implies one_per_point(
                #[trigger] ps.update(p, w),
                rel.name,
                k,
            ) by {
                lemma_update(ps, rel.name, k, w);
            }
        }
    }
}

proof fn lemma_bi_now_row(
    op: WriteKind,
    rel: RelationV,
    rows: Seq<Seq<Value>>,
    gs: Seq<Option<usize>>,
    row: Seq<Value>,
    ctx: Ctx,
    work: WorkV,
)
    requires
        one_per_point(work.pending, rel.name, RelKind::Bi),
    ensures
        bi_now_row_of(op, rel, rows, gs, row, ctx, work) matches Ok(next) ==> one_per_point(
            next.pending,
            rel.name,
            RelKind::Bi,
        ),
{
    let k = RelKind::Bi;
    let nk = rel.keys.len() as int;
    if let Ok(id) = fills_from(first_cols(rel.keys, nk - 2), gs, 0, row, ctx, 0, Seq::empty()) {
        let ps = work.pending;
        if pending_about_from(ps, rel.name, id, 0) >= ps.len() {
            lemma_about(ps, rel.name, id, 0);
            assert forall|w: PendingV|
                w.rel == rel.name && w.key.len() == id.len() + 1 && w.key.drop_last()
                    == id implies one_per_point(#[trigger] ps.push(w), rel.name, k) by {
                lemma_no_point(ps, rel.name, w.key, 0);
                lemma_push(ps, rel.name, w.key, k, w);
            }
            assert forall|v: Value| (#[trigger] id.push(v)).drop_last() == id by {
                assert(id.push(v).drop_last() =~= id);
            }
        }
    }
}

proof fn lemma_tt_row(
    op: WriteKind,
    rel: RelationV,
    rows: Seq<Seq<Value>>,
    gs: Seq<Option<usize>>,
    row: Seq<Value>,
    ctx: Ctx,
    start: int,
    work: WorkV,
)
    requires
        kind_of(rel.keys) == RelKind::Tx || kind_of(rel.keys) == RelKind::Bi,
        one_per_point(work.pending, rel.name, kind_of(rel.keys)),
    ensures
        tt_row_of(op, rel, rows, gs, row, ctx, start, work) matches Ok(next) ==> one_per_point(
            next.pending,
            rel.name,
            kind_of(rel.keys),
        ),
{
    if kind_of(rel.keys) == RelKind::Tx {
        lemma_tx_row(op, rel, rows, gs, row, ctx, start, work);
    } else {
        lemma_bi_row(op, rel, rows, gs, row, ctx, start, work);
        lemma_bi_now_row(op, rel, rows, gs, row, ctx, work);
    }
}

/// A transaction has at most one write about a fact from an instant pending:
/// writing rows, whatever they are, keeps it so.
pub proof fn law_one_write_per_point(
    op: WriteKind,
    rel: RelationV,
    olds: Seq<Seq<Value>>,
    gs: Seq<Option<usize>>,
    rows: Seq<Seq<Value>>,
    ctx: Ctx,
    start: int,
    i: int,
    work: WorkV,
)
    requires
        kind_of(rel.keys) == RelKind::Tx || kind_of(rel.keys) == RelKind::Bi,
        one_per_point(work.pending, rel.name, kind_of(rel.keys)),
        0 <= i,
    ensures
        tt_rows_from(op, rel, olds, gs, rows, ctx, start, i, work) matches Ok(next)
            ==> one_per_point(next.pending, rel.name, kind_of(rel.keys)),
    decreases rows.len() - i,
{
    if i < rows.len() {
        let c = salted(ctx, i);
        lemma_tt_row(op, rel, olds, gs, rows[i], c, start, work);
        if let Ok(next) = tt_row_of(op, rel, olds, gs, rows[i], c, start, work) {
            law_one_write_per_point(op, rel, olds, gs, rows, ctx, start, i + 1, next);
        }
    }
}

/// The pending writes to a relation from place `i` on.
pub open spec fn writes_to(ps: Seq<PendingV>, name: Seq<char>, i: int) -> Seq<PendingV>
    decreases ps.len() - i,
{
    if i < 0 || i >= ps.len() {
        Seq::empty()
    } else if ps[i].rel == name {
        seq![ps[i]] + writes_to(ps, name, i + 1)
    } else {
        writes_to(ps, name, i + 1)
    }
}

proof fn lemma_writes_to(ps: Seq<PendingV>, name: Seq<char>, k: RelKind, i: int)
    requires
        0 <= i,
        one_per_point(ps, name, k),
    ensures
        forall|a: int|
            0 <= a < writes_to(ps, name, i).len() ==> (#[trigger] writes_to(ps, name, i)[a]).rel
                == name && exists|j: int|
                i <= j < ps.len() && #[trigger] ps[j] == writes_to(ps, name, i)[a],
        one_per_point(writes_to(ps, name, i), name, k),
    decreases ps.len() - i,
{
    if i < ps.len() {
        lemma_writes_to(ps, name, k, i + 1);
        let own = writes_to(ps, name, i);
        let rest = writes_to(ps, name, i + 1);
        assert forall|a: int| 0 <= a < own.len() implies (#[trigger] own[a]).rel == name && exists|
            j: int,
        |
            i <= j < ps.len() && #[trigger] ps[j] == own[a] by {
            if ps[i].rel != name {
                assert(own[a] == rest[a]);
            } else if a == 0 {
                assert(ps[i] == own[a]);
            } else {
                assert(own[a] == rest[a - 1]);
            }
        }
        if ps[i].rel == name {
            assert forall|a: int, b: int|
                0 <= a < b < own.len() && (#[trigger] own[a]).rel == name && (
                #[trigger] own[b]).rel == name implies !same_point(own[a].key, own[b].key, k) by {
                assert(own[b] == rest[b - 1]);
                if a == 0 {
                    let j = choose|j: int|
                        i + 1 <= j < ps.len() && #[trigger] ps[j] == rest[b - 1];
                    assert(own[a] == ps[i]);
                } else {
                    assert(own[a] == rest[a - 1]);
                }
            }
        }
    }
}

proof fn lemma_stamped_behind(rel: RelationV, w: PendingV, ps: Seq<PendingV>, tt: i64, i: int)
    requires
        0 <= i,
    ensures
        all_stamped(rel, seq![w] + ps, tt, i + 1) == all_stamped(rel, ps, tt, i),
    decreases ps.len() - i,
{
    if i < ps.len() {
        lemma_stamped_behind(with_stamped(rel, ps[i], tt), w, ps, tt, i + 1);
    }
}

/// What giving pending writes their time makes of a relation depends on the
/// writes to it alone.
proof fn lemma_stamped_own(
    rels: Seq<RelationV>,
    r: int,
    ps: Seq<PendingV>,
    tt: i64,
    i: int,
)
    requires
        0 <= r < rels.len(),
        0 <= i <= ps.len(),
        forall|q: int, p: int|
            0 <= q < p < rels.len() ==> (#[trigger] rels[q]).name != (#[trigger] rels[p]).name,
    ensures
        stamped_from(rels, ps, tt, i).len() == rels.len(),
        stamped_from(rels, ps, tt, i)[r] == all_stamped(
            rels[r],
            writes_to(ps, rels[r].name, i),
            tt,
            0,
        ),
    decreases ps.len() - i,
{
    if i < ps.len() {
        let w = ps[i];
        let q = rel_place(rels, w.rel);
        lemma_rel_from(rels, w.rel, 0);
        if q >= rels.len() {
            assert(rels[r].name != w.rel);
            lemma_stamped_own(rels, r, ps, tt, i + 1);
        } else {
            let next = rels.update(q, with_stamped(rels[q], w, tt));
            assert(next[r].name == rels[r].name);
            lemma_stamped_own(next, r, ps, tt, i + 1);
            if q == r {
                let rest = writes_to(ps, rels[r].name, i + 1);
                lemma_stamped_behind(with_stamped(rels[r], w, tt), w, rest, tt, 0);
                assert((seq![w] + rest)[0] == w);
            } else {
                assert(rels[q].name != rels[r].name) by {
                    if q < r {
                        assert(rels[q].name != rels[r].name);
                    } else {
                        assert(rels[r].name != rels[q].name);
                    }
                }
            }
        }
    }
}

/// Once a transaction is committed, what it wrote is believed: in each relation
/// with transaction times, at the point of each of the writes to it what the
/// write says, and at every other point what was believed before.
pub proof fn law_commit_is_believed(
    clock: i64,
    s: StoreV,
    now: i64,
    c: i64,
    t: StoreV,
    r: int,
    rows: Seq<Seq<Value>>,
) -> (out: Seq<Seq<Value>>)
    requires
        sound(s),
        abreast(clock, s),
        committed(clock, s, now) == Ok::<(i64, StoreV), Fault>((c, t)),
        0 <= r < s.rels.len(),
        is_stamped(kind_of(s.rels[r].keys)),
        decoded_from(s.rels[r].recs, 0, Seq::empty()) == Ok::<Seq<Seq<Value>>, Fault>(rows),
        forall|i: int|
            0 <= i < s.rels[r].recs.len() ==> (#[trigger] s.rels[r].recs[i]).key.len()
                == s.rels[r].keys.len(),
        forall|j: int|
            0 <= j < s.pending.len() && (#[trigger] s.pending[j]).rel == s.rels[r].name ==> fits(
                s.rels[r],
                s.pending[j],
            ),
        one_per_point(s.pending, s.rels[r].name, kind_of(s.rels[r].keys)),
    ensures
        decoded_from(t.rels[r].recs, 0, Seq::empty()) == Ok::<Seq<Seq<Value>>, Fault>(out),
        forall|at: Point, vals: Seq<Value>| #[trigger]
            holds(out, kind_of(s.rels[r].keys), s.rels[r].keys.len() as int, at, vals)
                == believed_after(
                rows,
                writes_to(s.pending, s.rels[r].name, 0),
                kind_of(s.rels[r].keys),
                s.rels[r].keys.len() as int,
                0,
                at,
                vals,
            ),
{
    let rel = s.rels[r];
    let k = kind_of(rel.keys);
    let nk = rel.keys.len() as int;
    let ps = writes_to(s.pending, rel.name, 0);
    lemma_writes_to(s.pending, rel.name, k, 0);
    if s.pending.len() == 0 {
        rows
    } else {
        law_commit(clock, s, now, c, t);
        lemma_stamped_own(s.rels, r, s.pending, c, 0);
        lemma_decoded_each(rel.recs, 0, Seq::empty());
        assert forall|i: int| 0 <= i < rows.len() implies tt_of(#[trigger] rows[i], k, nk) < c by {
            let key = rel.recs[i].key;
            assert(key.len() == nk);
            assert(rows[i] == key + decode_row_of(rel.recs[i].blob)->0);
            assert(rows[i][nk - 1] == key.last());
            assert(instant(s.rels[r].recs[i].key.last()) < c);
        }
        assert forall|j: int| 0 <= j < ps.len() implies fits(rel, #[trigger] ps[j]) by {
            let i = choose|i: int| 0 <= i < s.pending.len() && #[trigger] s.pending[i] == ps[j];
            assert(s.pending[i].rel == rel.name);
        }
        assert forall|i: int, j: int| 0 <= i < j < ps.len() implies entry_point(#[trigger] ps[i], k)
            != entry_point(#[trigger] ps[j], k) by {
            assert(fits(rel, ps[i]) && fits(rel, ps[j]));
            assert(!same_point(ps[i].key, ps[j].key, k));
        }
        law_writes_are_believed(rel, rows, ps, c, 0)
    }
}

} // verus!
