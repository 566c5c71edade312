//! What holds of reads at points in time, whatever is written later.
use vstd::prelude::*;

use crate::codec::{all_sized_from, decode_row_of, encode_row_of, law_row_round_trip};
use crate::error::Fault;
use crate::expr::ExprV;
use crate::mutate::DoneV;
use crate::scan::rel_rows;
use crate::schema::{RelKind, kind_of};
use crate::store::{
    PendingV, RecordV, RelationV, StoreV, decoded_from, lemma_rec_slot, lemma_rel_from, rec_slot,
    rel_place, with_rec,
};
use crate::sysop::{gc_done, kept_from, raised, superseded};
use crate::temporal::{
    LATEST, believed, decides, displayed, id_of, law_past_unchanged, moved_to, overrides, rivals,
    shown, supersedes, tt_of, visible_from, vt_of,
};
use crate::value::Value;
use crate::write_tt::{stamped_from, stamped_key};

verus! {

/// Whether a relation of this kind has transaction times.
pub open spec fn is_stamped(k: RelKind) -> bool {
    k == RelKind::Tx || k == RelKind::Bi
}

proof fn lemma_visible_insert(
    rows: Seq<Seq<Value>>,
    p: int,
    row: Seq<Value>,
    i: int,
    k: RelKind,
    nk: int,
    vt: Option<i64>,
    tt: i64,
    acc: Seq<Seq<Value>>,
)
    requires
        is_stamped(k),
        0 <= p <= rows.len(),
        0 <= i <= rows.len(),
        tt_of(row, k, nk) > tt,
    ensures
        visible_from(rows.insert(p, row), moved_to(i, p), k, nk, vt, tt, acc) == visible_from(
            rows,
            i,
            k,
            nk,
            vt,
            tt,
            acc,
        ),
        i == p ==> visible_from(rows.insert(p, row), p, k, nk, vt, tt, acc) == visible_from(
            rows,
            p,
            k,
            nk,
            vt,
            tt,
            acc,
        ),
    decreases rows.len() - i,
{
    let more = rows.insert(p, row);
    let m = moved_to(i, p);
    if i < rows.len() {
        law_past_unchanged(rows, p, row, i, k, nk, vt, tt);
        assert(more[m] == rows[i]);
        let next = if shown(rows, i, k, nk, vt, tt) {
            acc.push(crate::temporal::displayed(rows[i], k, nk))
        } else {
            acc
        };
        lemma_visible_insert(rows, p, row, i + 1, k, nk, vt, tt, next);
        if i + 1 == p {
            assert(m + 1 == p);
        }
    }
    if i == p {
        if rows.len() > 0 {
            law_past_unchanged(
                rows,
                p,
                row,
                if i < rows.len() {
                    i
                } else {
                    0
                },
                k,
                nk,
                vt,
                tt,
            );
        } else {
            assert(!shown(more, p, k, nk, vt, tt));
        }
        assert(visible_from(more, p, k, nk, vt, tt, acc) == visible_from(
            more,
            p + 1,
            k,
            nk,
            vt,
            tt,
            acc,
        ));
    }
}

/// A row that was recorded after a transaction does not change what a read at
/// that transaction shows.
pub proof fn law_reads_ignore_later_rows(
    rows: Seq<Seq<Value>>,
    p: int,
    row: Seq<Value>,
    k: RelKind,
    nk: int,
    vt: Option<i64>,
    tt: i64,
)
    requires
        is_stamped(k),
        0 <= p <= rows.len(),
        tt_of(row, k, nk) > tt,
    ensures
        visible_from(rows.insert(p, row), 0, k, nk, vt, tt, Seq::empty()) == visible_from(
            rows,
            0,
            k,
            nk,
            vt,
            tt,
            Seq::empty(),
        ),
{
    lemma_visible_insert(rows, p, row, 0, k, nk, vt, tt, Seq::empty());
}

proof fn lemma_remove_insert(rows: Seq<Seq<Value>>, p: int, row: Seq<Value>)
    requires
        0 <= p < rows.len(),
    ensures
        rows.update(p, row) == rows.remove(p).insert(p, row),
        rows == rows.remove(p).insert(p, rows[p]),
{
    assert(rows.update(p, row) =~= rows.remove(p).insert(p, row));
    assert(rows =~= rows.remove(p).insert(p, rows[p]));
}

proof fn lemma_decoded_acc(recs: Seq<RecordV>, i: int, acc: Seq<Seq<Value>>)
    requires
        0 <= i <= recs.len(),
    ensures
        decoded_from(recs, i, acc) matches Ok(rows) ==> rows.len() == acc.len() + recs.len() - i
            && forall|j: int| 0 <= j < acc.len() ==> rows[j] == acc[j],
    decreases recs.len() - i,
{
    if i < recs.len() {
        if let Some(v) = decode_row_of(recs[i].blob) {
            lemma_decoded_acc(recs, i + 1, acc.push(recs[i].key + v));
        }
    }
}

/// The rows from place `i` on after an accumulator, and with one more row.
pub proof fn lemma_decoded_insert(
    recs: Seq<RecordV>,
    p: int,
    rec: RecordV,
    v: Seq<Value>,
    i: int,
    acc: Seq<Seq<Value>>,
)
    requires
        0 <= i <= p <= recs.len(),
        acc.len() == i,
        decode_row_of(rec.blob) == Some(v),
    ensures
        match decoded_from(recs, i, acc) {
            Ok(rows) => decoded_from(recs.insert(p, rec), i, acc) == Ok::<Seq<Seq<Value>>, Fault>(
                rows.insert(p, rec.key + v),
            ),
            Err(f) => decoded_from(recs.insert(p, rec), i, acc) == Err::<Seq<Seq<Value>>, Fault>(f),
        },
    decreases p - i,
{
    let more = recs.insert(p, rec);
    if i == p {
        assert(more[i] == rec);
        let one = acc.push(rec.key + v);
        lemma_decoded_tail(recs, more, p, acc, one, rec.key + v);
    } else {
        assert(more[i] == recs[i]);
        if let Some(w) = decode_row_of(recs[i].blob) {
            lemma_decoded_insert(recs, p, rec, v, i + 1, acc.push(recs[i].key + w));
        }
    }
}

proof fn lemma_decoded_tail(
    recs: Seq<RecordV>,
    more: Seq<RecordV>,
    p: int,
    acc: Seq<Seq<Value>>,
    one: Seq<Seq<Value>>,
    row: Seq<Value>,
)
    requires
        0 <= p <= recs.len(),
        more.len() == recs.len() + 1,
        acc.len() == p,
        one == acc.push(row),
        forall|j: int| p <= j < recs.len() ==> recs[j] == #[trigger] more[j + 1],
    ensures
        match decoded_from(recs, p, acc) {
            Ok(rows) => decoded_from(more, p + 1, one) == Ok::<Seq<Seq<Value>>, Fault>(
                rows.insert(p, row),
            ),
            Err(f) => decoded_from(more, p + 1, one) == Err::<Seq<Seq<Value>>, Fault>(f),
        },
{
    assert(one =~= acc.insert(p, row));
    lemma_decoded_shift(recs, more, p, p, acc, one, row);
}

proof fn lemma_decoded_shift(
    recs: Seq<RecordV>,
    more: Seq<RecordV>,
    p: int,
    i: int,
    acc: Seq<Seq<Value>>,
    one: Seq<Seq<Value>>,
    row: Seq<Value>,
)
    requires
        0 <= p <= i <= recs.len(),
        more.len() == recs.len() + 1,
        acc.len() == i,
        one == acc.insert(p, row),
        forall|j: int| p <= j < recs.len() ==> recs[j] == #[trigger] more[j + 1],
    ensures
        match decoded_from(recs, i, acc) {
            Ok(rows) => decoded_from(more, i + 1, one) == Ok::<Seq<Seq<Value>>, Fault>(
                rows.insert(p, row),
            ),
            Err(f) => decoded_from(more, i + 1, one) == Err::<Seq<Seq<Value>>, Fault>(f),
        },
    decreases recs.len() - i,
{
    if i < recs.len() {
        assert(recs[i] == more[i + 1]);
        if let Some(w) = decode_row_of(recs[i].blob) {
            let a = acc.push(recs[i].key + w);
            let b = one.push(recs[i].key + w);
            assert(b =~= a.insert(p, row));
            lemma_decoded_shift(recs, more, p, i + 1, a, b, row);
        }
    }
}

proof fn lemma_decoded_update(recs: Seq<RecordV>, p: int, rec: RecordV, v: Seq<Value>)
    requires
        0 <= p < recs.len(),
        decode_row_of(rec.blob) == Some(v),
        decoded_from(recs, 0, Seq::empty()) is Ok,
    ensures
        ({
            let rows = decoded_from(recs, 0, Seq::empty())->Ok_0;
            &&& decoded_from(recs.update(p, rec), 0, Seq::empty()) == Ok::<Seq<Seq<Value>>, Fault>(
                rows.update(p, rec.key + v),
            )
            &&& rows.len() == recs.len()
            &&& decode_row_of(recs[p].blob) is Some
            &&& rows[p] == recs[p].key + decode_row_of(recs[p].blob)->0
        }),
{
    let less = recs.remove(p);
    let empty = Seq::<Seq<Value>>::empty();
    assert(recs =~= less.insert(p, recs[p]));
    assert(recs.update(p, rec) =~= less.insert(p, rec));
    lemma_decoded_all(recs, 0, p, empty);
    let w = decode_row_of(recs[p].blob)->0;
    lemma_decoded_insert(less, p, recs[p], w, 0, empty);
    lemma_decoded_insert(less, p, rec, v, 0, empty);
    lemma_decoded_acc(less, 0, empty);
    let base = decoded_from(less, 0, empty)->Ok_0;
    let rows = decoded_from(recs, 0, empty)->Ok_0;
    assert(rows == base.insert(p, recs[p].key + w));
    assert(rows.update(p, rec.key + v) =~= base.insert(p, rec.key + v));
}

proof fn lemma_decoded_all(recs: Seq<RecordV>, i: int, p: int, acc: Seq<Seq<Value>>)
    requires
        0 <= i <= p < recs.len(),
        decoded_from(recs, i, acc) is Ok,
    ensures
        decode_row_of(recs[p].blob) is Some,
    decreases p - i,
{
    if i < p {
        lemma_decoded_all(recs, i + 1, p, acc.push(recs[i].key + decode_row_of(recs[i].blob)->0));
    }
}

/// A relation after one pending write got its time.
pub open spec fn with_stamped(rel: RelationV, w: PendingV, tt: i64) -> RelationV {
    RelationV {
        recs: with_rec(
            rel.recs,
            stamped_key(w, kind_of(rel.keys), tt),
            encode_row_of(w.vals),
        ),
        ..rel
    }
}

/// Whether a pending write fits a relation: its key lacks nothing but the time,
/// and its values can be written down.
pub open spec fn fits(rel: RelationV, w: PendingV) -> bool {
    w.key.len() == rel.keys.len() - 1 && w.vals.len() <= u64::MAX && all_sized_from(w.vals, 0)
}

/// What a relation shows at an earlier transaction stays the same when a write
/// gets its time.
pub proof fn law_write_keeps_past(
    rel: RelationV,
    w: PendingV,
    tt: i64,
    vt: Option<i64>,
    at: i64,
    as_of: Option<i64>,
)
    requires
        is_stamped(kind_of(rel.keys)),
        fits(rel, w),
        at < tt,
        rel_rows(rel, vt, Some(at), as_of) is Ok,
    ensures
        rel_rows(with_stamped(rel, w, tt), vt, Some(at), as_of) == rel_rows(
            rel,
            vt,
            Some(at),
            as_of,
        ),
{
    let k = kind_of(rel.keys);
    let nk = rel.keys.len() as int;
    let key = stamped_key(w, k, tt);
    let blob = encode_row_of(w.vals);
    let rec = RecordV { key, blob };
    let recs = rel.recs;
    let s = rec_slot(recs, key);
    let row = key + w.vals;
    let rows = decoded_from(recs, 0, Seq::empty())->Ok_0;
    law_row_round_trip(w.vals);
    lemma_rec_slot(recs, key, recs.len() as int);
    lemma_decoded_acc(recs, 0, Seq::empty());
    assert(row[nk - 1] == key[nk - 1]);
    assert(tt_of(row, k, nk) == tt);
    if s > 0 && recs[s - 1].key == key {
        let p = s - 1;
        lemma_decoded_update(recs, p, rec, w.vals);
        let old = rows[p];
        assert(old[nk - 1] == key[nk - 1]);
        assert(tt_of(old, k, nk) == tt);
        let less = rows.remove(p);
        lemma_remove_insert(rows, p, row);
        law_reads_ignore_later_rows(less, p, row, k, nk, vt, at);
        law_reads_ignore_later_rows(less, p, old, k, nk, vt, at);
    } else {
        lemma_decoded_insert(recs, s, rec, w.vals, 0, Seq::empty());
        law_reads_ignore_later_rows(rows, s, row, k, nk, vt, at);
    }
}

proof fn lemma_stamped_rel(
    rels: Seq<RelationV>,
    ps: Seq<PendingV>,
    tt: i64,
    i: int,
    r: int,
    vt: Option<i64>,
    at: i64,
    as_of: Option<i64>,
)
    requires
        0 <= i <= ps.len(),
        0 <= r < rels.len(),
        is_stamped(kind_of(rels[r].keys)),
        forall|j: int|
            i <= j < ps.len() && (#[trigger] ps[j]).rel == rels[r].name ==> fits(rels[r], ps[j]),
        at < tt,
        rel_rows(rels[r], vt, Some(at), as_of) is Ok,
    ensures
        stamped_from(rels, ps, tt, i).len() == rels.len(),
        rel_rows(stamped_from(rels, ps, tt, i)[r], vt, Some(at), as_of) == rel_rows(
            rels[r],
            vt,
            Some(at),
            as_of,
        ),
    decreases ps.len() - i,
{
    if i < ps.len() {
        let q = rel_place(rels, ps[i].rel);
        lemma_rel_from(rels, ps[i].rel, 0);
        if q >= rels.len() {
            lemma_stamped_rel(rels, ps, tt, i + 1, r, vt, at, as_of);
        } else {
            let next = rels.update(q, with_stamped(rels[q], ps[i], tt));
            if q == r {
                law_write_keeps_past(rels[r], ps[i], tt, vt, at, as_of);
            }
            assert(next[r].keys == rels[r].keys && next[r].name == rels[r].name);
            lemma_stamped_rel(next, ps, tt, i + 1, r, vt, at, as_of);
        }
    }
}

/// A commit changes nothing in the past: what a relation shows at a transaction
/// before the one that commits is what it showed.
pub proof fn law_commit_keeps_past(
    rels: Seq<RelationV>,
    ps: Seq<PendingV>,
    tt: i64,
    r: int,
    vt: Option<i64>,
    at: i64,
    as_of: Option<i64>,
)
    requires
        0 <= r < rels.len(),
        is_stamped(kind_of(rels[r].keys)),
        forall|j: int|
            0 <= j < ps.len() && (#[trigger] ps[j]).rel == rels[r].name ==> fits(rels[r], ps[j]),
        at < tt,
        rel_rows(rels[r], vt, Some(at), as_of) is Ok,
    ensures
        stamped_from(rels, ps, tt, 0).len() == rels.len(),
        rel_rows(stamped_from(rels, ps, tt, 0)[r], vt, Some(at), as_of) == rel_rows(
            rels[r],
            vt,
            Some(at),
            as_of,
        ),
{
    lemma_stamped_rel(rels, ps, tt, 0, r, vt, at, as_of);
}

/// Row `i` was superseded by some row that is itself believed.
proof fn lemma_believed_above(
    rows: Seq<Seq<Value>>,
    j: int,
    i: int,
    k: RelKind,
    nk: int,
    tt: i64,
) -> (b:
    int)
    requires
        0 <= j < rows.len(),
        0 <= i < rows.len(),
        supersedes(rows, j, i, k, nk, tt),
    ensures
        0 <= b < rows.len(),
        supersedes(rows, b, i, k, nk, tt),
        believed(rows, b, k, nk, tt),
    decreases tt - tt_of(rows[j], k, nk), j,
{
    if believed(rows, j, k, nk, tt) {
        j
    } else {
        let m = choose|m: int| 0 <= m < rows.len() && supersedes(rows, m, j, k, nk, tt);
        lemma_believed_above(rows, m, i, k, nk, tt)
    }
}

/// Rows of which some were dropped: `idx` tells where those that are left stood.
pub open spec fn thinned(rows: Seq<Seq<Value>>, left: Seq<Seq<Value>>, idx: Seq<int>) -> bool {
    &&& left.len() == idx.len()
    &&& forall|a: int| 0 <= a < idx.len() ==> 0 <= #[trigger] idx[a] < rows.len() && left[a]
        == rows[idx[a]]
    &&& forall|a: int, b: int| 0 <= a < b < idx.len() ==> #[trigger] idx[a] < #[trigger] idx[b]
}

/// Whether every row that was dropped was superseded by the time of a cutoff.
pub open spec fn drops_superseded(
    rows: Seq<Seq<Value>>,
    idx: Seq<int>,
    k: RelKind,
    nk: int,
    cutoff: i64,
) -> bool {
    forall|i: int| 0 <= i < rows.len() && !idx.contains(i) ==> !(#[trigger] believed(
        rows,
        i,
        k,
        nk,
        cutoff,
    )) && tt_of(rows[i], k, nk) <= cutoff
}

proof fn lemma_believed_kept(
    rows: Seq<Seq<Value>>,
    idx: Seq<int>,
    i: int,
    k: RelKind,
    nk: int,
    cutoff: i64,
    tt: i64,
)
    requires
        drops_superseded(rows, idx, k, nk, cutoff),
        cutoff <= tt,
        0 <= i < rows.len(),
        believed(rows, i, k, nk, tt),
    ensures
        idx.contains(i),
{
    if !idx.contains(i) {
        assert(!believed(rows, i, k, nk, cutoff));
        let m = choose|m: int| 0 <= m < rows.len() && supersedes(rows, m, i, k, nk, cutoff);
        assert(supersedes(rows, m, i, k, nk, tt));
    }
}

proof fn lemma_thinned_believed(
    rows: Seq<Seq<Value>>,
    left: Seq<Seq<Value>>,
    idx: Seq<int>,
    a: int,
    k: RelKind,
    nk: int,
    cutoff: i64,
    tt: i64,
)
    requires
        thinned(rows, left, idx),
        drops_superseded(rows, idx, k, nk, cutoff),
        cutoff <= tt,
        0 <= a < left.len(),
    ensures
        believed(left, a, k, nk, tt) == believed(rows, idx[a], k, nk, tt),
{
    let i = idx[a];
    if believed(rows, i, k, nk, tt) {
        assert forall|b: int| 0 <= b < left.len() implies !supersedes(
            left,
            b,
            a,
            k,
            nk,
            tt,
        ) by {
            if supersedes(left, b, a, k, nk, tt) {
                if b < a {
                    assert(idx[b] < idx[a]);
                }
                assert(supersedes(rows, idx[b], i, k, nk, tt));
            }
        }
    } else if tt_of(rows[i], k, nk) <= tt {
        let m = choose|m: int| 0 <= m < rows.len() && supersedes(rows, m, i, k, nk, tt);
        let b = lemma_believed_above(rows, m, i, k, nk, tt);
        lemma_believed_kept(rows, idx, b, k, nk, cutoff, tt);
        let c = choose|c: int| 0 <= c < idx.len() && idx[c] == b;
        if b < i && c >= a {
            if c > a {
                assert(idx[a] < idx[c]);
            }
        }
        assert(supersedes(left, c, a, k, nk, tt));
    }
}

proof fn lemma_thinned_shown(
    rows: Seq<Seq<Value>>,
    left: Seq<Seq<Value>>,
    idx: Seq<int>,
    a: int,
    k: RelKind,
    nk: int,
    cutoff: i64,
    vt: Option<i64>,
    tt: i64,
)
    requires
        is_stamped(k),
        thinned(rows, left, idx),
        drops_superseded(rows, idx, k, nk, cutoff),
        cutoff <= tt,
        0 <= a < left.len(),
    ensures
        shown(left, a, k, nk, vt, tt) == shown(rows, idx[a], k, nk, vt, tt),
{
    let i = idx[a];
    lemma_thinned_believed(rows, left, idx, a, k, nk, cutoff, tt);
    if let Some(v) = vt {
        if decides(rows, i, k, nk, v, tt) {
            assert forall|b: int| 0 <= b < left.len() implies !overrides(
                left,
                b,
                a,
                k,
                nk,
                v,
                tt,
            ) by {
                lemma_thinned_believed(rows, left, idx, b, k, nk, cutoff, tt);
                assert(!overrides(rows, idx[b], i, k, nk, v, tt));
            }
        }
        if decides(left, a, k, nk, v, tt) {
            assert forall|j: int| 0 <= j < rows.len() implies !overrides(
                rows,
                j,
                i,
                k,
                nk,
                v,
                tt,
            ) by {
                if overrides(rows, j, i, k, nk, v, tt) {
                    lemma_believed_kept(rows, idx, j, k, nk, cutoff, tt);
                    let c = choose|c: int| 0 <= c < idx.len() && idx[c] == j;
                    lemma_thinned_believed(rows, left, idx, c, k, nk, cutoff, tt);
                    assert(overrides(left, c, a, k, nk, v, tt));
                }
            }
        }
    }
}

proof fn lemma_thinned_visible(
    rows: Seq<Seq<Value>>,
    left: Seq<Seq<Value>>,
    idx: Seq<int>,
    i: int,
    a: int,
    k: RelKind,
    nk: int,
    cutoff: i64,
    vt: Option<i64>,
    tt: i64,
    acc: Seq<Seq<Value>>,
)
    requires
        is_stamped(k),
        thinned(rows, left, idx),
        drops_superseded(rows, idx, k, nk, cutoff),
        cutoff <= tt,
        0 <= i <= rows.len(),
        0 <= a <= left.len(),
        forall|c: int| 0 <= c < a ==> #[trigger] idx[c] < i,
        forall|c: int| a <= c < idx.len() ==> #[trigger] idx[c] >= i,
    ensures
        visible_from(left, a, k, nk, vt, tt, acc) == visible_from(rows, i, k, nk, vt, tt, acc),
    decreases rows.len() - i,
{
    if i < rows.len() {
        if a < idx.len() && idx[a] == i {
            lemma_thinned_shown(rows, left, idx, a, k, nk, cutoff, vt, tt);
            let next = if shown(rows, i, k, nk, vt, tt) {
                acc.push(crate::temporal::displayed(rows[i], k, nk))
            } else {
                acc
            };
            assert forall|c: int| a + 1 <= c < idx.len() implies #[trigger] idx[c] >= i + 1 by {
                assert(idx[a] < idx[c]);
            }
            lemma_thinned_visible(
                rows,
                left,
                idx,
                i + 1,
                a + 1,
                k,
                nk,
                cutoff,
                vt,
                tt,
                next,
            );
        } else {
            assert(!idx.contains(i)) by {
                if idx.contains(i) {
                    let c = choose|c: int| 0 <= c < idx.len() && idx[c] == i;
                    if c > a {
                        assert(idx[a] < idx[c]);
                    }
                }
            }
            if believed(rows, i, k, nk, tt) {
                lemma_believed_kept(rows, idx, i, k, nk, cutoff, tt);
            }
            assert(!shown(rows, i, k, nk, vt, tt));
            assert forall|c: int| a <= c < idx.len() implies #[trigger] idx[c] >= i + 1 by {
                assert(idx[c] >= i);
                assert(idx.contains(idx[c]));
            }
            lemma_thinned_visible(rows, left, idx, i + 1, a, k, nk, cutoff, vt, tt, acc);
        }
    } else {
        if a < idx.len() {
            assert(idx[a] >= i);
        }
    }
}

/// Dropping rows that were superseded by the time of a cutoff changes no read
/// at or after the cutoff.
pub proof fn law_gc_keeps_reads(
    rows: Seq<Seq<Value>>,
    left: Seq<Seq<Value>>,
    idx: Seq<int>,
    k: RelKind,
    nk: int,
    cutoff: i64,
    vt: Option<i64>,
    tt: i64,
)
    requires
        is_stamped(k),
        thinned(rows, left, idx),
        drops_superseded(rows, idx, k, nk, cutoff),
        cutoff <= tt,
    ensures
        visible_from(left, 0, k, nk, vt, tt, Seq::empty()) == visible_from(
            rows,
            0,
            k,
            nk,
            vt,
            tt,
            Seq::empty(),
        ),
{
    lemma_thinned_visible(rows, left, idx, 0, 0, k, nk, cutoff, vt, tt, Seq::empty());
}

pub proof fn lemma_decoded_each(recs: Seq<RecordV>, i: int, acc: Seq<Seq<Value>>)
    requires
        0 <= i <= recs.len(),
        acc.len() == i,
    ensures
        decoded_from(recs, i, acc) matches Ok(rows) ==> rows.len() == recs.len() && (forall|j: int|
            0 <= j < i ==> rows[j] == acc[j]) && forall|j: int|
            i <= j < recs.len() ==> decode_row_of((#[trigger] recs[j]).blob) is Some && rows[j]
                == recs[j].key + decode_row_of(recs[j].blob)->0,
    decreases recs.len() - i,
{
    if i < recs.len() {
        if let Some(v) = decode_row_of(recs[i].blob) {
            lemma_decoded_each(recs, i + 1, acc.push(recs[i].key + v));
        }
    }
}

proof fn lemma_decoded_build(recs: Seq<RecordV>, rows: Seq<Seq<Value>>, i: int)
    requires
        0 <= i <= recs.len(),
        rows.len() == recs.len(),
        forall|j: int|
            0 <= j < recs.len() ==> decode_row_of((#[trigger] recs[j]).blob) is Some && rows[j]
                == recs[j].key + decode_row_of(recs[j].blob)->0,
    ensures
        decoded_from(recs, i, rows.take(i)) == Ok::<Seq<Seq<Value>>, Fault>(rows),
    decreases recs.len() - i,
{
    if i < recs.len() {
        assert(recs[i] == recs[i]);
        assert(rows.take(i).push(rows[i]) =~= rows.take(i + 1));
        lemma_decoded_build(recs, rows, i + 1);
    } else {
        assert(rows.take(i) =~= rows);
    }
}

/// The places from `i` on of the rows that were not superseded, after `acc`.
pub open spec fn kept_places(
    rows: Seq<Seq<Value>>,
    k: RelKind,
    nk: int,
    cutoff: i64,
    i: int,
    acc: Seq<int>,
) -> Seq<int>
    decreases rows.len() - i,
{
    if i < 0 || i >= rows.len() {
        acc
    } else if superseded(rows, i, k, nk, cutoff) {
        kept_places(rows, k, nk, cutoff, i + 1, acc)
    } else {
        kept_places(rows, k, nk, cutoff, i + 1, acc.push(i))
    }
}

proof fn lemma_kept_places(
    recs: Seq<RecordV>,
    rows: Seq<Seq<Value>>,
    k: RelKind,
    nk: int,
    cutoff: i64,
    i: int,
    left: Seq<RecordV>,
    acc: Seq<int>,
)
    requires
        0 <= i <= rows.len(),
        recs.len() == rows.len(),
        left.len() == acc.len(),
        forall|a: int|
            0 <= a < acc.len() ==> 0 <= #[trigger] acc[a] < i && left[a] == recs[acc[a]],
        forall|a: int, b: int| 0 <= a < b < acc.len() ==> #[trigger] acc[a] < #[trigger] acc[b],
        forall|j: int|
            0 <= j < i && !acc.contains(j) ==> #[trigger] superseded(rows, j, k, nk, cutoff),
    ensures
        ({
            let idx = kept_places(rows, k, nk, cutoff, i, acc);
            let kept = kept_from(recs, rows, k, nk, cutoff, i, left);
            &&& kept.len() == idx.len()
            &&& forall|a: int|
                0 <= a < idx.len() ==> 0 <= #[trigger] idx[a] < rows.len() && kept[a]
                    == recs[idx[a]]
            &&& forall|a: int, b: int|
                0 <= a < b < idx.len() ==> #[trigger] idx[a] < #[trigger] idx[b]
            &&& forall|j: int|
                0 <= j < rows.len() && !idx.contains(j) ==> #[trigger] superseded(
                    rows,
                    j,
                    k,
                    nk,
                    cutoff,
                )
        }),
    decreases rows.len() - i,
{
    if i < rows.len() {
        if superseded(rows, i, k, nk, cutoff) {
            lemma_kept_places(recs, rows, k, nk, cutoff, i + 1, left, acc);
        } else {
            let next = acc.push(i);
            assert forall|j: int| 0 <= j < i + 1 && !next.contains(j) implies #[trigger] superseded(
                rows,
                j,
                k,
                nk,
                cutoff,
            ) by {
                if j == i {
                    assert(next[acc.len() as int] == i);
                } else {
                    assert(!acc.contains(j)) by {
                        if acc.contains(j) {
                            let c = choose|c: int| 0 <= c < acc.len() && acc[c] == j;
                            assert(next[c] == j);
                        }
                    }
                }
            }
            lemma_kept_places(recs, rows, k, nk, cutoff, i + 1, left.push(recs[i]), next);
        }
    }
}

/// The collection of garbage keeps every read at or after its cutoff: what a
/// relation shows there is what it showed.
pub proof fn law_gc_operation_keeps_reads(
    rel: RelationV,
    rows: Seq<Seq<Value>>,
    cutoff: i64,
    floor: Option<i64>,
    vt: Option<i64>,
    at: i64,
    as_of: Option<i64>,
)
    requires
        is_stamped(kind_of(rel.keys)),
        decoded_from(rel.recs, 0, Seq::empty()) == Ok::<Seq<Seq<Value>>, Fault>(rows),
        floor == rel.floor || floor == raised(rel.floor, cutoff),
        cutoff <= at,
        rel_rows(rel, vt, Some(at), as_of) is Ok,
    ensures
        ({
            let kept = kept_from(
                rel.recs,
                rows,
                kind_of(rel.keys),
                rel.keys.len() as int,
                cutoff,
                0,
                Seq::empty(),
            );
            rel_rows(RelationV { recs: kept, floor, ..rel }, vt, Some(at), as_of) == rel_rows(
                rel,
                vt,
                Some(at),
                as_of,
            )
        }),
{
    let k = kind_of(rel.keys);
    let nk = rel.keys.len() as int;
    let kept = kept_from(rel.recs, rows, k, nk, cutoff, 0, Seq::empty());
    let idx = kept_places(rows, k, nk, cutoff, 0, Seq::empty());
    lemma_decoded_each(rel.recs, 0, Seq::empty());
    lemma_kept_places(rel.recs, rows, k, nk, cutoff, 0, Seq::empty(), Seq::empty());
    let left = Seq::new(idx.len(), |a: int| rows[idx[a]]);
    assert forall|j: int| 0 <= j < kept.len() implies decode_row_of((#[trigger] kept[j]).blob) is Some
        && left[j] == kept[j].key + decode_row_of(kept[j].blob)->0 by {
        assert(kept[j] == rel.recs[idx[j]]);
    }
    lemma_decoded_build(kept, left, 0);
    assert(left.take(0) =~= Seq::<Seq<Value>>::empty());
    assert forall|i: int| 0 <= i < rows.len() && !idx.contains(i) implies !(#[trigger] believed(
        rows,
        i,
        k,
        nk,
        cutoff,
    )) && tt_of(rows[i], k, nk) <= cutoff by {
        assert(superseded(rows, i, k, nk, cutoff));
    }
    law_gc_keeps_reads(rows, left, idx, k, nk, cutoff, vt, at);
}

/// The floor of a relation never sinks, and a collection of garbage that drops
/// nothing leaves it where it is.
pub proof fn law_floor_never_sinks(
    store: StoreV,
    name: Seq<char>,
    e: ExprV,
    now: i64,
    ro: bool,
    done: DoneV,
)
    requires
        gc_done(store, name, e, now, ro) == Ok::<DoneV, Fault>(done),
    ensures
        ({
            let p = rel_place(store.rels, name);
            let old = store.rels[p];
            let new = done.store.rels[p];
            &&& p < store.rels.len()
            &&& old.floor matches Some(f) ==> new.floor matches Some(g) && g >= f
            &&& new.recs.len() == old.recs.len() ==> new.floor == old.floor
        }),
{
    lemma_rel_from(store.rels, name, 0);
}

/// Of an assertion and a retraction of one fact from one instant, on the axis of
/// valid time alone, the one that stands first decides, and the other is shown
/// at no instant.
pub proof fn law_first_shadows_second(
    rows: Seq<Seq<Value>>,
    i: int,
    j: int,
    nk: int,
    vt: i64,
)
    requires
        0 <= i < j < rows.len(),
        rivals(rows[i], rows[j], RelKind::Valid, nk),
    ensures
        !shown(rows, j, RelKind::Valid, nk, Some(vt), LATEST),
{
    assert(supersedes(rows, i, j, RelKind::Valid, nk, LATEST));
}

/// At most one row decides about a fact at an instant, so that a read at an
/// instant shows at most one row of it.
pub proof fn law_one_row_decides(
    rows: Seq<Seq<Value>>,
    i: int,
    j: int,
    k: RelKind,
    nk: int,
    vt: i64,
    tt: i64,
)
    requires
        0 <= i < rows.len(),
        0 <= j < rows.len(),
        id_of(rows[i], k, nk) == id_of(rows[j], k, nk),
        decides(rows, i, k, nk, vt, tt),
        decides(rows, j, k, nk, vt, tt),
    ensures
        i == j,
{
    if vt_of(rows[i], k, nk) < vt_of(rows[j], k, nk) {
        assert(overrides(rows, j, i, k, nk, vt, tt));
    } else if vt_of(rows[j], k, nk) < vt_of(rows[i], k, nk) {
        assert(overrides(rows, i, j, k, nk, vt, tt));
    } else if i != j {
        assert(supersedes(rows, i, j, k, nk, tt) || supersedes(rows, j, i, k, nk, tt));
    }
}

/// Where a fact has a row by an instant and a transaction, some row decides.
pub proof fn law_some_row_decides(
    rows: Seq<Seq<Value>>,
    i: int,
    k: RelKind,
    nk: int,
    vt: i64,
    tt: i64,
) -> (d: int)
    requires
        0 <= i < rows.len(),
        vt_of(rows[i], k, nk) <= vt,
        tt_of(rows[i], k, nk) <= tt,
    ensures
        0 <= d < rows.len(),
        id_of(rows[d], k, nk) == id_of(rows[i], k, nk),
        decides(rows, d, k, nk, vt, tt),
{
    let b = if believed(rows, i, k, nk, tt) {
        i
    } else {
        let m = choose|m: int| 0 <= m < rows.len() && supersedes(rows, m, i, k, nk, tt);
        lemma_believed_above(rows, m, i, k, nk, tt)
    };
    lemma_decider(rows, b, k, nk, vt, tt)
}

proof fn lemma_decider(rows: Seq<Seq<Value>>, b: int, k: RelKind, nk: int, vt: i64, tt: i64) -> (d:
    int)
    requires
        0 <= b < rows.len(),
        believed(rows, b, k, nk, tt),
        vt_of(rows[b], k, nk) <= vt,
    ensures
        0 <= d < rows.len(),
        id_of(rows[d], k, nk) == id_of(rows[b], k, nk),
        decides(rows, d, k, nk, vt, tt),
    decreases vt - vt_of(rows[b], k, nk),
{
    if decides(rows, b, k, nk, vt, tt) {
        b
    } else {
        let m = choose|m: int| 0 <= m < rows.len() && overrides(rows, m, b, k, nk, vt, tt);
        lemma_decider(rows, m, k, nk, vt, tt)
    }
}

/// Whether a row is shown as it is seen by a read at these points, by a row
/// before place `i`.
pub open spec fn shows(
    rows: Seq<Seq<Value>>,
    k: RelKind,
    nk: int,
    vt: Option<i64>,
    tt: i64,
    i: int,
    x: Seq<Value>,
) -> bool {
    exists|j: int|
        0 <= j < i && #[trigger] shown(rows, j, k, nk, vt, tt) && displayed(rows[j], k, nk) == x
}

proof fn lemma_visible_are_shown(
    rows: Seq<Seq<Value>>,
    i: int,
    k: RelKind,
    nk: int,
    vt: Option<i64>,
    tt: i64,
    acc: Seq<Seq<Value>>,
)
    requires
        0 <= i <= rows.len(),
        forall|x: Seq<Value>| #[trigger] acc.contains(x) <==> shows(rows, k, nk, vt, tt, i, x),
    ensures
        forall|x: Seq<Value>| #[trigger]
            visible_from(rows, i, k, nk, vt, tt, acc).contains(x) <==> shows(
                rows,
                k,
                nk,
                vt,
                tt,
                rows.len() as int,
                x,
            ),
    decreases rows.len() - i,
{
    if i < rows.len() {
        let row = displayed(rows[i], k, nk);
        let next = if shown(rows, i, k, nk, vt, tt) {
            acc.push(row)
        } else {
            acc
        };
        assert forall|x: Seq<Value>| #[trigger] next.contains(x) <==> shows(
            rows,
            k,
            nk,
            vt,
            tt,
            i + 1,
            x,
        ) by {
            if next.contains(x) {
                let m = choose|m: int| 0 <= m < next.len() && next[m] == x;
                if m < acc.len() {
                    assert(acc[m] == x);
                    assert(acc.contains(x));
                    let j = choose|j: int|
                        0 <= j < i && #[trigger] shown(rows, j, k, nk, vt, tt) && displayed(
                            rows[j],
                            k,
                            nk,
                        ) == x;
                    assert(shown(rows, j, k, nk, vt, tt));
                }
            }
            if shows(rows, k, nk, vt, tt, i + 1, x) {
                let j = choose|j: int|
                    0 <= j < i + 1 && #[trigger] shown(rows, j, k, nk, vt, tt) && displayed(
                        rows[j],
                        k,
                        nk,
                    ) == x;
                if j < i {
                    assert(shows(rows, k, nk, vt, tt, i, x));
                    assert(acc.contains(x));
                    let m = choose|m: int| 0 <= m < acc.len() && acc[m] == x;
                    assert(next[m] == x);
                } else {
                    assert(next[acc.len() as int] == x);
                }
            }
        }
        lemma_visible_are_shown(rows, i + 1, k, nk, vt, tt, next);
        assert(visible_from(rows, i, k, nk, vt, tt, acc) == visible_from(
            rows,
            i + 1,
            k,
            nk,
            vt,
            tt,
            next,
        ));
    }
}

/// A read gives the rows that are to be shown at its points, and no others.
pub proof fn law_read_gives_what_is_shown(
    rows: Seq<Seq<Value>>,
    k: RelKind,
    nk: int,
    vt: Option<i64>,
    tt: i64,
)
    ensures
        forall|x: Seq<Value>| #[trigger]
            visible_from(rows, 0, k, nk, vt, tt, Seq::empty()).contains(x) <==> shows(
                rows,
                k,
                nk,
                vt,
                tt,
                rows.len() as int,
                x,
            ),
{
    lemma_visible_are_shown(rows, 0, k, nk, vt, tt, Seq::empty());
}

} // verus!
