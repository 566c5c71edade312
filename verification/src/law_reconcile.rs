//! A declaration of beliefs brings what is believed to what was declared.
use vstd::prelude::*;

use crate::codec::{decode_row_of, encode_row_of, law_row_round_trip};
use crate::error::Fault;
use crate::expr::Ctx;
use crate::law_time::{fits, is_stamped, lemma_decoded_insert, with_stamped};
use crate::schema::{RelKind, kind_of};
use crate::store::{
    PendingV, RecordV, RelationV, decoded_from, lemma_rec_slot, rec_slot, rel_from, rel_place,
};
use crate::temporal::{LATEST, believed, flag_of, id_of, moved_to, rivals, supersedes, tt_of, vt_of};
use crate::value::Value;
use crate::write::{fills_from, salted};
use crate::write_tt::{
    already, asserts_in, belief_from, declared_from, fact_in, first_cols, pending_from, point_in,
    reconciled_of, rest_of, retracted_from, retraction_key, same_point, stamped_from, stamped_key,
    wanted_of, wants_from,
};

verus! {

/// A fact and the instant from which a row speaks of it.
pub struct Point {
    pub fact: Seq<Value>,
    pub vt: i64,
}

/// The point that a row speaks of.
pub open spec fn row_point(row: Seq<Value>, k: RelKind, nk: int) -> Point {
    Point { fact: id_of(row, k, nk), vt: vt_of(row, k, nk) }
}

/// The point that a pending write speaks of.
pub open spec fn entry_point(w: PendingV, k: RelKind) -> Point {
    if k == RelKind::Bi {
        Point { fact: fact_in(w.key), vt: point_in(w.key) }
    } else {
        Point { fact: w.key, vt: 0 }
    }
}

/// Whether a pending write asserts.
pub open spec fn entry_flag(w: PendingV, k: RelKind) -> bool {
    if k == RelKind::Bi {
        asserts_in(w.key)
    } else {
        w.flag
    }
}

/// Whether values are believed at present at a point.
pub open spec fn holds(
    rows: Seq<Seq<Value>>,
    k: RelKind,
    nk: int,
    at: Point,
    vals: Seq<Value>,
) -> bool {
    exists|i: int|
    0 <= i < rows.len() && #[trigger] believed(rows, i, k, nk, LATEST) && flag_of(
        rows[i],
        k,
        nk,
    ) && row_point(rows[i], k, nk) == at && rest_of(rows[i], nk) == vals
}

/// Whether values were declared at a point.
pub open spec fn declared(want: Seq<PendingV>, k: RelKind, at: Point, vals: Seq<Value>) -> bool {
    exists|j: int|
    0 <= j < want.len() && entry_point(#[trigger] want[j], k) == at && want[j].vals == vals
}

/// The row that a pending write becomes.
spec fn new_row(w: PendingV, k: RelKind, tt: i64) -> Seq<Value> {
    stamped_key(w, k, tt) + w.vals
}

proof fn lemma_new_row(w: PendingV, k: RelKind, nk: int, tt: i64)
    requires
        is_stamped(k),
        k == RelKind::Bi ==> nk >= 2,
        nk >= 1,
        w.key.len() == nk - 1,
    ensures
        row_point(new_row(w, k, tt), k, nk) == entry_point(w, k),
        flag_of(new_row(w, k, tt), k, nk) == entry_flag(w, k),
        tt_of(new_row(w, k, tt), k, nk) == tt,
        rest_of(new_row(w, k, tt), nk) == w.vals,
{
    let row = new_row(w, k, tt);
    assert(rest_of(row, nk) =~= w.vals);
    if k == RelKind::Bi {
        assert(row[nk - 2] == w.key.last());
        assert(row.take(nk - 2) =~= w.key.drop_last());
    } else {
        assert(row.take(nk - 1) =~= w.key);
    }
}

/// A row that is later than all others of its point is believed in their place,
/// and nothing else changes.
proof fn lemma_latest_row(
    rows: Seq<Seq<Value>>,
    p: int,
    row: Seq<Value>,
    k: RelKind,
    nk: int,
)
    requires
        0 <= p <= rows.len(),
        forall|i: int|
        0 <= i < rows.len() && rivals(#[trigger] rows[i], row, k, nk) ==> tt_of(rows[i], k, nk)
        < tt_of(row, k, nk),
    ensures
        believed(rows.insert(p, row), p, k, nk, LATEST),
        forall|i: int|
        0 <= i < rows.len() ==> (#[trigger] believed(
            rows.insert(p, row),
            moved_to(i, p),
            k,
            nk,
            LATEST,
        )) == (believed(rows, i, k, nk, LATEST) && !rivals(rows[i], row, k, nk)),
{
    let more = rows.insert(p, row);
    assert(more[p] == row);
    assert forall|j: int| 0 <= j < more.len() implies !supersedes(
        more,
        j,
        p,
        k,
        nk,
        LATEST,
    ) by {
        if j != p {
            let x = if j < p { j } else { j - 1 };
            assert(more[j] == rows[x]);
            assert(rivals(rows[x], row, k, nk) ==> tt_of(rows[x], k, nk) < tt_of(row, k, nk));
        }
    }
    assert forall|i: int| 0 <= i < rows.len() implies (#[trigger] believed(
        more,
        moved_to(i, p),
        k,
        nk,
        LATEST,
    )) == (believed(rows, i, k, nk, LATEST) && !rivals(rows[i], row, k, nk)) by {
        let m = moved_to(i, p);
        assert(more[m] == rows[i]);
        if rivals(rows[i], row, k, nk) {
            assert(supersedes(more, p, m, k, nk, LATEST));
        } else {
            if believed(rows, i, k, nk, LATEST) {
                assert forall|j: int| 0 <= j < more.len() implies !supersedes(
                    more,
                    j,
                    m,
                    k,
                    nk,
                    LATEST,
                ) by {
                    if j != p {
                        let x = if j < p { j } else { j - 1 };
                        assert(more[j] == rows[x]);
                        assert(!supersedes(rows, x, i, k, nk, LATEST));
                    }
                }
            }
            if believed(more, m, k, nk, LATEST) {
                assert forall|x: int| 0 <= x < rows.len() implies !supersedes(
                    rows,
                    x,
                    i,
                    k,
                    nk,
                    LATEST,
                ) by {
                    assert(more[moved_to(x, p)] == rows[x]);
                    assert(!supersedes(more, moved_to(x, p), m, k, nk, LATEST));
                }
            }
        }
    }
}

/// What holds once a write got its time: at its point what it says, elsewhere
/// what held.
proof fn lemma_holds_after(
    rows: Seq<Seq<Value>>,
    p: int,
    w: PendingV,
    k: RelKind,
    nk: int,
    tt: i64,
    at: Point,
    vals: Seq<Value>,
)
    requires
        is_stamped(k),
        k == RelKind::Bi ==> nk >= 2,
        nk >= 1,
        w.key.len() == nk - 1,
        0 <= p <= rows.len(),
        forall|i: int|
        0 <= i < rows.len() && row_point(#[trigger] rows[i], k, nk) == entry_point(w, k)
        ==> tt_of(rows[i], k, nk) < tt,
    ensures
        holds(rows.insert(p, new_row(w, k, tt)), k, nk, at, vals) == (if at == entry_point(w, k) {
            entry_flag(w, k) && vals == w.vals
            } else {
                holds(rows, k, nk, at, vals)
        }),
{
    let row = new_row(w, k, tt);
    let more = rows.insert(p, row);
    lemma_new_row(w, k, nk, tt);
    assert forall|i: int|
    0 <= i < rows.len() && rivals(#[trigger] rows[i], row, k, nk) implies tt_of(rows[i], k, nk)
    < tt_of(row, k, nk) by {
        assert(row_point(rows[i], k, nk) == row_point(row, k, nk));
    }
    lemma_latest_row(rows, p, row, k, nk);
    assert(more[p] == row);
    if holds(more, k, nk, at, vals) {
        let m = choose|m: int|
        0 <= m < more.len() && #[trigger] believed(more, m, k, nk, LATEST) && flag_of(
            more[m],
            k,
            nk,
        ) && row_point(more[m], k, nk) == at && rest_of(more[m], nk) == vals;
        if m != p {
            let i = if m < p { m } else { m - 1 };
            assert(moved_to(i, p) == m);
            assert(more[m] == rows[i]);
            assert(believed(rows, i, k, nk, LATEST) && !rivals(rows[i], row, k, nk));
            assert(at != entry_point(w, k));
            assert(holds(rows, k, nk, at, vals));
        }
    }
    if at == entry_point(w, k) && entry_flag(w, k) && vals == w.vals {
        assert(believed(more, p, k, nk, LATEST));
        assert(holds(more, k, nk, at, vals));
    }
    if at != entry_point(w, k) && holds(rows, k, nk, at, vals) {
        let i = choose|i: int|
        0 <= i < rows.len() && #[trigger] believed(rows, i, k, nk, LATEST) && flag_of(
            rows[i],
            k,
            nk,
        ) && row_point(rows[i], k, nk) == at && rest_of(rows[i], nk) == vals;
        let m = moved_to(i, p);
        assert(more[m] == rows[i]);
        assert(!rivals(rows[i], row, k, nk));
        assert(believed(more, m, k, nk, LATEST));
        assert(holds(more, k, nk, at, vals));
    }
}

/// Whether no two pending writes speak of one point.
pub open spec fn points_differ(ps: Seq<PendingV>, k: RelKind) -> bool {
    forall|i: int, j: int|
    0 <= i < j < ps.len() ==> entry_point(#[trigger] ps[i], k) != entry_point(
        #[trigger] ps[j],
        k,
    )
}

/// A relation after the pending writes from place `i` on got their time.
pub open spec fn all_stamped(rel: RelationV, ps: Seq<PendingV>, tt: i64, i: int) -> RelationV
    decreases ps.len() - i,
{
    if i < 0 || i >= ps.len() {
        rel
    } else {
        all_stamped(with_stamped(rel, ps[i], tt), ps, tt, i + 1)
    }
}

/// What is believed at a point once pending writes from place `i` on got their
/// time.
pub open spec fn believed_after(
    rows: Seq<Seq<Value>>,
    ps: Seq<PendingV>,
    k: RelKind,
    nk: int,
    i: int,
    at: Point,
    vals: Seq<Value>,
) -> bool {
    if exists|j: int| i <= j < ps.len() && entry_point(#[trigger] ps[j], k) == at {
        exists|j: int|
        i <= j < ps.len() && entry_point(#[trigger] ps[j], k) == at && entry_flag(ps[j], k)
        && ps[j].vals == vals
    } else {
        holds(rows, k, nk, at, vals)
    }
}

/// Once writes to a relation got a time that is later than what is recorded at
/// their points, what is believed at each of those points is what its write
/// says, and what is believed at every other point stays.
pub proof fn law_writes_are_believed(
    rel: RelationV,
    rows: Seq<Seq<Value>>,
    ps: Seq<PendingV>,
    tt: i64,
    i: int,
) -> (out: Seq<Seq<Value>>)
    requires
        is_stamped(kind_of(rel.keys)),
        0 <= i <= ps.len(),
        decoded_from(rel.recs, 0, Seq::empty()) == Ok::<Seq<Seq<Value>>, Fault>(rows),
        forall|j: int| 0 <= j < ps.len() ==> fits(rel, #[trigger] ps[j]),
        points_differ(ps, kind_of(rel.keys)),
        forall|r: int, j: int|
        0 <= r < rows.len() && i <= j < ps.len() && row_point(
#[trigger] rows[r],
            kind_of(rel.keys),
            rel.keys.len() as int,
        ) == entry_point(#[trigger] ps[j], kind_of(rel.keys)) ==> tt_of(
            rows[r],
            kind_of(rel.keys),
            rel.keys.len() as int,
        ) < tt,
    ensures
        decoded_from(all_stamped(rel, ps, tt, i).recs, 0, Seq::empty()) == Ok::<
        Seq<Seq<Value>>,
        Fault,
        >(out),
        forall|at: Point, vals: Seq<Value>| #[trigger]
        holds(out, kind_of(rel.keys), rel.keys.len() as int, at, vals) == believed_after(
            rows,
            ps,
            kind_of(rel.keys),
            rel.keys.len() as int,
            i,
            at,
            vals,
        ),
    decreases ps.len() - i,
{
    let k = kind_of(rel.keys);
    let nk = rel.keys.len() as int;
    if i == ps.len() {
        rows
    } else {
        let w = ps[i];
        let key = stamped_key(w, k, tt);
        let rec = RecordV { key, blob: encode_row_of(w.vals) };
        let s = rec_slot(rel.recs, key);
        assert(fits(rel, w));
        law_row_round_trip(w.vals);
        lemma_rec_slot(rel.recs, key, rel.recs.len() as int);
        crate::law_time::lemma_decoded_each(rel.recs, 0, Seq::empty());
        lemma_new_row(w, k, nk, tt);
        let row = new_row(w, k, tt);
        if s > 0 && rel.recs[s - 1].key == key {
            let old = rows[s - 1];
            let v = decode_row_of(rel.recs[s - 1].blob)->0;
            assert(old == key + v);
            let twin = PendingV { vals: v, ..w };
            lemma_new_row(twin, k, nk, tt);
            assert(new_row(twin, k, tt) == old);
            assert(entry_point(twin, k) == entry_point(ps[i], k));
            assert(tt_of(old, k, nk) < tt);
        }
        lemma_decoded_insert(rel.recs, s, rec, w.vals, 0, Seq::empty());
        let more = rows.insert(s, row);
        let next = with_stamped(rel, w, tt);
        assert(decoded_from(next.recs, 0, Seq::empty()) == Ok::<Seq<Seq<Value>>, Fault>(more));
        assert forall|r: int, j: int|
        0 <= r < more.len() && i + 1 <= j < ps.len() && row_point(
            #[trigger] more[r],
            k,
            nk,
        ) == entry_point(#[trigger] ps[j], k) implies tt_of(more[r], k, nk) < tt by {
            if r == s {
                assert(entry_point(ps[i], k) != entry_point(ps[j], k));
            } else {
                let x = if r < s { r } else { r - 1 };
                assert(more[r] == rows[x]);
            }
        }
        assert forall|j: int| 0 <= j < ps.len() implies fits(next, #[trigger] ps[j]) by {
            assert(fits(rel, ps[j]));
        }
        let out = law_writes_are_believed(next, more, ps, tt, i + 1);
        assert forall|at: Point, vals: Seq<Value>| #[trigger]
        holds(out, k, nk, at, vals) == believed_after(rows, ps, k, nk, i, at, vals) by {
            assert forall|r: int|
            0 <= r < rows.len() && row_point(#[trigger] rows[r], k, nk) == entry_point(
                w,
                k,
            ) implies tt_of(rows[r], k, nk) < tt by {
                assert(row_point(rows[r], k, nk) == entry_point(ps[i], k));
            }
            lemma_holds_after(rows, s, w, k, nk, tt, at, vals);
            assert(holds(out, k, nk, at, vals) == believed_after(
                more,
                ps,
                k,
                nk,
                i + 1,
                at,
                vals,
            ));
            if exists|j: int| i + 1 <= j < ps.len() && entry_point(#[trigger] ps[j], k) == at {
                let j = choose|j: int|
                i + 1 <= j < ps.len() && entry_point(#[trigger] ps[j], k) == at;
                assert(entry_point(ps[i], k) != entry_point(ps[j], k));
            } else if at == entry_point(w, k) {
                assert(entry_point(ps[i], k) == at);
            }
        }
        out
    }
}

/// Whether a belief at a place is held though it was not declared.
spec fn unwanted(rel: RelationV, rows: Seq<Seq<Value>>, want: Seq<PendingV>, r: int) -> bool {
    let k = kind_of(rel.keys);
    let nk = rel.keys.len() as int;
    believed(rows, r, k, nk, LATEST) && flag_of(rows[r], k, nk) && pending_from(
        want,
        rel.name,
        retraction_key(rows[r], k, nk),
        k,
        0,
    ) >= want.len()
}

/// The write that takes back the belief of a row.
spec fn retraction(rel: RelationV, row: Seq<Value>) -> PendingV {
    let k = kind_of(rel.keys);
    let nk = rel.keys.len() as int;
    PendingV { rel: rel.name, key: retraction_key(row, k, nk), flag: false, vals: rest_of(row, nk) }
}

proof fn lemma_retraction(rel: RelationV, row: Seq<Value>)
    requires
        is_stamped(kind_of(rel.keys)),
    ensures
        entry_point(retraction(rel, row), kind_of(rel.keys)) == row_point(
            row,
            kind_of(rel.keys),
            rel.keys.len() as int,
        ),
        !entry_flag(retraction(rel, row), kind_of(rel.keys)),
        kind_of(rel.keys) == RelKind::Bi ==> retraction(rel, row).key.len() > 0,
{
    let k = kind_of(rel.keys);
    let nk = rel.keys.len() as int;
    let key = retraction_key(row, k, nk);
    if k == RelKind::Bi {
        assert(key.drop_last() =~= id_of(row, k, nk));
    }
}

/// Whether all writes are beliefs of one relation.
spec fn all_beliefs(ps: Seq<PendingV>, name: Seq<char>, k: RelKind) -> bool {
    forall|j: int|
    0 <= j < ps.len() ==> (#[trigger] ps[j]).rel == name && ps[j].flag && (k == RelKind::Bi
        ==> asserts_in(ps[j].key))
}

pub proof fn lemma_pending_found(
    ps: Seq<PendingV>,
    name: Seq<char>,
    key: Seq<Value>,
    k: RelKind,
    i: int,
)
    requires
        0 <= i <= ps.len(),
    ensures
        i <= pending_from(ps, name, key, k, i) <= ps.len(),
        pending_from(ps, name, key, k, i) < ps.len() ==> ps[pending_from(ps, name, key, k, i)].rel
        == name && same_point(ps[pending_from(ps, name, key, k, i)].key, key, k),
        forall|j: int|
        i <= j < pending_from(ps, name, key, k, i) && (#[trigger] ps[j]).rel == name
        ==> !same_point(ps[j].key, key, k),
    decreases ps.len() - i,
{
    if i < ps.len() {
        lemma_pending_found(ps, name, key, k, i + 1);
    }
}

proof fn lemma_wants(
    rel: RelationV,
    gs: Seq<Option<usize>>,
    given: Seq<Seq<Value>>,
    ctx: Ctx,
    i: int,
    acc: Seq<PendingV>,
)
    requires
        is_stamped(kind_of(rel.keys)),
        0 <= i,
        all_beliefs(acc, rel.name, kind_of(rel.keys)),
        points_differ(acc, kind_of(rel.keys)),
        wants_from(rel, gs, given, ctx, i, acc) is Ok,
    ensures
        all_beliefs(wants_from(rel, gs, given, ctx, i, acc)->Ok_0, rel.name, kind_of(rel.keys)),
        points_differ(wants_from(rel, gs, given, ctx, i, acc)->Ok_0, kind_of(rel.keys)),
    decreases given.len() - i,
{
    let k = kind_of(rel.keys);
    let nk = rel.keys.len() as int;
    if i < given.len() {
        let c = salted(ctx, i);
        let next = wanted_of(rel, gs, given[i], c, acc)->Ok_0;
        let key = fills_from(
            first_cols(rel.keys, nk - 1),
            gs,
            0,
            given[i],
            c,
            0,
            Seq::empty(),
        )->Ok_0;
        lemma_pending_found(acc, rel.name, key, k, 0);
        if pending_from(acc, rel.name, key, k, 0) >= acc.len() {
            assert forall|a: int, b: int| 0 <= a < b < next.len() implies entry_point(
                #[trigger] next[a],
                k,
            ) != entry_point(#[trigger] next[b], k) by {
                assert(next[a] == acc[a]);
                if b < acc.len() {
                    assert(next[b] == acc[b]);
                } else {
                    assert(acc[a].rel == rel.name);
                    assert(!same_point(acc[a].key, key, k));
                }
            }
        }
        lemma_wants(rel, gs, given, ctx, i + 1, next);
    }
}

/// Whether a write is a wanted belief before place `i` that is not held.
spec fn declares_one(
    p: PendingV,
    rel: RelationV,
    rows: Seq<Seq<Value>>,
    want: Seq<PendingV>,
    i: int,
) -> bool {
    exists|j: int| 0 <= j < i && p == #[trigger] want[j] && !already(rel, rows, want[j])
}

/// Whether writes are the wanted beliefs before place `i` that are not held.
spec fn declares(
    ps: Seq<PendingV>,
    rel: RelationV,
    rows: Seq<Seq<Value>>,
    want: Seq<PendingV>,
    i: int,
) -> bool {
    &&& forall|x: int| 0 <= x < ps.len() ==> declares_one(#[trigger] ps[x], rel, rows, want, i)
    &&& forall|j: int|
    0 <= j < i && !already(rel, rows, #[trigger] want[j]) ==> ps.contains(want[j])
}

proof fn lemma_declared(
    rel: RelationV,
    rows: Seq<Seq<Value>>,
    want: Seq<PendingV>,
    i: int,
    acc: Seq<PendingV>,
)
    requires
        0 <= i <= want.len(),
        points_differ(want, kind_of(rel.keys)),
        declares(acc, rel, rows, want, i),
        points_differ(acc, kind_of(rel.keys)),
    ensures
        declares(declared_from(rel, rows, want, i, acc), rel, rows, want, want.len() as int),
        points_differ(declared_from(rel, rows, want, i, acc), kind_of(rel.keys)),
    decreases want.len() - i,
{
    let k = kind_of(rel.keys);
    if i < want.len() {
        let held = already(rel, rows, want[i]);
        let next = if held {
            acc
        } else {
            acc.push(want[i])
        };
        assert forall|x: int| 0 <= x < next.len() implies declares_one(
            #[trigger] next[x],
            rel,
            rows,
            want,
            i + 1,
        ) by {
            if x < acc.len() {
                assert(declares_one(acc[x], rel, rows, want, i));
                let j = choose|j: int|
                0 <= j < i && acc[x] == #[trigger] want[j] && !already(rel, rows, want[j]);
                assert(next[x] == want[j]);
            } else {
                assert(next[x] == want[i]);
            }
        }
        assert forall|j: int|
        0 <= j < i + 1 && !already(rel, rows, #[trigger] want[j]) implies next.contains(
            want[j],
        ) by {
            if j < i {
                let x = acc.index_of(want[j]);
                assert(next[x] == want[j]);
            } else {
                assert(!held);
                assert(next[acc.len() as int] == want[j]);
            }
        }
        assert forall|a: int, b: int| 0 <= a < b < next.len() implies entry_point(
            #[trigger] next[a],
            k,
        ) != entry_point(#[trigger] next[b], k) by {
            assert(next[a] == acc[a]);
            assert(declares_one(acc[a], rel, rows, want, i));
            if b < acc.len() {
                assert(next[b] == acc[b]);
            }
        }
        lemma_declared(rel, rows, want, i + 1, next);
    }
}

/// Whether a write takes back the unwanted belief of a row before place `i`.
spec fn takes_back(
    p: PendingV,
    rel: RelationV,
    rows: Seq<Seq<Value>>,
    want: Seq<PendingV>,
    i: int,
) -> bool {
    exists|r: int|
    0 <= r < i && p == retraction(rel, #[trigger] rows[r]) && unwanted(rel, rows, want, r)
}

/// Whether writes are some declarations and the retractions of the unwanted
/// beliefs before place `i`.
spec fn settles(
    ps: Seq<PendingV>,
    rel: RelationV,
    rows: Seq<Seq<Value>>,
    want: Seq<PendingV>,
    first: Seq<PendingV>,
    i: int,
) -> bool {
    &&& forall|x: int|
    0 <= x < ps.len() ==> first.contains(#[trigger] ps[x]) || takes_back(
        ps[x],
        rel,
        rows,
        want,
        i,
    )
    &&& forall|x: int| 0 <= x < first.len() ==> ps.contains(#[trigger] first[x])
    &&& forall|r: int|
    0 <= r < i && #[trigger] unwanted(rel, rows, want, r) ==> ps.contains(
        retraction(rel, rows[r]),
    )
}

proof fn lemma_believed_once(rows: Seq<Seq<Value>>, a: int, b: int, k: RelKind, nk: int)
    requires
        0 <= a < rows.len(),
        0 <= b < rows.len(),
        believed(rows, a, k, nk, LATEST),
        believed(rows, b, k, nk, LATEST),
        row_point(rows[a], k, nk) == row_point(rows[b], k, nk),
    ensures
        a == b,
{
    if a != b {
        assert(supersedes(rows, a, b, k, nk, LATEST) || supersedes(rows, b, a, k, nk, LATEST));
    }
}

proof fn lemma_not_wanted(
    rel: RelationV,
    rows: Seq<Seq<Value>>,
    want: Seq<PendingV>,
    r: int,
    j: int,
)
    requires
        is_stamped(kind_of(rel.keys)),
        all_beliefs(want, rel.name, kind_of(rel.keys)),
        unwanted(rel, rows, want, r),
        0 <= j < want.len(),
    ensures
        entry_point(want[j], kind_of(rel.keys)) != row_point(
            rows[r],
            kind_of(rel.keys),
            rel.keys.len() as int,
        ),
{
    let k = kind_of(rel.keys);
    let nk = rel.keys.len() as int;
    lemma_pending_found(want, rel.name, retraction_key(rows[r], k, nk), k, 0);
    lemma_retraction(rel, rows[r]);
    assert(want[j].rel == rel.name);
    assert(!same_point(want[j].key, retraction_key(rows[r], k, nk), k));
}

proof fn lemma_retracted(
    rel: RelationV,
    rows: Seq<Seq<Value>>,
    want: Seq<PendingV>,
    first: Seq<PendingV>,
    i: int,
    acc: Seq<PendingV>,
)
    requires
        is_stamped(kind_of(rel.keys)),
        0 <= i <= rows.len(),
        all_beliefs(want, rel.name, kind_of(rel.keys)),
        declares(first, rel, rows, want, want.len() as int),
        settles(acc, rel, rows, want, first, i),
        points_differ(acc, kind_of(rel.keys)),
    ensures
        settles(
            retracted_from(rel, rows, want, i, acc),
            rel,
            rows,
            want,
            first,
            rows.len() as int,
        ),
        points_differ(retracted_from(rel, rows, want, i, acc), kind_of(rel.keys)),
    decreases rows.len() - i,
{
    let k = kind_of(rel.keys);
    let nk = rel.keys.len() as int;
    if i < rows.len() {
        if unwanted(rel, rows, want, i) {
            let p = retraction(rel, rows[i]);
            let next = acc.push(p);
            assert forall|x: int| 0 <= x < next.len() implies first.contains(#[trigger] next[x])
            || takes_back(next[x], rel, rows, want, i + 1) by {
                if x < acc.len() {
                    assert(next[x] == acc[x]);
                    if !first.contains(acc[x]) {
                        let r = choose|r: int|
                        0 <= r < i && acc[x] == retraction(rel, #[trigger] rows[r])
                        && unwanted(rel, rows, want, r);
                        assert(next[x] == retraction(rel, rows[r]));
                    }
                } else {
                    assert(next[x] == retraction(rel, rows[i]));
                }
            }
            assert forall|x: int| 0 <= x < first.len() implies next.contains(#[trigger] first[x])
            by {
                let y = acc.index_of(first[x]);
                assert(next[y] == first[x]);
            }
            assert forall|r: int|
            0 <= r < i + 1 && #[trigger] unwanted(rel, rows, want, r) implies next.contains(
                retraction(rel, rows[r]),
            ) by {
                if r < i {
                    let y = acc.index_of(retraction(rel, rows[r]));
                    assert(next[y] == retraction(rel, rows[r]));
                } else {
                    assert(next[acc.len() as int] == p);
                }
            }
            assert forall|a: int, b: int| 0 <= a < b < next.len() implies entry_point(
                #[trigger] next[a],
                k,
            ) != entry_point(#[trigger] next[b], k) by {
                assert(next[a] == acc[a]);
                if b < acc.len() {
                    assert(next[b] == acc[b]);
                } else {
                    lemma_retraction(rel, rows[i]);
                    if first.contains(acc[a]) {
                        let x = first.index_of(acc[a]);
                        assert(declares_one(first[x], rel, rows, want, want.len() as int));
                        let j = choose|j: int|
                        0 <= j < want.len() && first[x] == #[trigger] want[j] && !already(
                            rel,
                            rows,
                            want[j],
                        );
                        lemma_not_wanted(rel, rows, want, i, j);
                    } else {
                        let r = choose|r: int|
                        0 <= r < i && acc[a] == retraction(rel, #[trigger] rows[r])
                        && unwanted(rel, rows, want, r);
                        lemma_retraction(rel, rows[r]);
                        if row_point(rows[r], k, nk) == row_point(rows[i], k, nk) {
                            lemma_believed_once(rows, r, i, k, nk);
                        }
                    }
                }
            }
            lemma_retracted(rel, rows, want, first, i + 1, next);
        } else {
            assert forall|x: int| 0 <= x < acc.len() implies first.contains(#[trigger] acc[x])
            || takes_back(acc[x], rel, rows, want, i + 1) by {
                if !first.contains(acc[x]) {
                    let r = choose|r: int|
                    0 <= r < i && acc[x] == retraction(rel, #[trigger] rows[r]) && unwanted(
                        rel,
                        rows,
                        want,
                        r,
                    );
                    assert(acc[x] == retraction(rel, rows[r]));
                }
            }
            lemma_retracted(rel, rows, want, first, i + 1, acc);
        }
    }
}

proof fn lemma_belief(
    rows: Seq<Seq<Value>>,
    k: RelKind,
    nk: int,
    fact: Seq<Value>,
    vt: i64,
    i: int,
)
    requires
        0 <= i <= rows.len(),
    ensures
        ({
            let b = belief_from(rows, k, nk, fact, vt, i);
            i <= b <= rows.len() && (b < rows.len() ==> believed(rows, b, k, nk, LATEST)
                && row_point(rows[b], k, nk) == (Point { fact, vt }))
        }),
    decreases rows.len() - i,
{
    if i < rows.len() {
        lemma_belief(rows, k, nk, fact, vt, i + 1);
    }
}

/// Where a declaration says what is held already, that belief is held.
proof fn lemma_already(rel: RelationV, rows: Seq<Seq<Value>>, w: PendingV) -> (b: int)
    requires
        is_stamped(kind_of(rel.keys)),
        already(rel, rows, w),
    ensures
        0 <= b < rows.len(),
        believed(rows, b, kind_of(rel.keys), rel.keys.len() as int, LATEST),
        flag_of(rows[b], kind_of(rel.keys), rel.keys.len() as int),
        row_point(rows[b], kind_of(rel.keys), rel.keys.len() as int) == entry_point(
            w,
            kind_of(rel.keys),
        ),
        rest_of(rows[b], rel.keys.len() as int) == w.vals,
{
    let k = kind_of(rel.keys);
    let nk = rel.keys.len() as int;
    let at = entry_point(w, k);
    lemma_belief(rows, k, nk, at.fact, at.vt, 0);
    belief_from(rows, k, nk, at.fact, at.vt, 0)
}

proof fn lemma_settled(
    rel: RelationV,
    rows: Seq<Seq<Value>>,
    want: Seq<PendingV>,
    first: Seq<PendingV>,
    ps: Seq<PendingV>,
    at: Point,
    vals: Seq<Value>,
)
    requires
        is_stamped(kind_of(rel.keys)),
        all_beliefs(want, rel.name, kind_of(rel.keys)),
        points_differ(want, kind_of(rel.keys)),
        declares(first, rel, rows, want, want.len() as int),
        settles(ps, rel, rows, want, first, rows.len() as int),
        points_differ(ps, kind_of(rel.keys)),
    ensures
        believed_after(rows, ps, kind_of(rel.keys), rel.keys.len() as int, 0, at, vals)
        == declared(want, kind_of(rel.keys), at, vals),
{
    let k = kind_of(rel.keys);
    let nk = rel.keys.len() as int;
    if exists|x: int| 0 <= x < ps.len() && entry_point(#[trigger] ps[x], k) == at {
        let x = choose|x: int| 0 <= x < ps.len() && entry_point(#[trigger] ps[x], k) == at;
        assert forall|y: int| 0 <= y < ps.len() && entry_point(#[trigger] ps[y], k) == at implies x
        == y by {
            assert(x < y ==> entry_point(ps[x], k) != entry_point(ps[y], k));
            assert(y < x ==> entry_point(ps[y], k) != entry_point(ps[x], k));
        }
        if first.contains(ps[x]) {
            let y = first.index_of(ps[x]);
            assert(declares_one(first[y], rel, rows, want, want.len() as int));
            let j = choose|j: int|
            0 <= j < want.len() && first[y] == #[trigger] want[j] && !already(
                rel,
                rows,
                want[j],
            );
            assert(want[j] == ps[x]);
            assert(entry_flag(ps[x], k));
            if declared(want, k, at, vals) {
                let m = choose|m: int|
                0 <= m < want.len() && entry_point(#[trigger] want[m], k) == at
                && want[m].vals == vals;
                assert(m < j ==> entry_point(want[m], k) != entry_point(want[j], k));
                assert(j < m ==> entry_point(want[j], k) != entry_point(want[m], k));
            }
        } else {
            let r = choose|r: int|
            0 <= r < rows.len() && ps[x] == retraction(rel, #[trigger] rows[r]) && unwanted(
                rel,
                rows,
                want,
                r,
            );
            lemma_retraction(rel, rows[r]);
            assert forall|m: int| 0 <= m < want.len() implies entry_point(
                #[trigger] want[m],
                k,
            ) != at by {
                lemma_not_wanted(rel, rows, want, r, m);
            }
        }
    } else {
        if holds(rows, k, nk, at, vals) {
            let i = choose|i: int|
            0 <= i < rows.len() && #[trigger] believed(rows, i, k, nk, LATEST) && flag_of(
                rows[i],
                k,
                nk,
            ) && row_point(rows[i], k, nk) == at && rest_of(rows[i], nk) == vals;
            let key = retraction_key(rows[i], k, nk);
            lemma_retraction(rel, rows[i]);
            lemma_pending_found(want, rel.name, key, k, 0);
            let p = pending_from(want, rel.name, key, k, 0);
            if p >= want.len() {
                assert(unwanted(rel, rows, want, i));
                let y = ps.index_of(retraction(rel, rows[i]));
                assert(entry_point(ps[y], k) == at);
            }
            assert(entry_point(want[p], k) == at);
            if !already(rel, rows, want[p]) {
                let y = first.index_of(want[p]);
                let z = ps.index_of(first[y]);
                assert(entry_point(ps[z], k) == at);
            }
            let b = lemma_already(rel, rows, want[p]);
            lemma_believed_once(rows, b, i, k, nk);
        }
        if declared(want, k, at, vals) {
            let m = choose|m: int|
            0 <= m < want.len() && entry_point(#[trigger] want[m], k) == at && want[m].vals
            == vals;
            if !already(rel, rows, want[m]) {
                let y = first.index_of(want[m]);
                let z = ps.index_of(first[y]);
                assert(entry_point(ps[z], k) == at);
            }
            let b = lemma_already(rel, rows, want[m]);
            assert(believed(rows, b, k, nk, LATEST));
        }
    }
}

pub(crate) proof fn lemma_place_kept(rels: Seq<RelationV>, r: int, rel: RelationV, name: Seq<char>, i: int)
    requires
        0 <= r < rels.len(),
        rel.name == rels[r].name,
        0 <= i <= rels.len(),
    ensures
        rel_from(rels.update(r, rel), name, i) == rel_from(rels, name, i),
    decreases rels.len() - i,
{
    if i < rels.len() {
        lemma_place_kept(rels, r, rel, name, i + 1);
    }
}

/// Giving pending writes of one relation their time is giving that relation
/// their rows.
pub proof fn lemma_stamped_one(
    rels: Seq<RelationV>,
    r: int,
    ps: Seq<PendingV>,
    tt: i64,
    i: int,
)
    requires
        0 <= r < rels.len(),
        rel_place(rels, rels[r].name) == r,
        0 <= i <= ps.len(),
        forall|j: int| 0 <= j < ps.len() ==> (#[trigger] ps[j]).rel == rels[r].name,
    ensures
        stamped_from(rels, ps, tt, i) == rels.update(r, all_stamped(rels[r], ps, tt, i)),
    decreases ps.len() - i,
{
    if i == ps.len() {
        assert(rels.update(r, rels[r]) =~= rels);
    } else {
        let next = with_stamped(rels[r], ps[i], tt);
        let more = rels.update(r, next);
        lemma_place_kept(rels, r, next, rels[r].name, 0);
        assert(ps[i].rel == rels[r].name);
        lemma_stamped_one(more, r, ps, tt, i + 1);
        assert(more.update(r, all_stamped(next, ps, tt, i + 1)) =~= rels.update(
            r,
            all_stamped(rels[r], ps, tt, i),
        ));
    }
}

/// A declaration brings what is believed to what it says. Once its writes got a
/// time that is later than that of all rows, values are believed at a point if
/// and only if they were declared there.
pub proof fn law_reconcile(
    rels: Seq<RelationV>,
    r: int,
    rows: Seq<Seq<Value>>,
    gs: Seq<Option<usize>>,
    given: Seq<Seq<Value>>,
    ctx: Ctx,
    want: Seq<PendingV>,
    ps: Seq<PendingV>,
    tt: i64,
) -> (out: Seq<Seq<Value>>)
    requires
        0 <= r < rels.len(),
        rel_place(rels, rels[r].name) == r,
        is_stamped(kind_of(rels[r].keys)),
        decoded_from(rels[r].recs, 0, Seq::empty()) == Ok::<Seq<Seq<Value>>, Fault>(rows),
        forall|i: int|
        0 <= i < rows.len() ==> tt_of(
#[trigger] rows[i],
            kind_of(rels[r].keys),
            rels[r].keys.len() as int,
        ) < tt,
        wants_from(rels[r], gs, given, ctx, 0, Seq::empty()) == Ok::<Seq<PendingV>, Fault>(want),
        reconciled_of(rels[r], rows, gs, given, ctx, Seq::empty()) == Ok::<
        Seq<PendingV>,
        Fault,
        >(ps),
        forall|j: int| 0 <= j < ps.len() ==> fits(rels[r], #[trigger] ps[j]),
    ensures
        decoded_from(stamped_from(rels, ps, tt, 0)[r].recs, 0, Seq::empty()) == Ok::<
        Seq<Seq<Value>>,
        Fault,
        >(out),
        forall|at: Point, vals: Seq<Value>| #[trigger]
        holds(out, kind_of(rels[r].keys), rels[r].keys.len() as int, at, vals) == declared(
            want,
            kind_of(rels[r].keys),
            at,
            vals,
        ),
{
    let rel = rels[r];
    let k = kind_of(rel.keys);
    let nk = rel.keys.len() as int;
    lemma_wants(rel, gs, given, ctx, 0, Seq::empty());
    let first = declared_from(rel, rows, want, 0, Seq::empty());
    lemma_declared(rel, rows, want, 0, Seq::empty());
    assert forall|x: int| 0 <= x < first.len() implies first.contains(#[trigger] first[x]) by {}
    lemma_retracted(rel, rows, want, first, 0, first);
    assert forall|j: int| 0 <= j < ps.len() implies (#[trigger] ps[j]).rel == rel.name by {
        if first.contains(ps[j]) {
            let y = first.index_of(ps[j]);
            assert(declares_one(first[y], rel, rows, want, want.len() as int));
            let m = choose|m: int|
            0 <= m < want.len() && first[y] == #[trigger] want[m] && !already(
                rel,
                rows,
                want[m],
            );
            assert(want[m].rel == rel.name);
        }
    }
    lemma_stamped_one(rels, r, ps, tt, 0);
    let out = law_writes_are_believed(rel, rows, ps, tt, 0);
    assert forall|at: Point, vals: Seq<Value>| #[trigger]
    holds(out, k, nk, at, vals) == declared(want, k, at, vals) by {
        lemma_settled(rel, rows, want, first, ps, at, vals);
    }
    out
}

} // verus!
