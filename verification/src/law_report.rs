//! What a write takes from its rows, what it demands and what it reports.
use vstd::prelude::*;

use crate::error::Fault;
use crate::expr::{Ctx, branched};
use crate::mutate::{EffectV, report_of, tagged_from};
use crate::parse_query::write_kind_of;
use crate::query::{WriteKind, WriteV};
use crate::schema::{ColumnV, coerced};
use crate::store::{RelationV, rel_place};
use crate::value::Value;
use crate::write::{
    FoundV, WorkV, differs_from, fetch_of, fill_of, fills_from, given_at, merges_from, padded,
    plain_row_of,
};

verus! {

proof fn lemma_tagged(rows: Seq<Seq<Value>>, tag: Seq<char>, i: int, acc: Seq<Seq<Value>>)
    requires
        0 <= i <= rows.len(),
    ensures
        ({
            let r = tagged_from(rows, tag, i, acc);
            &&& r.len() == acc.len() + rows.len() - i
            &&& forall|k: int| 0 <= k < acc.len() ==> #[trigger] r[k] == acc[k]
            &&& forall|k: int|
                acc.len() <= k < r.len() ==> #[trigger] r[k] == seq![Value::Str(tag)] + rows[k
                    - acc.len() + i]
        }),
    decreases rows.len() - i,
{
    if i < rows.len() {
        lemma_tagged(rows, tag, i + 1, acc.push(seq![Value::Str(tag)] + rows[i]));
    }
}

/// A write that is asked for its rows reports each new row and behind them each
/// old one, every row behind a word: inserted and replaced, or, of a write that
/// removes, requested and deleted.
pub proof fn law_report_tells_all(w: WriteV, e: EffectV, k: int)
    requires
        rel_place(e.store.rels, w.rel) < e.store.rels.len(),
    ensures
        ({
            let rm = Some(w.kind) == write_kind_of("rm"@) || Some(w.kind) == write_kind_of(
                "delete"@,
            );
            let r = report_of(w, true, e).rows;
            &&& r.len() == e.news.len() + e.olds.len()
            &&& 0 <= k < e.news.len() ==> r[k] == seq![
                Value::Str(
                    if rm {
                        "requested"@
                    } else {
                        "inserted"@
                    },
                ),
            ] + e.news[k]
            &&& 0 <= k < e.olds.len() ==> r[e.news.len() + k] == seq![
                Value::Str(
                    if rm {
                        "deleted"@
                    } else {
                        "replaced"@
                    },
                ),
            ] + e.olds[k]
        }),
{
    lemma_kinds();
    let rm = w.kind == WriteKind::Rm || w.kind == WriteKind::Delete;
    let new_tag = if rm {
        "requested"@
    } else {
        "inserted"@
    };
    let old_tag = if rm {
        "deleted"@
    } else {
        "replaced"@
    };
    lemma_tagged(e.news, new_tag, 0, Seq::empty());
    lemma_tagged(e.olds, old_tag, 0, tagged_from(e.news, new_tag, 0, Seq::empty()));
    let r = report_of(w, true, e).rows;
    assert(r == tagged_from(e.olds, old_tag, 0, tagged_from(e.news, new_tag, 0, Seq::empty())));
    if 0 <= k < e.olds.len() {
        assert(r[e.news.len() + k] == seq![Value::Str(old_tag)] + e.olds[k]);
    }
}

proof fn lemma_kinds()
    ensures
        write_kind_of("put"@) == Some(WriteKind::Put),
        write_kind_of("insert"@) == Some(WriteKind::Insert),
        write_kind_of("update"@) == Some(WriteKind::Update),
        write_kind_of("rm"@) == Some(WriteKind::Rm),
        write_kind_of("delete"@) == Some(WriteKind::Delete),
        write_kind_of("ensure"@) == Some(WriteKind::Ensure),
        write_kind_of("ensure_not"@) == Some(WriteKind::EnsureNot),
{
    reveal_strlit("create");
    reveal_strlit("replace");
    reveal_strlit("put");
    reveal_strlit("insert");
    reveal_strlit("update");
    reveal_strlit("rm");
    reveal_strlit("delete");
    reveal_strlit("ensure");
    reveal_strlit("ensure_not");
    assert("create"@.len() == 6 && "create"@[0] == 'c');
    assert("replace"@.len() == 7 && "put"@.len() == 3 && "rm"@.len() == 2 && "ensure_not"@.len()
        == 10);
    assert("insert"@.len() == 6 && "insert"@[0] == 'i');
    assert("update"@.len() == 6 && "update"@[0] == 'u');
    assert("delete"@.len() == 6 && "delete"@[0] == 'd');
    assert("ensure"@.len() == 6 && "ensure"@[0] == 'e');
}

proof fn lemma_padded(row: Seq<Value>, n: nat)
    ensures
        padded(row, n) == row + Seq::new(n, |i: int| Value::Null),
    decreases n,
{
    if n > 0 {
        lemma_padded(row.push(Value::Null), (n - 1) as nat);
    }
    assert(padded(row, n) =~= row + Seq::new(n, |i: int| Value::Null));
}

/// What one row of a write adds to the rows it reports: a row that is written, or
/// the key that is asked to go with nulls behind it, and the row that stood under
/// the key, where one did.
pub proof fn law_each_row_is_reported(
    op: WriteKind,
    rel: RelationV,
    gs: Seq<Option<usize>>,
    row: Seq<Value>,
    ctx: Ctx,
    work: WorkV,
    next: WorkV,
    key: Seq<Value>,
    was: FoundV,
)
    requires
        fills_from(rel.keys, gs, 0, row, ctx, 0, Seq::empty()) == Ok::<Seq<Value>, Fault>(key),
        fetch_of(work.recs, key) == Ok::<FoundV, Fault>(was),
        plain_row_of(op, rel, gs, row, ctx, work) == Ok::<WorkV, Fault>(next),
    ensures
        Some(op) == write_kind_of("put"@) || Some(op) == write_kind_of("insert"@) ==> (fills_from(
            rel.vals,
            gs,
            rel.keys.len() as int,
            row,
            ctx,
            0,
            Seq::empty(),
        ) matches Ok(vals) && next.news == work.news.push(key + vals)),
        Some(op) == write_kind_of("rm"@) || Some(op) == write_kind_of("delete"@) ==> next.news
            == work.news.push(key + Seq::new(rel.vals.len(), |i: int| Value::Null)),
        Some(op) == write_kind_of("ensure"@) || Some(op) == write_kind_of("ensure_not"@) ==> next
            == work,
        Some(op) != write_kind_of("ensure"@) ==> next.olds == match was {
            FoundV::Absent => work.olds,
            FoundV::Present(old) => work.olds.push(key + old),
        },
        next.pending == work.pending,
{
    lemma_kinds();
    lemma_padded(key, rel.vals.len());
}

proof fn lemma_fills(
    cols: Seq<ColumnV>,
    gs: Seq<Option<usize>>,
    off: int,
    row: Seq<Value>,
    ctx: Ctx,
    i: int,
    acc: Seq<Value>,
)
    requires
        0 <= i <= cols.len(),
        acc.len() == i,
        0 <= off,
        off + cols.len() <= gs.len(),
        forall|k: int|
            0 <= k < gs.len() ==> (#[trigger] gs[k] matches Some(p) ==> p < row.len()),
        forall|k: int|
            0 <= k < i ==> (gs[off + k] matches Some(p) ==> coerced(
                row[p as int],
                cols[k].typ,
                ctx.now,
            ) == Some(#[trigger] acc[k])),
    ensures
        fills_from(cols, gs, off, row, ctx, i, acc) matches Ok(vs) ==> vs.len() == cols.len()
            && forall|k: int|
            0 <= k < vs.len() ==> (gs[off + k] matches Some(p) ==> coerced(
                row[p as int],
                cols[k].typ,
                ctx.now,
            ) == Some(#[trigger] vs[k])),
    decreases cols.len() - i,
{
    if i < cols.len() {
        let sub = branched(branched(ctx, off), i);
        assert(gs[off + i] == given_at(gs, off + i));
        match fill_of(cols[i], given_at(gs, off + i), row, sub) {
            Err(_) => {},
            Ok(v) => {
                lemma_fills(cols, gs, off, row, ctx, i + 1, acc.push(v));
            },
        }
    }
}

/// A write gives a column the value of the row that it takes the column from, in
/// the column's type.
pub proof fn law_given_cells_are_taken(
    cols: Seq<ColumnV>,
    gs: Seq<Option<usize>>,
    off: int,
    row: Seq<Value>,
    ctx: Ctx,
    k: int,
    p: usize,
)
    requires
        0 <= off,
        off + cols.len() <= gs.len(),
        forall|k: int|
            0 <= k < gs.len() ==> (#[trigger] gs[k] matches Some(p) ==> p < row.len()),
        0 <= k < cols.len(),
        gs[off + k] == Some(p),
    ensures
        fills_from(cols, gs, off, row, ctx, 0, Seq::empty()) matches Ok(vs) ==> vs.len()
            == cols.len() && coerced(row[p as int], cols[k].typ, ctx.now) == Some(vs[k]),
{
    lemma_fills(cols, gs, off, row, ctx, 0, Seq::empty());
}

proof fn lemma_merges(
    cols: Seq<ColumnV>,
    gs: Seq<Option<usize>>,
    off: int,
    old: Seq<Value>,
    row: Seq<Value>,
    ctx: Ctx,
    i: int,
    acc: Seq<Value>,
)
    requires
        0 <= i <= cols.len(),
        acc.len() == i,
        0 <= off,
        off + cols.len() <= gs.len(),
        old.len() == cols.len(),
        forall|k: int|
            0 <= k < gs.len() ==> (#[trigger] gs[k] matches Some(p) ==> p < row.len()),
        forall|k: int|
            0 <= k < i ==> match gs[off + k] {
                Some(p) => coerced(row[p as int], cols[k].typ, ctx.now) == Some(#[trigger] acc[k]),
                None => acc[k] == old[k],
            },
    ensures
        merges_from(cols, gs, off, old, row, ctx, i, acc) matches Ok(vs) ==> vs.len() == cols.len()
            && forall|k: int|
            0 <= k < vs.len() ==> match gs[off + k] {
                Some(p) => coerced(row[p as int], cols[k].typ, ctx.now) == Some(#[trigger] vs[k]),
                None => vs[k] == old[k],
            },
    decreases cols.len() - i,
{
    if i < cols.len() {
        assert(gs[off + i] == given_at(gs, off + i));
        match given_at(gs, off + i) {
            None => {
                lemma_merges(cols, gs, off, old, row, ctx, i + 1, acc.push(old[i]));
            },
            Some(p) => match fill_of(cols[i], Some(p), row, ctx) {
                Err(_) => {},
                Ok(v) => {
                    lemma_merges(cols, gs, off, old, row, ctx, i + 1, acc.push(v));
                },
            },
        }
    }
}

/// An update leaves each column that it does not name, and gives each other one
/// the value of the row, in the column's type.
pub proof fn law_update_keeps_the_rest(
    cols: Seq<ColumnV>,
    gs: Seq<Option<usize>>,
    off: int,
    old: Seq<Value>,
    row: Seq<Value>,
    ctx: Ctx,
    k: int,
)
    requires
        0 <= off,
        off + cols.len() <= gs.len(),
        old.len() == cols.len(),
        forall|k: int|
            0 <= k < gs.len() ==> (#[trigger] gs[k] matches Some(p) ==> p < row.len()),
        0 <= k < cols.len(),
    ensures
        merges_from(cols, gs, off, old, row, ctx, 0, Seq::empty()) matches Ok(vs) ==> vs.len()
            == cols.len() && match gs[off + k] {
            Some(p) => coerced(row[p as int], cols[k].typ, ctx.now) == Some(vs[k]),
            None => vs[k] == old[k],
        },
{
    lemma_merges(cols, gs, off, old, row, ctx, 0, Seq::empty());
}

proof fn lemma_differs(
    cols: Seq<ColumnV>,
    gs: Seq<Option<usize>>,
    off: int,
    old: Seq<Value>,
    row: Seq<Value>,
    ctx: Ctx,
    i: int,
    acc: bool,
)
    requires
        0 <= i <= cols.len(),
        0 <= off,
        off + cols.len() <= gs.len(),
        old.len() == cols.len(),
        forall|k: int|
            0 <= k < gs.len() ==> (#[trigger] gs[k] matches Some(p) ==> p < row.len()),
        !acc ==> forall|k: int|
            0 <= k < i ==> (gs[off + k] matches Some(p) ==> coerced(
                row[p as int],
                cols[k].typ,
                ctx.now,
            ) == Some(#[trigger] old[k])),
        acc ==> exists|k: int|
            0 <= k < i && (gs[off + k] matches Some(p) && coerced(
                row[p as int],
                cols[k].typ,
                ctx.now,
            ) != Some(#[trigger] old[k])),
    ensures
        differs_from(cols, gs, off, old, row, ctx, i, acc) matches Ok(d) ==> d == exists|k: int|
            0 <= k < cols.len() && (gs[off + k] matches Some(p) && coerced(
                row[p as int],
                cols[k].typ,
                ctx.now,
            ) != Some(#[trigger] old[k])),
    decreases cols.len() - i,
{
    if i < cols.len() {
        assert(gs[off + i] == given_at(gs, off + i));
        assert(old[i] == old[i]);
        match given_at(gs, off + i) {
            None => {
                lemma_differs(cols, gs, off, old, row, ctx, i + 1, acc);
            },
            Some(p) => match fill_of(cols[i], Some(p), row, ctx) {
                Err(_) => {},
                Ok(v) => {
                    lemma_differs(cols, gs, off, old, row, ctx, i + 1, acc || v != old[i]);
                },
            },
        }
    }
}

/// A row is ensured where its key is held with the very values that the row
/// gives, and ensured not to be where its key is not held.
pub proof fn law_ensured_is_there(
    op: WriteKind,
    rel: RelationV,
    gs: Seq<Option<usize>>,
    row: Seq<Value>,
    ctx: Ctx,
    work: WorkV,
    key: Seq<Value>,
    k: int,
)
    requires
        fills_from(rel.keys, gs, 0, row, ctx, 0, Seq::empty()) == Ok::<Seq<Value>, Fault>(key),
        rel.keys.len() + rel.vals.len() <= gs.len(),
        forall|k: int|
            0 <= k < gs.len() ==> (#[trigger] gs[k] matches Some(p) ==> p < row.len()),
        fetch_of(work.recs, key) matches Ok(FoundV::Present(old)) ==> old.len() == rel.vals.len(),
        0 <= k < rel.vals.len(),
        plain_row_of(op, rel, gs, row, ctx, work) is Ok,
    ensures
        Some(op) == write_kind_of("ensure"@) ==> (fetch_of(work.recs, key) matches Ok(
            FoundV::Present(old),
        ) && (gs[rel.keys.len() + k] matches Some(p) ==> coerced(
            row[p as int],
            rel.vals[k].typ,
            ctx.now,
        ) == Some(old[k]))),
        Some(op) == write_kind_of("ensure_not"@) ==> fetch_of(work.recs, key) == Ok::<
            FoundV,
            Fault,
        >(FoundV::Absent),
{
    lemma_kinds();
    match fetch_of(work.recs, key) {
        Ok(FoundV::Present(old)) => {
            lemma_differs(rel.vals, gs, rel.keys.len() as int, old, row, ctx, 0, false);
            assert(old[k] == old[k]);
        },
        _ => {},
    }
}

} // verus!
