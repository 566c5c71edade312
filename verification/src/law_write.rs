//! What was written is what is read.
use vstd::prelude::*;

use crate::codec::{all_sized_from, decode_row_of, encode_row_of, law_row_round_trip};
use crate::error::Fault;
use crate::expr::Ctx;
use crate::law_time::lemma_decoded_each;
use crate::query::WriteKind;
use crate::scan::{read_tt, rel_rows};
use crate::schema::{RelKind, kind_of};
use crate::store::{
    Access, RelationV, decoded_from, in_order, law_del_rec, law_lookup, law_put_rec, lookup_of,
    permitted,
};
use crate::temporal::{displayed, shown, visible_from};
use crate::value::Value;
use crate::write::{FoundV, WorkV, fetch_of, fills_from, merges_from, plain_row_of};

verus! {

/// Values that are put under a key are found there afterwards, and what is under
/// every other key stays.
pub proof fn law_put_is_found(
    op: WriteKind,
    rel: RelationV,
    gs: Seq<Option<usize>>,
    row: Seq<Value>,
    ctx: Ctx,
    work: WorkV,
    key: Seq<Value>,
    vals: Seq<Value>,
    other: Seq<Value>,
)
    requires
        op == WriteKind::Put || op == WriteKind::Insert,
        in_order(work.recs),
        fills_from(rel.keys, gs, 0, row, ctx, 0, Seq::empty()) == Ok::<Seq<Value>, Fault>(key),
        fills_from(rel.vals, gs, rel.keys.len() as int, row, ctx, 0, Seq::empty()) == Ok::<
        Seq<Value>,
        Fault,
        >(vals),
        vals.len() <= u64::MAX,
        all_sized_from(vals, 0),
    ensures
        plain_row_of(op, rel, gs, row, ctx, work) matches Ok(next) ==> in_order(next.recs)
        && fetch_of(next.recs, key) == Ok::<FoundV, Fault>(FoundV::Present(vals)) && (other
            != key ==> fetch_of(next.recs, other) == fetch_of(work.recs, other)),
        plain_row_of(op, rel, gs, row, ctx, work) is Ok <==> match fetch_of(work.recs, key) {
            Err(_) => false,
            Ok(FoundV::Absent) => true,
            Ok(FoundV::Present(_)) => op == WriteKind::Put,
        },
{
    law_put_rec(work.recs, key, encode_row_of(vals), other);
    law_row_round_trip(vals);
}

/// Nothing is found under a key that was removed, and what is under every other
/// key stays.
pub proof fn law_removed_is_gone(
    op: WriteKind,
    rel: RelationV,
    gs: Seq<Option<usize>>,
    row: Seq<Value>,
    ctx: Ctx,
    work: WorkV,
    key: Seq<Value>,
    other: Seq<Value>,
)
    requires
        op == WriteKind::Rm || op == WriteKind::Delete,
        in_order(work.recs),
        fills_from(rel.keys, gs, 0, row, ctx, 0, Seq::empty()) == Ok::<Seq<Value>, Fault>(key),
    ensures
        plain_row_of(op, rel, gs, row, ctx, work) matches Ok(next) ==> in_order(next.recs)
        && fetch_of(next.recs, key) == Ok::<FoundV, Fault>(FoundV::Absent) && (other != key
            ==> fetch_of(next.recs, other) == fetch_of(work.recs, other)),
        plain_row_of(op, rel, gs, row, ctx, work) is Ok <==> match fetch_of(work.recs, key) {
            Err(_) => false,
            Ok(FoundV::Absent) => op == WriteKind::Rm,
            Ok(FoundV::Present(_)) => true,
        },
{
    law_del_rec(work.recs, key, other);
}

/// What is found under a key after an update is what was there with the given
/// columns replaced, and what is under every other key stays.
pub proof fn law_updated_is_merged(
    rel: RelationV,
    gs: Seq<Option<usize>>,
    row: Seq<Value>,
    ctx: Ctx,
    work: WorkV,
    key: Seq<Value>,
    was: Seq<Value>,
    vals: Seq<Value>,
    other: Seq<Value>,
)
    requires
        in_order(work.recs),
        fills_from(rel.keys, gs, 0, row, ctx, 0, Seq::empty()) == Ok::<Seq<Value>, Fault>(key),
        fetch_of(work.recs, key) == Ok::<FoundV, Fault>(FoundV::Present(was)),
        merges_from(rel.vals, gs, rel.keys.len() as int, was, row, ctx, 0, Seq::empty()) == Ok::<
        Seq<Value>,
        Fault,
        >(vals),
        vals.len() <= u64::MAX,
        all_sized_from(vals, 0),
    ensures
        plain_row_of(WriteKind::Update, rel, gs, row, ctx, work) matches Ok(next) && in_order(
            next.recs,
        ) && fetch_of(next.recs, key) == Ok::<FoundV, Fault>(FoundV::Present(vals)) && (other
            != key ==> fetch_of(next.recs, other) == fetch_of(work.recs, other)),
{
    law_put_rec(work.recs, key, encode_row_of(vals), other);
    law_row_round_trip(vals);
}

proof fn lemma_all_shown(rows: Seq<Seq<Value>>, i: int, nk: int, tt: i64, acc: Seq<Seq<Value>>)
    requires
        0 <= i <= rows.len(),
        acc == rows.take(i),
    ensures
        visible_from(rows, i, RelKind::Plain, nk, None, tt, acc) == rows,
    decreases rows.len() - i,
{
    if i < rows.len() {
        assert(shown(rows, i, RelKind::Plain, nk, None, tt));
        assert(displayed(rows[i], RelKind::Plain, nk) == rows[i]);
        assert(rows.take(i + 1) =~= acc.push(rows[i]));
        lemma_all_shown(rows, i + 1, nk, tt, acc.push(rows[i]));
    } else {
        assert(rows.take(i) =~= rows);
    }
}

/// A read of a relation without times shows a row if and only if its values are
/// found under its key.
pub proof fn law_read_shows_all(
    rel: RelationV,
    rows: Seq<Seq<Value>>,
    as_of: Option<i64>,
    key: Seq<Value>,
    vals: Seq<Value>,
)
    requires
        kind_of(rel.keys) == RelKind::Plain,
        permitted(rel, Access::ReadOnly),
        in_order(rel.recs),
        forall|i: int| 0 <= i < rel.recs.len() ==> (
            #[trigger] rel.recs[i]
        ).key.len() == rel.keys.len(),
        decoded_from(rel.recs, 0, Seq::empty()) == Ok::<Seq<Seq<Value>>, Fault>(rows),
        key.len() == rel.keys.len(),
    ensures
        rel_rows(rel, None, None, as_of) == Ok::<Seq<Seq<Value>>, Fault>(rows),
        rows.contains(key + vals) <==> fetch_of(rel.recs, key) == Ok::<FoundV, Fault>(
            FoundV::Present(vals),
        ),
{
    let nk = rel.keys.len() as int;
    assert(rows.take(0) =~= Seq::<Seq<Value>>::empty());
    lemma_all_shown(rows, 0, nk, read_tt(None, as_of), Seq::empty());
    lemma_decoded_each(rel.recs, 0, Seq::empty());
    law_lookup(rel.recs, key);
    if rows.contains(key + vals) {
        let i = rows.index_of(key + vals);
        let got = decode_row_of(rel.recs[i].blob)->0;
        assert(rows[i] == rel.recs[i].key + got);
        assert((rel.recs[i].key + got).take(nk) =~= rel.recs[i].key);
        assert((key + vals).take(nk) =~= key);
        assert((rel.recs[i].key + got).skip(nk) =~= got);
        assert((key + vals).skip(nk) =~= vals);
    }
    if fetch_of(rel.recs, key) == Ok::<FoundV, Fault>(FoundV::Present(vals)) {
        let i = choose|i: int|
        0 <= i < rel.recs.len() && (#[trigger] rel.recs[i]).key == key
        && lookup_of(rel.recs, key) == Some(rel.recs[i].blob);
        assert(rows[i] == key + vals);
    }
}

} // verus!
