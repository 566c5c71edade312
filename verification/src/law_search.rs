//! What indices by content promise.
use vstd::prelude::*;

use crate::codec::{encode_row_of, law_row_round_trip, sized};
use crate::error::Fault;
use crate::expr::Ctx;
use crate::mutate::{refreshed, refreshed_from};
use crate::search::{
    AskV, alike, field_indexed, fields_indexed, found, found_from, hit_row, hits_from, indexed_from,
    one_of, passes, rank_of, runs_of, shared_from, still, unranked_from, wanted_row,
};
use crate::store::{
    Lookup, RecordV, RelationV, SearchV, columns_of, decoded_from, lookup_of, names_of,
};
use crate::table::{ascending, law_sorted, sorted_of};
use crate::value::{UNIT, Value};
use crate::vector::distance_of;

verus! {

proof fn lemma_shares_all(a: Seq<Value>, i: int, acc: nat)
    requires
        0 <= i <= a.len(),
    ensures
        shared_from(a, a, i, acc) == acc + (a.len() - i),
    decreases a.len() - i,
{
    if i < a.len() {
        assert(a.contains(a[i]));
        lemma_shares_all(a, i + 1, acc + 1);
    }
}

/// A text is alike to itself, whatever part of it must be shared.
pub proof fn law_text_is_like_itself(a: Seq<Value>, target: u32)
    requires
        target <= UNIT,
    ensures
        alike(a, a, target),
{
    lemma_shares_all(a, 0, 0);
    assert(a.len() * UNIT >= target * a.len()) by (nonlinear_arith)
        requires
            target <= UNIT,
            a.len() >= 0,
    ;
}

/// What an index of similar texts keeps of a text is found by that text.
pub proof fn law_kept_text_is_found(s: SearchV, key: Seq<Value>, text: Seq<char>)
    requires
        s.kind == Lookup::Similar,
        s.target <= UNIT,
        sized(Value::List(runs_of(s, text))),
        lookup_of(s.recs, key) == Some(encode_row_of(one_of(Value::List(runs_of(s, text))))),
    ensures
        rank_of(s, key, 0, Value::Str(text)) matches Ok(Some(_)),
{
    let l = runs_of(s, text);
    let row = one_of(Value::List(l));
    assert(row[0] == Value::List(l));
    reveal_with_fuel(crate::codec::all_sized_from, 2);
    law_row_round_trip(row);
    law_text_is_like_itself(l, s.target);
}

/// A row of which an index keeps nothing is not found, neither among texts nor
/// among vectors.
pub proof fn law_dropped_row_is_not_found(s: SearchV, key: Seq<Value>, j: int, query: Value)
    requires
        s.kind == Lookup::Similar ==> lookup_of(s.recs, key) is None,
        s.kind == Lookup::Vectors ==> lookup_of(s.recs, key.push(Value::Int(j as i64))) is None,
        s.kind != Lookup::Words,
    ensures
        !(rank_of(s, key, j, query) matches Ok(Some(_))),
{
}

/// A vector that an index keeps is found at its distance from what is searched
/// for.
pub proof fn law_vector_is_found(
    s: SearchV,
    key: Seq<Value>,
    j: int,
    v: Seq<Value>,
    query: Seq<Value>,
    d: Value,
)
    requires
        s.kind == Lookup::Vectors,
        sized(Value::List(v)),
        lookup_of(s.recs, key.push(Value::Int(j as i64))) == Some(
            encode_row_of(one_of(Value::List(v))),
        ),
        distance_of(s.metric, v, query) == Ok::<Value, Fault>(d),
    ensures
        rank_of(s, key, j, Value::List(query)) == Ok::<Option<Seq<Value>>, Fault>(
            Some(seq![d, d, Value::List(v)]),
        ),
{
    let row = one_of(Value::List(v));
    assert(row[0] == Value::List(v));
    reveal_with_fuel(crate::codec::all_sized_from, 2);
    law_row_round_trip(row);
}

proof fn lemma_hits_are_wide(
    s: SearchV,
    cols: Seq<Seq<char>>,
    key: Seq<Value>,
    row: Seq<Value>,
    a: AskV,
    ctx: Ctx,
    j: int,
    acc: Seq<Seq<Value>>,
)
    requires
        0 <= j,
        forall|i: int| 0 <= i < acc.len() ==> (#[trigger] acc[i]).len() > 0,
    ensures
        hits_from(s, cols, key, row, a, ctx, j, acc) matches Ok(out) ==> forall|i: int|
            0 <= i < out.len() ==> (#[trigger] out[i]).len() > 0,
    decreases s.fields.len() - j,
{
    if j < s.fields.len() {
        match rank_of(s, key, j, a.query) {
            Err(_) => {},
            Ok(None) => lemma_hits_are_wide(s, cols, key, row, a, ctx, j + 1, acc),
            Ok(Some(r)) => {
                match wanted_row(a, cols, row, r[1], ctx) {
                    Err(_) => {},
                    Ok(false) => lemma_hits_are_wide(s, cols, key, row, a, ctx, j + 1, acc),
                    Ok(true) => {
                        assert(hit_row(r, row).len() >= r.take(1).len());
                        lemma_hits_are_wide(
                            s,
                            cols,
                            key,
                            row,
                            a,
                            ctx,
                            j + 1,
                            acc.push(hit_row(r, row)),
                        );
                    },
                }
            },
        }
    }
}

proof fn lemma_found_are_wide(
    s: SearchV,
    cols: Seq<Seq<char>>,
    nk: int,
    rows: Seq<Seq<Value>>,
    a: AskV,
    ctx: Ctx,
    i: int,
    acc: Seq<Seq<Value>>,
)
    requires
        0 <= i,
        forall|k: int| 0 <= k < acc.len() ==> (#[trigger] acc[k]).len() > 0,
    ensures
        found_from(s, cols, nk, rows, a, ctx, i, acc) matches Ok(out) ==> forall|k: int|
            0 <= k < out.len() ==> (#[trigger] out[k]).len() > 0,
    decreases rows.len() - i,
{
    if i < rows.len() {
        if nk > rows[i].len() {
            lemma_found_are_wide(s, cols, nk, rows, a, ctx, i + 1, acc);
        } else {
            lemma_hits_are_wide(s, cols, rows[i].take(nk), rows[i], a, ctx, 0, acc);
            if let Ok(more) = hits_from(s, cols, rows[i].take(nk), rows[i], a, ctx, 0, acc) {
                lemma_found_are_wide(s, cols, nk, rows, a, ctx, i + 1, more);
            }
        }
    }
}

/// How many rows are shown of those found.
pub open spec fn shown_count(n: nat, k: Option<u64>) -> nat {
    match k {
        None => n,
        Some(m) => if m < n {
            m as nat
        } else {
            n
        },
    }
}

proof fn lemma_unranked(rows: Seq<Seq<Value>>, k: Option<u64>, i: int, acc: Seq<Seq<Value>>)
    requires
        0 <= i <= shown_count(rows.len(), k),
        acc == Seq::new(i as nat, |m: int| rows[m].remove(0)),
        forall|m: int| 0 <= m < rows.len() ==> (#[trigger] rows[m]).len() > 0,
    ensures
        unranked_from(rows, k, i, acc) == Seq::new(
            shown_count(rows.len(), k),
            |m: int| rows[m].remove(0),
        ),
    decreases rows.len() - i,
{
    if i < rows.len() && !(k is Some && i >= k->0) {
        assert(rows[i].len() > 0);
        let more = acc.push(rows[i].remove(0));
        assert(more =~= Seq::new((i + 1) as nat, |m: int| rows[m].remove(0)));
        lemma_unranked(rows, k, i + 1, more);
    } else {
        assert(acc =~= Seq::new(shown_count(rows.len(), k), |m: int| rows[m].remove(0)));
    }
}

/// A search shows the best of the rows that match, in the order of their ranks,
/// and as many as were asked for.
pub proof fn law_search_shows_the_best(
    s: SearchV,
    cols: Seq<Seq<char>>,
    nk: int,
    rows: Seq<Seq<Value>>,
    a: AskV,
    ctx: Ctx,
    ranks: Seq<Seq<Value>>,
)
    requires
        found_from(s, cols, nk, rows, a, ctx, 0, Seq::empty()) == Ok::<Seq<Seq<Value>>, Fault>(
            ranks,
        ),
    ensures
        found(s, cols, nk, rows, a, ctx) == Ok::<Seq<Seq<Value>>, Fault>(
            Seq::new(
                shown_count(sorted_of(ranks).len(), a.k),
                |i: int| sorted_of(ranks)[i].remove(0),
            ),
        ),
        ascending(sorted_of(ranks)),
        forall|x: Seq<Value>| #[trigger] sorted_of(ranks).contains(x) <==> ranks.contains(x),
{
    law_sorted(ranks);
    lemma_found_are_wide(s, cols, nk, rows, a, ctx, 0, Seq::empty());
    let best = sorted_of(ranks);
    assert forall|m: int| 0 <= m < best.len() implies (#[trigger] best[m]).len() > 0 by {
        assert(best.contains(best[m]));
        assert(ranks.contains(best[m]));
    }
    assert(Seq::<Seq<Value>>::empty() =~= Seq::new(0, |m: int| best[m].remove(0)));
    lemma_unranked(best, a.k, 0, Seq::empty());
}

/// Whether two indices are one but for their records.
spec fn same_index(a: SearchV, b: SearchV) -> bool {
    a == (SearchV { recs: a.recs, ..b })
}

proof fn lemma_fields_same(
    a: SearchV,
    b: SearchV,
    key: Seq<Value>,
    row: Seq<Value>,
    j: int,
    recs: Seq<RecordV>,
)
    requires
        same_index(a, b),
        0 <= j,
    ensures
        fields_indexed(a, key, row, j, recs) == fields_indexed(b, key, row, j, recs),
    decreases a.fields.len() - j,
{
    if j < a.fields.len() {
        assert(field_indexed(a, key, row, j, recs) == field_indexed(b, key, row, j, recs));
        lemma_fields_same(a, b, key, row, j + 1, field_indexed(a, key, row, j, recs));
    }
}

proof fn lemma_indexed_same(
    a: SearchV,
    b: SearchV,
    cols: Seq<Seq<char>>,
    nk: int,
    rows: Seq<Seq<Value>>,
    i: int,
    recs: Seq<RecordV>,
)
    requires
        same_index(a, b),
        0 <= i,
    ensures
        indexed_from(a, cols, nk, rows, i, recs) == indexed_from(b, cols, nk, rows, i, recs),
    decreases rows.len() - i,
{
    if i < rows.len() {
        if nk > rows[i].len() {
            lemma_indexed_same(a, b, cols, nk, rows, i + 1, recs);
        } else {
            match passes(a.filter, cols, rows[i], still()) {
                Err(_) => {},
                Ok(false) => lemma_indexed_same(a, b, cols, nk, rows, i + 1, recs),
                Ok(true) => {
                    lemma_fields_same(a, b, rows[i].take(nk), rows[i], 0, recs);
                    lemma_indexed_same(
                        a,
                        b,
                        cols,
                        nk,
                        rows,
                        i + 1,
                        fields_indexed(a, rows[i].take(nk), rows[i], 0, recs),
                    );
                },
            }
        }
    }
}

proof fn lemma_refreshed_twice(
    ss: Seq<SearchV>,
    out: Seq<SearchV>,
    cols: Seq<Seq<char>>,
    nk: int,
    rows: Seq<Seq<Value>>,
    i: int,
    acc: Seq<SearchV>,
)
    requires
        0 <= i <= ss.len(),
        acc.len() == i,
        refreshed_from(ss, cols, nk, rows, i, acc) == Ok::<Seq<SearchV>, Fault>(out),
    ensures
        out.len() == ss.len(),
        forall|k: int| 0 <= k < i ==> out[k] == acc[k],
        refreshed_from(out, cols, nk, rows, i, acc) == Ok::<Seq<SearchV>, Fault>(out),
    decreases ss.len() - i,
{
    if i < ss.len() {
        let recs = indexed_from(ss[i], cols, nk, rows, 0, Seq::empty())->Ok_0;
        let next = SearchV { recs, ..ss[i] };
        let more = acc.push(next);
        lemma_refreshed_twice(ss, out, cols, nk, rows, i + 1, more);
        assert(out[i] == more[i]);
        lemma_indexed_same(ss[i], next, cols, nk, rows, 0, Seq::empty());
        assert(SearchV { recs, ..out[i] } == next);
        assert forall|k: int| 0 <= k < i implies out[k] == acc[k] by {
            assert(more[k] == acc[k]);
        }
    }
}

/// Indices by content are made of the rows alone: making them anew where they
/// follow the rows changes nothing.
pub proof fn law_refresh_settles(rel: RelationV, next: RelationV)
    requires
        refreshed(rel) == Ok::<RelationV, Fault>(next),
    ensures
        refreshed(next) == Ok::<RelationV, Fault>(next),
        next.recs == rel.recs,
{
    if rel.searches.len() > 0 {
        let rows = decoded_from(rel.recs, 0, Seq::empty())->Ok_0;
        lemma_refreshed_twice(
            rel.searches,
            next.searches,
            names_of(columns_of(rel)),
            rel.keys.len() as int,
            rows,
            0,
            Seq::empty(),
        );
        assert(columns_of(next) == columns_of(rel));
    }
}

} // verus!
