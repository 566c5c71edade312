//! What a search answers where the records of its index cannot be read.
use vstd::prelude::*;

use crate::bind::{plan_of, sought, sought_from, terms_of, told_terms};
use crate::error::{ErrKind, Fault, fault};
use crate::expr::{Ctx, add_of};
use crate::fixtures::{garbage, garbled, law_garbage_cannot_be_read, with_garbled};
use crate::fts::words_of;
use crate::law_reconcile::lemma_place_kept;
use crate::query::{FieldV, FieldsV};
use crate::scan::{SourceV, rel_rows};
use crate::search::{
    AskV, asked, found, found_from, hits_from, occurrences, posting_key, rank_of, score_from,
    search_from,
};
use crate::store::{
    Lookup, RecordV, RelationV, SearchV, columns_of, lemma_rel_from, lookup_of, names_of,
    rec_slot_from, rel_place,
};
use crate::table::sorted_of;
use crate::value::Value;

verus! {

/// Whether what is searched for is of the kind that an index finds.
pub open spec fn can_ask(s: SearchV, query: Value) -> bool {
    match s.kind {
        Lookup::Words => query is Str,
        Lookup::Vectors => query is List,
        Lookup::Similar => query is Str,
    }
}

/// Whether ranking a row by its field `j` reads a record of an index.
pub open spec fn reads_record(s: SearchV, key: Seq<Value>, j: int, query: Value) -> bool {
    match (s.kind, query) {
        (Lookup::Words, Value::Str(q)) => exists|i: int|
            0 <= i < words_of(q, s.filters).len() && lookup_of(
                s.recs,
                posting_key(#[trigger] words_of(q, s.filters)[i], key),
            ) is Some,
        (Lookup::Vectors, _) => lookup_of(s.recs, key.push(Value::Int(j as i64))) is Some,
        _ => lookup_of(s.recs, key) is Some,
    }
}

/// Whether a search among rows reads a record of its index.
pub open spec fn search_reads(
    s: SearchV,
    nk: int,
    rows: Seq<Seq<Value>>,
    query: Value,
) -> bool {
    exists|i: int, j: int|
        0 <= i < rows.len() && nk <= rows[i].len() && 0 <= j < s.fields.len()
            && #[trigger] reads_record(s, rows[i].take(nk), j, query)
}

proof fn lemma_slot_kept(recs: Seq<RecordV>, key: Seq<Value>, i: int)
    requires
        0 <= i <= recs.len(),
    ensures
        rec_slot_from(garbled(recs), key, i) == rec_slot_from(recs, key, i),
        0 <= rec_slot_from(recs, key, i) <= recs.len(),
    decreases i,
{
    if i > 0 {
        lemma_slot_kept(recs, key, i - 1);
    }
}

proof fn lemma_garbled_lookup(recs: Seq<RecordV>, key: Seq<Value>)
    ensures
        lookup_of(garbled(recs), key) == if lookup_of(recs, key) is Some {
            Some(garbage())
        } else {
            None
        },
{
    lemma_slot_kept(recs, key, recs.len() as int);
}

proof fn lemma_garbled_score(
    recs: Seq<RecordV>,
    ws: Seq<Seq<char>>,
    key: Seq<Value>,
    i: int,
)
    requires
        0 <= i <= ws.len(),
    ensures
        score_from(garbled(recs), ws, key, i, Value::Int(0)) == if exists|n: int|
            i <= n < ws.len() && lookup_of(recs, posting_key(#[trigger] ws[n], key)) is Some {
            Err::<Value, Fault>(fault(ErrKind::CorruptBlob))
        } else {
            Ok::<Value, Fault>(Value::Int(0))
        },
    decreases ws.len() - i,
{
    if i < ws.len() {
        law_garbage_cannot_be_read();
        lemma_garbled_lookup(recs, posting_key(ws[i], key));
        lemma_garbled_score(recs, ws, key, i + 1);
        assert(add_of(Value::Int(0), Value::Int(0)) == Ok::<Value, Fault>(Value::Int(0)));
        if lookup_of(recs, posting_key(ws[i], key)) is Some {
            assert(occurrences(garbled(recs), posting_key(ws[i], key)) == Err::<Value, Fault>(
                fault(ErrKind::CorruptBlob),
            ));
        }
    }
}

/// An index by content with unreadable records.
spec fn garbled_search(s: SearchV) -> SearchV {
    SearchV { recs: garbled(s.recs), ..s }
}

proof fn lemma_garbled_rank(s: SearchV, key: Seq<Value>, j: int, query: Value)
    requires
        can_ask(s, query),
    ensures
        rank_of(garbled_search(s), key, j, query) == if reads_record(s, key, j, query) {
            Err::<Option<Seq<Value>>, Fault>(fault(ErrKind::CorruptBlob))
        } else {
            Ok::<Option<Seq<Value>>, Fault>(None)
        },
{
    law_garbage_cannot_be_read();
    lemma_garbled_lookup(s.recs, key);
    lemma_garbled_lookup(s.recs, key.push(Value::Int(j as i64)));
    if let Value::Str(q) = query {
        lemma_garbled_score(s.recs, words_of(q, s.filters), key, 0);
    }
}

proof fn lemma_garbled_hits(
    s: SearchV,
    cols: Seq<Seq<char>>,
    key: Seq<Value>,
    row: Seq<Value>,
    a: AskV,
    ctx: Ctx,
    j: int,
    acc: Seq<Seq<Value>>,
)
    requires
        can_ask(s, a.query),
        0 <= j,
    ensures
        hits_from(garbled_search(s), cols, key, row, a, ctx, j, acc) == if exists|m: int|
            j <= m < s.fields.len() && #[trigger] reads_record(s, key, m, a.query) {
            Err::<Seq<Seq<Value>>, Fault>(fault(ErrKind::CorruptBlob))
        } else {
            Ok::<Seq<Seq<Value>>, Fault>(acc)
        },
    decreases s.fields.len() - j,
{
    if j < s.fields.len() {
        lemma_garbled_rank(s, key, j, a.query);
        lemma_garbled_hits(s, cols, key, row, a, ctx, j + 1, acc);
    }
}

proof fn lemma_garbled_found(
    s: SearchV,
    cols: Seq<Seq<char>>,
    nk: int,
    rows: Seq<Seq<Value>>,
    a: AskV,
    ctx: Ctx,
    i: int,
    acc: Seq<Seq<Value>>,
)
    requires
        can_ask(s, a.query),
        0 <= i,
    ensures
        found_from(garbled_search(s), cols, nk, rows, a, ctx, i, acc) == if exists|n: int, j: int|
            i <= n < rows.len() && nk <= rows[n].len() && 0 <= j < s.fields.len()
                && #[trigger] reads_record(s, rows[n].take(nk), j, a.query) {
            Err::<Seq<Seq<Value>>, Fault>(fault(ErrKind::CorruptBlob))
        } else {
            Ok::<Seq<Seq<Value>>, Fault>(acc)
        },
    decreases rows.len() - i,
{
    if i < rows.len() {
        if nk <= rows[i].len() {
            lemma_garbled_hits(s, cols, rows[i].take(nk), rows[i], a, ctx, 0, acc);
        }
        lemma_garbled_found(s, cols, nk, rows, a, ctx, i + 1, acc);
    }
}

/// Once the records of an index cannot be read, a search fails if and only if it
/// reads one of them, and tells that the record is corrupt; else it finds
/// nothing.
pub proof fn law_corrupt_search_fails(
    s: SearchV,
    cols: Seq<Seq<char>>,
    nk: int,
    rows: Seq<Seq<Value>>,
    a: AskV,
    ctx: Ctx,
)
    requires
        can_ask(s, a.query),
    ensures
        found(SearchV { recs: garbled(s.recs), ..s }, cols, nk, rows, a, ctx) == if search_reads(
            s,
            nk,
            rows,
            a.query,
        ) {
            Err::<Seq<Seq<Value>>, Fault>(fault(ErrKind::CorruptBlob))
        } else {
            Ok::<Seq<Seq<Value>>, Fault>(Seq::empty())
        },
{
    lemma_garbled_found(s, cols, nk, rows, a, ctx, 0, Seq::empty());
    assert(sorted_of(Seq::empty()) =~= Seq::<Seq<Value>>::empty());
}

proof fn lemma_search_kept(rel: RelationV, k: int, name: Seq<char>, i: int)
    requires
        0 <= k < rel.searches.len(),
        0 <= i,
    ensures
        search_from(with_garbled(rel, k).searches, name, i) == search_from(rel.searches, name, i),
    decreases rel.searches.len() - i,
{
    if i < rel.searches.len() {
        lemma_search_kept(rel, k, name, i + 1);
    }
}

proof fn lemma_search_found(ss: Seq<SearchV>, name: Seq<char>, i: int)
    requires
        0 <= i <= ss.len(),
    ensures
        i <= search_from(ss, name, i) <= ss.len(),
    decreases ss.len() - i,
{
    if i < ss.len() {
        lemma_search_found(ss, name, i + 1);
    }
}

/// A condition of a query that searches an index whose records cannot be read
/// fails where the search for its first row reads one of them.
pub proof fn law_corrupt_index_fails(
    rels: Seq<RelationV>,
    b: SourceV,
    base: Seq<char>,
    index: Seq<char>,
    fields: Seq<FieldV>,
    opts: Seq<FieldV>,
    ctx: Ctx,
    rows: Seq<Seq<Value>>,
    a: AskV,
)
    requires
        rel_place(rels, base) < rels.len(),
        ({
            let rel = rels[rel_place(rels, base)];
            let k = search_from(rel.searches, index, 0);
            &&& k < rel.searches.len()
            &&& rel_rows(rel, None, None, None) == Ok::<Seq<Seq<Value>>, Fault>(rows)
            &&& terms_of(FieldsV::Names(fields), names_of(columns_of(rel))) is Ok
            &&& b.rows.len() > 0
            &&& asked(opts, b.cols, b.rows[0], ctx) == Ok::<AskV, Fault>(a)
            &&& can_ask(rel.searches[k], a.query)
            &&& search_reads(rel.searches[k], rel.keys.len() as int, rows, a.query)
        }),
    ensures
        ({
            let p = rel_place(rels, base);
            let k = search_from(rels[p].searches, index, 0);
            sought(
                rels.update(p, with_garbled(rels[p], k)),
                b,
                base,
                index,
                fields,
                opts,
                ctx,
            ) == Err::<SourceV, Fault>(fault(ErrKind::CorruptBlob))
        }),
{
    let p = rel_place(rels, base);
    lemma_rel_from(rels, base, 0);
    let rel = rels[p];
    let k = search_from(rel.searches, index, 0);
    lemma_search_found(rel.searches, index, 0);
    let bad = with_garbled(rel, k);
    let next = rels.update(p, bad);
    lemma_place_kept(rels, p, bad, base, 0);
    lemma_search_kept(rel, k, index, 0);
    let cols = names_of(columns_of(rel));
    let nk = rel.keys.len() as int;
    assert(columns_of(bad) == columns_of(rel));
    assert(rel_rows(bad, None, None, None) == rel_rows(rel, None, None, None));
    law_corrupt_search_fails(rel.searches[k], cols, nk, rows, a, ctx);
    let terms = terms_of(FieldsV::Names(fields), cols)->Ok_0;
    let plan = plan_of(terms + told_terms(opts), b.cols);
    assert(sought_from(
        bad.searches[k],
        cols,
        nk,
        rows,
        opts,
        plan,
        b,
        0,
        ctx,
        Seq::empty(),
    ) == Err::<Seq<Seq<Value>>, Fault>(fault(ErrKind::CorruptBlob)));
}

} // verus!
