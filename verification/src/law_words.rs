//! What a search by words finds, and in which order.
use vstd::prelude::*;

use crate::codec::{all_sized_from, decode_row_of, encode_row_of, law_row_round_trip, sized};
use crate::error::Fault;
use crate::expr::{Ctx, add_of};
use crate::fts::{TokenV, texts_of, tokens_of, words_of};
use crate::search::{
    AskV, SpotsV, field_indexed, fields_indexed, found_from, hit_row, hits_from, indexed_from,
    occurrences, passes, posted_from, posting_key, posting_row, rank_of, score_from, spots_from,
    still, wanted_row,
};
use crate::store::{Lookup, RecordV, SearchV, in_order, law_put_rec, lookup_of, with_rec};
use crate::table::{ascending, law_sorted, sorted_of};
use crate::value::{Sign, Value, order, order_rows};

verus! {

/// How often a word is among words.
pub open spec fn times(ws: Seq<Seq<char>>, w: Seq<char>) -> nat
    decreases ws.len(),
{
    if ws.len() == 0 {
        0
    } else {
        times(ws.drop_last(), w) + if ws.last() == w {
            1nat
        } else {
            0nat
        }
    }
}

/// How often a word occurs in a row, by the records of an index.
pub open spec fn share(recs: Seq<RecordV>, w: Seq<char>, key: Seq<Value>) -> int {
    match occurrences(recs, posting_key(w, key)) {
        Ok(Value::Int(n)) => n as int,
        _ => 0,
    }
}

/// How often words occur in a row, taken together.
pub open spec fn tally(recs: Seq<RecordV>, ws: Seq<Seq<char>>, key: Seq<Value>) -> int
    decreases ws.len(),
{
    if ws.len() == 0 {
        0
    } else {
        tally(recs, ws.drop_last(), key) + share(recs, ws.last(), key)
    }
}

proof fn lemma_score(
    recs: Seq<RecordV>,
    ws: Seq<Seq<char>>,
    key: Seq<Value>,
    i: int,
    acc: Value,
    v: Value,
)
    requires
        0 <= i <= ws.len(),
        acc matches Value::Int(a) && a == tally(recs, ws.take(i), key),
        score_from(recs, ws, key, i, acc) == Ok::<Value, Fault>(v),
    ensures
        v matches Value::Int(n) && n == tally(recs, ws, key),
    decreases ws.len() - i,
{
    if i == ws.len() {
        assert(ws.take(i) =~= ws);
    } else {
        let n = occurrences(recs, posting_key(ws[i], key))->Ok_0;
        let next = add_of(acc, n)->Ok_0;
        assert(ws.take(i + 1).drop_last() =~= ws.take(i));
        assert(n is Int);
        lemma_score(recs, ws, key, i + 1, next, v);
    }
}

/// The score of a row is how often the words of the query occur in it, taken
/// together: every word counts.
pub proof fn law_every_word_counts(
    recs: Seq<RecordV>,
    ws: Seq<Seq<char>>,
    key: Seq<Value>,
    v: Value,
)
    requires
        score_from(recs, ws, key, 0, Value::Int(0)) == Ok::<Value, Fault>(v),
    ensures
        v matches Value::Int(n) && n == tally(recs, ws, key),
{
    assert(ws.take(0) =~= Seq::empty());
    lemma_score(recs, ws, key, 0, Value::Int(0), v);
}

proof fn lemma_tally_remove(recs: Seq<RecordV>, ws: Seq<Seq<char>>, key: Seq<Value>, k: int)
    requires
        0 <= k < ws.len(),
    ensures
        tally(recs, ws, key) == tally(recs, ws.remove(k), key) + share(recs, ws[k], key),
    decreases ws.len(),
{
    if k == ws.len() - 1 {
        assert(ws.remove(k) =~= ws.drop_last());
    } else {
        lemma_tally_remove(recs, ws.drop_last(), key, k);
        assert(ws.remove(k).drop_last() =~= ws.drop_last().remove(k));
        assert(ws.remove(k).last() == ws.last());
    }
}

proof fn lemma_tally_same(
    recs: Seq<RecordV>,
    ws: Seq<Seq<char>>,
    vs: Seq<Seq<char>>,
    key: Seq<Value>,
)
    requires
        ws.to_multiset() == vs.to_multiset(),
    ensures
        tally(recs, ws, key) == tally(recs, vs, key),
    decreases ws.len(),
{
    broadcast use vstd::seq_lib::group_to_multiset_ensures;

    assert(ws.len() == ws.to_multiset().len() && vs.len() == vs.to_multiset().len());
    if ws.len() > 0 {
        let w = ws.last();
        let k = ws.len() - 1;
        assert(ws.to_multiset().count(w) > 0);
        assert(vs.contains(w));
        let m = choose|m: int| 0 <= m < vs.len() && vs[m] == w;
        assert(ws.remove(k) =~= ws.drop_last());
        assert(ws.remove(k).to_multiset() =~= ws.to_multiset().remove(w));
        assert(vs.remove(m).to_multiset() =~= vs.to_multiset().remove(w));
        lemma_tally_same(recs, ws.remove(k), vs.remove(m), key);
        lemma_tally_remove(recs, ws, key, k);
        lemma_tally_remove(recs, vs, key, m);
    }
}

/// The score of a row does not depend on the order of the words of the query.
pub proof fn law_order_of_words_is_nothing(
    recs: Seq<RecordV>,
    ws: Seq<Seq<char>>,
    vs: Seq<Seq<char>>,
    key: Seq<Value>,
    a: Value,
    b: Value,
)
    requires
        ws.to_multiset() == vs.to_multiset(),
        score_from(recs, ws, key, 0, Value::Int(0)) == Ok::<Value, Fault>(a),
        score_from(recs, vs, key, 0, Value::Int(0)) == Ok::<Value, Fault>(b),
    ensures
        a == b,
{
    law_every_word_counts(recs, ws, key, a);
    law_every_word_counts(recs, vs, key, b);
    lemma_tally_same(recs, ws, vs, key);
}

/// One more word in the query raises the score of a row by as often as the word
/// occurs in it.
pub proof fn law_one_more_word_raises(
    recs: Seq<RecordV>,
    ws: Seq<Seq<char>>,
    w: Seq<char>,
    key: Seq<Value>,
    a: i64,
    b: i64,
)
    requires
        score_from(recs, ws, key, 0, Value::Int(0)) == Ok::<Value, Fault>(Value::Int(a)),
        score_from(recs, ws.push(w), key, 0, Value::Int(0)) == Ok::<Value, Fault>(Value::Int(b)),
    ensures
        b == a + share(recs, w, key),
{
    law_every_word_counts(recs, ws, key, Value::Int(a));
    law_every_word_counts(recs, ws.push(w), key, Value::Int(b));
    assert(ws.push(w).drop_last() =~= ws);
}

proof fn lemma_spots(ts: Seq<TokenV>, w: Seq<char>, i: int, acc: SpotsV)
    requires
        0 <= i <= ts.len(),
        acc.at.len() == times(texts_of(ts).take(i), w),
        acc.froms.len() == acc.at.len(),
        acc.tos.len() == acc.at.len(),
        forall|k: int| 0 <= k < acc.at.len() ==> #[trigger] acc.at[k] is Int,
        forall|k: int| 0 <= k < acc.at.len() ==> #[trigger] acc.froms[k] is Int,
        forall|k: int| 0 <= k < acc.at.len() ==> #[trigger] acc.tos[k] is Int,
    ensures
        ({
            let o = spots_from(ts, w, i, acc);
            &&& o.at.len() == times(texts_of(ts), w)
            &&& o.froms.len() == o.at.len()
            &&& o.tos.len() == o.at.len()
            &&& forall|k: int| 0 <= k < o.at.len() ==> #[trigger] o.at[k] is Int
            &&& forall|k: int| 0 <= k < o.at.len() ==> #[trigger] o.froms[k] is Int
            &&& forall|k: int| 0 <= k < o.at.len() ==> #[trigger] o.tos[k] is Int
        }),
    decreases ts.len() - i,
{
    let all = texts_of(ts);
    if i == ts.len() {
        assert(all.take(i) =~= all);
    } else {
        assert(all.take(i + 1).drop_last() =~= all.take(i));
        let next = if ts[i].text == w {
            SpotsV {
                froms: acc.froms.push(Value::Int(ts[i].from as i64)),
                tos: acc.tos.push(Value::Int(ts[i].to as i64)),
                at: acc.at.push(Value::Int(i as i64)),
            }
        } else {
            acc
        };
        lemma_spots(ts, w, i + 1, next);
    }
}

proof fn lemma_times_bound(ws: Seq<Seq<char>>, w: Seq<char>)
    ensures
        times(ws, w) <= ws.len(),
        times(ws, w) > 0 <==> ws.contains(w),
    decreases ws.len(),
{
    if ws.len() > 0 {
        lemma_times_bound(ws.drop_last(), w);
        if ws.contains(w) {
            let k = choose|k: int| 0 <= k < ws.len() && ws[k] == w;
            if k < ws.len() - 1 {
                assert(ws.drop_last()[k] == w);
            }
        }
        if ws.drop_last().contains(w) {
            let k = choose|k: int| 0 <= k < ws.len() - 1 && ws.drop_last()[k] == w;
            assert(ws[k] == w);
        }
        assert(ws[ws.len() - 1] == ws.last());
    }
}

proof fn lemma_ints_sized(l: Seq<Value>, i: int)
    requires
        0 <= i <= l.len(),
        forall|k: int| 0 <= k < l.len() ==> #[trigger] l[k] is Int,
    ensures
        all_sized_from(l, i),
    decreases l.len() - i,
{
    if i < l.len() {
        lemma_ints_sized(l, i + 1);
        assert(l[i] is Int);
        assert(sized(l[i]));
    }
}

/// What is kept of a word tells how often it occurs in the text.
proof fn lemma_posting(ts: Seq<TokenV>, w: Seq<char>)
    requires
        ts.len() <= i64::MAX,
    ensures
        decode_row_of(encode_row_of(posting_row(ts, w))) == Some(posting_row(ts, w)),
        posting_row(ts, w).len() == 4,
        posting_row(ts, w)[2] matches Value::List(at) && at.len() == times(texts_of(ts), w),
{
    let none = SpotsV { froms: Seq::empty(), tos: Seq::empty(), at: Seq::empty() };
    assert(texts_of(ts).take(0) =~= Seq::empty());
    lemma_spots(ts, w, 0, none);
    lemma_times_bound(texts_of(ts), w);
    let o = spots_from(ts, w, 0, none);
    let row = posting_row(ts, w);
    lemma_ints_sized(o.froms, 0);
    lemma_ints_sized(o.tos, 0);
    lemma_ints_sized(o.at, 0);
    assert(row.len() == 4);
    assert(sized(row[0]) && sized(row[1]) && sized(row[2]) && sized(row[3]));
    assert(all_sized_from(row, 4));
    assert(all_sized_from(row, 3));
    assert(all_sized_from(row, 2));
    assert(all_sized_from(row, 1));
    assert(all_sized_from(row, 0));
    law_row_round_trip(row);
}

proof fn lemma_posting_keys(w: Seq<char>, key: Seq<Value>, v: Seq<char>, other: Seq<Value>)
    ensures
        posting_key(w, key) == posting_key(v, other) <==> w == v && key == other,
{
    let a = posting_key(w, key);
    let b = posting_key(v, other);
    if a == b {
        assert(a[0] == b[0]);
        assert(key =~= a.skip(1));
        assert(other =~= b.skip(1));
    }
}

proof fn lemma_posted(
    recs: Seq<RecordV>,
    ts: Seq<TokenV>,
    key: Seq<Value>,
    i: int,
    w: Seq<char>,
    other: Seq<Value>,
)
    requires
        in_order(recs),
        0 <= i <= ts.len(),
    ensures
        in_order(posted_from(recs, ts, key, i)),
        lookup_of(posted_from(recs, ts, key, i), posting_key(w, other)) == if other == key
            && texts_of(ts).skip(i).contains(w) {
            Some(encode_row_of(posting_row(ts, w)))
        } else {
            lookup_of(recs, posting_key(w, other))
        },
    decreases ts.len() - i,
{
    let all = texts_of(ts);
    if i < ts.len() {
        let k = posting_key(ts[i].text, key);
        let blob = encode_row_of(posting_row(ts, ts[i].text));
        let next = with_rec(recs, k, blob);
        law_put_rec(recs, k, blob, posting_key(w, other));
        lemma_posting_keys(ts[i].text, key, w, other);
        lemma_posted(next, ts, key, i + 1, w, other);
        let tail = all.skip(i);
        let less = all.skip(i + 1);
        assert(tail.contains(w) <==> ts[i].text == w || less.contains(w)) by {
            if tail.contains(w) {
                let m = choose|m: int| 0 <= m < tail.len() && tail[m] == w;
                if m > 0 {
                    assert(less[m - 1] == w);
                }
            }
            if less.contains(w) {
                let m = choose|m: int| 0 <= m < less.len() && less[m] == w;
                assert(tail[m + 1] == w);
            }
            assert(tail[0] == ts[i].text);
        }
    }
}

/// The words that an index keeps of a row.
pub open spec fn row_words(s: SearchV, cols: Seq<Seq<char>>, row: Seq<Value>) -> Seq<Seq<char>> {
    if passes(s.filter, cols, row, still()) == Ok::<bool, Fault>(true) && s.fields[0] < row.len() {
        match row[s.fields[0] as int] {
            Value::Str(t) => words_of(t, s.filters),
            _ => Seq::empty(),
        }
    } else {
        Seq::empty()
    }
}

/// Whether rows differ in their keys, and no text has more words than can be
/// counted.
pub open spec fn well_keyed(
    s: SearchV,
    cols: Seq<Seq<char>>,
    nk: int,
    rows: Seq<Seq<Value>>,
) -> bool {
    &&& forall|i: int| 0 <= i < rows.len() ==> nk <= (#[trigger] rows[i]).len()
    &&& forall|i: int, j: int|
        0 <= i < j < rows.len() ==> (#[trigger] rows[i]).take(nk) != (#[trigger] rows[j]).take(nk)
    &&& forall|i: int|
        0 <= i < rows.len() ==> row_words(s, cols, #[trigger] rows[i]).len() <= i64::MAX
}

/// Whether records tell how often each word is in each of the first `n` rows.
spec fn counts(
    s: SearchV,
    cols: Seq<Seq<char>>,
    nk: int,
    rows: Seq<Seq<Value>>,
    n: int,
    recs: Seq<RecordV>,
) -> bool {
    &&& in_order(recs)
    &&& forall|i: int, w: Seq<char>|
        0 <= i < n ==> #[trigger] occurrences(recs, posting_key(w, rows[i].take(nk))) == Ok::<
            Value,
            Fault,
        >(Value::Int(times(row_words(s, cols, rows[i]), w) as i64))
    &&& forall|i: int, w: Seq<char>|
        n <= i < rows.len() ==> #[trigger] lookup_of(recs, posting_key(w, rows[i].take(nk))) is None
}

proof fn lemma_indexed(
    s: SearchV,
    cols: Seq<Seq<char>>,
    nk: int,
    rows: Seq<Seq<Value>>,
    i: int,
    recs: Seq<RecordV>,
    out: Seq<RecordV>,
)
    requires
        s.kind == Lookup::Words,
        s.fields.len() == 1,
        0 <= nk,
        well_keyed(s, cols, nk, rows),
        0 <= i <= rows.len(),
        counts(s, cols, nk, rows, i, recs),
        indexed_from(s, cols, nk, rows, i, recs) == Ok::<Seq<RecordV>, Fault>(out),
    ensures
        counts(s, cols, nk, rows, rows.len() as int, out),
    decreases rows.len() - i,
{
    if i < rows.len() {
        let row = rows[i];
        let key = row.take(nk);
        let ws = row_words(s, cols, row);
        let pass = passes(s.filter, cols, row, still())->Ok_0;
        let next = if pass {
            fields_indexed(s, key, row, 0, recs)
        } else {
            recs
        };
        assert(fields_indexed(s, key, row, 1, field_indexed(s, key, row, 0, recs)) == field_indexed(
            s,
            key,
            row,
            0,
            recs,
        ));
        assert(in_order(next)) by {
            if pass && s.fields[0] < row.len() {
                if let Value::Str(t) = row[s.fields[0] as int] {
                    lemma_posted(recs, tokens_of(t, s.filters), key, 0, Seq::empty(), key);
                }
            }
        }
        assert forall|w: Seq<char>, other: Seq<Value>| #[trigger]
            lookup_of(next, posting_key(w, other)) == if other == key && ws.contains(w) {
                Some(encode_row_of(posting_row(row_tokens(s, row), w)))
            } else {
                lookup_of(recs, posting_key(w, other))
            } by {
            if pass && s.fields[0] < row.len() {
                if let Value::Str(t) = row[s.fields[0] as int] {
                    let ts = tokens_of(t, s.filters);
                    lemma_posted(recs, ts, key, 0, w, other);
                    assert(texts_of(ts).skip(0) =~= texts_of(ts));
                }
            }
        }
        assert forall|j: int, w: Seq<char>| 0 <= j < i + 1 implies #[trigger] occurrences(
            next,
            posting_key(w, rows[j].take(nk)),
        ) == Ok::<Value, Fault>(Value::Int(times(row_words(s, cols, rows[j]), w) as i64)) by {
            let other = rows[j].take(nk);
            assert(lookup_of(next, posting_key(w, other)) == lookup_of(
                next,
                posting_key(w, other),
            ));
            if j < i {
                assert(other != key);
                assert(occurrences(recs, posting_key(w, rows[j].take(nk))) == Ok::<Value, Fault>(
                    Value::Int(times(row_words(s, cols, rows[j]), w) as i64),
                ));
            } else {
                lemma_times_bound(ws, w);
                assert(lookup_of(recs, posting_key(w, rows[i].take(nk))) is None);
                if ws.contains(w) {
                    lemma_posting(row_tokens(s, row), w);
                }
            }
        }
        assert forall|j: int, w: Seq<char>| i + 1 <= j < rows.len() implies #[trigger] lookup_of(
            next,
            posting_key(w, rows[j].take(nk)),
        ) is None by {
            assert(rows[i].take(nk) != rows[j].take(nk));
            assert(lookup_of(recs, posting_key(w, rows[j].take(nk))) is None);
        }
        lemma_indexed(s, cols, nk, rows, i + 1, next, out);
    }
}

/// The tokens of the text of a row.
spec fn row_tokens(s: SearchV, row: Seq<Value>) -> Seq<TokenV> {
    tokens_of(row[s.fields[0] as int]->Str_0, s.filters)
}

/// An index by words tells of each row how often each word is in its text, and
/// never of the rows that its filter leaves out.
pub proof fn law_index_counts_words(
    s: SearchV,
    cols: Seq<Seq<char>>,
    nk: int,
    rows: Seq<Seq<Value>>,
    recs: Seq<RecordV>,
    i: int,
    w: Seq<char>,
)
    requires
        s.kind == Lookup::Words,
        s.fields.len() == 1,
        0 <= nk,
        well_keyed(s, cols, nk, rows),
        indexed_from(s, cols, nk, rows, 0, Seq::empty()) == Ok::<Seq<RecordV>, Fault>(recs),
        0 <= i < rows.len(),
    ensures
        share(recs, w, rows[i].take(nk)) == times(row_words(s, cols, rows[i]), w),
{
    let none = Seq::<RecordV>::empty();
    assert forall|j: int, v: Seq<char>| 0 <= j < rows.len() implies #[trigger] lookup_of(
        none,
        posting_key(v, rows[j].take(nk)),
    ) is None by {}
    lemma_indexed(s, cols, nk, rows, 0, none, recs);
    lemma_times_bound(row_words(s, cols, rows[i]), w);
    assert(occurrences(recs, posting_key(w, rows[i].take(nk))) == Ok::<Value, Fault>(
        Value::Int(times(row_words(s, cols, rows[i]), w) as i64),
    ));
}

/// How often the words of a query are in a text, taken together.
pub open spec fn hits_in(query: Seq<Seq<char>>, text: Seq<Seq<char>>) -> nat
    decreases query.len(),
{
    if query.len() == 0 {
        0
    } else {
        hits_in(query.drop_last(), text) + times(text, query.last())
    }
}

proof fn lemma_tally_is_hits(
    s: SearchV,
    cols: Seq<Seq<char>>,
    nk: int,
    rows: Seq<Seq<Value>>,
    recs: Seq<RecordV>,
    i: int,
    ws: Seq<Seq<char>>,
)
    requires
        s.kind == Lookup::Words,
        s.fields.len() == 1,
        0 <= nk,
        well_keyed(s, cols, nk, rows),
        indexed_from(s, cols, nk, rows, 0, Seq::empty()) == Ok::<Seq<RecordV>, Fault>(recs),
        0 <= i < rows.len(),
    ensures
        tally(recs, ws, rows[i].take(nk)) == hits_in(ws, row_words(s, cols, rows[i])),
    decreases ws.len(),
{
    if ws.len() > 0 {
        lemma_tally_is_hits(s, cols, nk, rows, recs, i, ws.drop_last());
        law_index_counts_words(s, cols, nk, rows, recs, i, ws.last());
    }
}

/// A search by words finds the rows in whose text a word of the query is, and no
/// others; it tells of each how often the words of the query are in its text.
pub proof fn law_rows_with_words_are_found(
    s: SearchV,
    cols: Seq<Seq<char>>,
    nk: int,
    rows: Seq<Seq<Value>>,
    i: int,
    j: int,
    q: Seq<char>,
    r: Option<Seq<Value>>,
)
    requires
        s.kind == Lookup::Words,
        s.fields.len() == 1,
        0 <= nk,
        well_keyed(s, cols, nk, rows),
        indexed_from(s, cols, nk, rows, 0, Seq::empty()) == Ok::<Seq<RecordV>, Fault>(s.recs),
        0 <= i < rows.len(),
        rank_of(s, rows[i].take(nk), j, Value::Str(q)) == Ok::<Option<Seq<Value>>, Fault>(r),
    ensures
        r is Some <==> hits_in(words_of(q, s.filters), row_words(s, cols, rows[i])) > 0,
        r matches Some(x) ==> x.len() == 3 && (x[1] matches Value::Int(n) && n == hits_in(
            words_of(q, s.filters),
            row_words(s, cols, rows[i]),
        )),
{
    let key = rows[i].take(nk);
    let ws = words_of(q, s.filters);
    let v = score_from(s.recs, ws, key, 0, Value::Int(0))->Ok_0;
    law_every_word_counts(s.recs, ws, key, v);
    lemma_tally_is_hits(s, cols, nk, rows, s.recs, i, ws);
}

/// What is told of a row that was found, before its rank is left off.
pub open spec fn told(hit: Seq<Value>) -> Value {
    hit[hit.len() - 2]
}

/// Whether a row that was found has no lesser score than another.
pub open spec fn scores_no_less(a: Seq<Value>, b: Seq<Value>) -> bool {
    match (told(a), told(b)) {
        (Value::Int(x), Value::Int(y)) => x >= y,
        _ => false,
    }
}

/// Whether a row that was found by words is ranked by its score.
spec fn ranked(hit: Seq<Value>) -> bool {
    hit.len() >= 3 && (told(hit) matches Value::Int(v) && hit[0] == Value::Int((-v) as i64) && v
        > i64::MIN)
}

proof fn lemma_hits_ranked(
    s: SearchV,
    cols: Seq<Seq<char>>,
    key: Seq<Value>,
    row: Seq<Value>,
    a: AskV,
    ctx: Ctx,
    j: int,
    acc: Seq<Seq<Value>>,
    out: Seq<Seq<Value>>,
)
    requires
        s.kind == Lookup::Words,
        0 <= j,
        forall|i: int| 0 <= i < acc.len() ==> ranked(#[trigger] acc[i]),
        hits_from(s, cols, key, row, a, ctx, j, acc) == Ok::<Seq<Seq<Value>>, Fault>(out),
    ensures
        forall|i: int| 0 <= i < out.len() ==> ranked(#[trigger] out[i]),
    decreases s.fields.len() - j,
{
    if j < s.fields.len() {
        match rank_of(s, key, j, a.query)->Ok_0 {
            None => lemma_hits_ranked(s, cols, key, row, a, ctx, j + 1, acc, out),
            Some(r) => {
                let hit = hit_row(r, row);
                let ws = words_of(a.query->Str_0, s.filters);
                let v = score_from(s.recs, ws, key, 0, Value::Int(0))->Ok_0;
                law_every_word_counts(s.recs, ws, key, v);
                assert(r.len() == 3 && r[1] == v);
                assert(hit.len() == row.len() + 3);
                assert(hit[0] == r[0]);
                assert(hit[hit.len() - 2] == r.skip(1)[0]);
                assert(ranked(hit));
                if wanted_row(a, cols, row, r[1], ctx)->Ok_0 {
                    lemma_hits_ranked(s, cols, key, row, a, ctx, j + 1, acc.push(hit), out);
                } else {
                    lemma_hits_ranked(s, cols, key, row, a, ctx, j + 1, acc, out);
                }
            },
        }
    }
}

proof fn lemma_found_ranked(
    s: SearchV,
    cols: Seq<Seq<char>>,
    nk: int,
    rows: Seq<Seq<Value>>,
    a: AskV,
    ctx: Ctx,
    i: int,
    acc: Seq<Seq<Value>>,
    out: Seq<Seq<Value>>,
)
    requires
        s.kind == Lookup::Words,
        0 <= i,
        forall|k: int| 0 <= k < acc.len() ==> ranked(#[trigger] acc[k]),
        found_from(s, cols, nk, rows, a, ctx, i, acc) == Ok::<Seq<Seq<Value>>, Fault>(out),
    ensures
        forall|k: int| 0 <= k < out.len() ==> ranked(#[trigger] out[k]),
    decreases rows.len() - i,
{
    if i < rows.len() {
        if nk > rows[i].len() {
            lemma_found_ranked(s, cols, nk, rows, a, ctx, i + 1, acc, out);
        } else {
            let more = hits_from(s, cols, rows[i].take(nk), rows[i], a, ctx, 0, acc)->Ok_0;
            lemma_hits_ranked(s, cols, rows[i].take(nk), rows[i], a, ctx, 0, acc, more);
            lemma_found_ranked(s, cols, nk, rows, a, ctx, i + 1, more, out);
        }
    }
}

/// Of the rows that a search by words finds, those with the greater score come
/// first: what is cut off by a limit has no greater score than what is shown.
pub proof fn law_best_scores_come_first(
    s: SearchV,
    cols: Seq<Seq<char>>,
    nk: int,
    rows: Seq<Seq<Value>>,
    a: AskV,
    ctx: Ctx,
    ranks: Seq<Seq<Value>>,
)
    requires
        s.kind == Lookup::Words,
        found_from(s, cols, nk, rows, a, ctx, 0, Seq::empty()) == Ok::<Seq<Seq<Value>>, Fault>(
            ranks,
        ),
    ensures
        forall|i: int, j: int|
            0 <= i < j < sorted_of(ranks).len() ==> scores_no_less(
                #[trigger] sorted_of(ranks)[i],
                #[trigger] sorted_of(ranks)[j],
            ),
{
    lemma_found_ranked(s, cols, nk, rows, a, ctx, 0, Seq::empty(), ranks);
    law_sorted(ranks);
    let out = sorted_of(ranks);
    assert forall|i: int, j: int| 0 <= i < j < out.len() implies scores_no_less(
        #[trigger] out[i],
        #[trigger] out[j],
    ) by {
        assert(out.contains(out[i]) && out.contains(out[j]));
        assert(ranks.contains(out[i]) && ranks.contains(out[j]));
        assert(ranked(out[i]) && ranked(out[j]));
        assert(order_rows(out[i], out[j], 0) == Sign::Less);
        assert(order(out[i][0], out[j][0]) != Sign::More);
    }
}

} // verus!
