//! Indices by content: texts by their words, vectors by their distance, and
//! texts that are nearly the same.
use vstd::prelude::*;

use crate::bind::{option, option_of};
use crate::codec::{decode_row, decode_row_of, encode_row, encode_row_of};
use crate::error::{DbError, ErrKind, Fault, err, err_on, fault, fault_on, outcome, outcome_opt};
use crate::expr::{
    Ctx, Expr, ExprV, add_of, add_values, compare_loose, eval, eval_of, is_number, loose_order,
    number, sub_of, sub_values,
};
use crate::fts::{Token, TokenV, push_char, tokens, tokens_of, words, words_of};
use crate::list::{Dup, List, opt_of};
use crate::parse::pushed;
use crate::query::{Field, FieldV};
use crate::store::{Lookup, Record, RecordV, Search, SearchV, lookup, lookup_of, put_rec, with_rec};
use crate::table::{Rows, add_row, joined, prefix, sorted, sorted_of, with_row};
use crate::value::{
    DataValue, Sign, Tuple, UNIT, Value, chars_of, elements, list_value, same, values_of,
};
use crate::vector::{distance, distance_of};

verus! {

/// Where a word occurs in a text: where it begins and ends, and which word of
/// the text it is.
pub struct Spots {
    pub froms: Tuple,
    pub tos: Tuple,
    pub at: Tuple,
}

/// The mathematical counterpart of [`Spots`].
#[verifier::ext_equal]
pub struct SpotsV {
    pub froms: Seq<Value>,
    pub tos: Seq<Value>,
    pub at: Seq<Value>,
}

impl View for Spots {
    type V = SpotsV;

    open spec fn view(&self) -> SpotsV {
        SpotsV { froms: self.froms@, tos: self.tos@, at: self.at@ }
    }
}

/// Where a word occurs from place `i` on, after `acc`.
pub open spec fn spots_from(ts: Seq<TokenV>, w: Seq<char>, i: int, acc: SpotsV) -> SpotsV
    decreases ts.len() - i,
{
    if i < 0 || i >= ts.len() {
        acc
    } else if ts[i].text == w {
        spots_from(
            ts,
            w,
            i + 1,
            SpotsV {
                froms: acc.froms.push(Value::Int(ts[i].from as i64)),
                tos: acc.tos.push(Value::Int(ts[i].to as i64)),
                at: acc.at.push(Value::Int(i as i64)),
            },
        )
    } else {
        spots_from(ts, w, i + 1, acc)
    }
}

/// What is kept of a word of a text: where it occurs, and how many words the
/// text has.
pub open spec fn posting_row(ts: Seq<TokenV>, w: Seq<char>) -> Seq<Value> {
    let o = spots_from(
        ts,
        w,
        0,
        SpotsV { froms: Seq::empty(), tos: Seq::empty(), at: Seq::empty() },
    );
    seq![Value::List(o.froms), Value::List(o.tos), Value::List(o.at), Value::Int(ts.len() as i64)]
}

fn row_of_posting(ts: &List<Token>, w: &String) -> (r: Tuple)
    ensures
        r@ == posting_row(ts@, w@),
{
    let mut acc = Spots { froms: List::new(), tos: List::new(), at: List::new() };
    let ghost first = acc@;
    let mut i: usize = 0;
    while i < ts.len()
        invariant
            i <= ts@.len(),
            spots_from(ts@, w@, 0, first) == spots_from(ts@, w@, i as int, acc@),
        decreases ts@.len() - i,
    {
        let t = ts.get(i);
        if t.text == *w {
            acc.froms.push(DataValue::Int(t.offset_from as i64));
            acc.tos.push(DataValue::Int(t.offset_to as i64));
            acc.at.push(DataValue::Int(i as i64));
        }
        i = i + 1;
    }
    let mut r: Tuple = List::new();
    r.push(list_value(acc.froms));
    r.push(list_value(acc.tos));
    r.push(list_value(acc.at));
    r.push(DataValue::Int(ts.len() as i64));
    assert(r@ =~= posting_row(ts@, w@));
    r
}

/// The key under which a word of a row is kept.
pub open spec fn posting_key(w: Seq<char>, key: Seq<Value>) -> Seq<Value> {
    seq![Value::Str(w)] + key
}

fn key_of_posting(w: &String, key: &Tuple) -> (r: Tuple)
    ensures
        r@ == posting_key(w@, key@),
{
    let mut head: Tuple = List::new();
    head.push(DataValue::Str(w.clone()));
    assert(head@ =~= seq![Value::Str(w@)]);
    joined(&head, key)
}

/// Records with the words from place `i` on.
pub open spec fn posted_from(
    recs: Seq<RecordV>,
    ts: Seq<TokenV>,
    key: Seq<Value>,
    i: int,
) -> Seq<RecordV>
    decreases ts.len() - i,
{
    if i < 0 || i >= ts.len() {
        recs
    } else {
        posted_from(
            with_rec(
                recs,
                posting_key(ts[i].text, key),
                encode_row_of(posting_row(ts, ts[i].text)),
            ),
            ts,
            key,
            i + 1,
        )
    }
}

fn post(recs: List<Record>, ts: &List<Token>, key: &Tuple) -> (r: List<Record>)
    ensures
        r@ == posted_from(recs@, ts@, key@, 0),
{
    let ghost first = recs@;
    let mut out = recs;
    let mut i: usize = 0;
    while i < ts.len()
        invariant
            i <= ts@.len(),
            posted_from(first, ts@, key@, 0) == posted_from(out@, ts@, key@, i as int),
        decreases ts@.len() - i,
    {
        let w = &ts.get(i).text;
        put_rec(&mut out, key_of_posting(w, key), encode_row(&row_of_posting(ts, w)));
        i = i + 1;
    }
    out
}

/// The parts of a text that runs are made of: its characters or its words.
pub open spec fn parts_of(s: SearchV, text: Seq<char>) -> Seq<Seq<char>> {
    if s.chars {
        Seq::new(text.len(), |i: int| seq![text[i]])
    } else {
        words_of(text, s.filters)
    }
}

/// A run of parts from place `i` up to `end`, after `acc`.
pub open spec fn run_from(
    parts: Seq<Seq<char>>,
    i: int,
    end: int,
    glue: Seq<char>,
    acc: Seq<char>,
) -> Seq<char>
    decreases end - i,
{
    if i < 0 || i >= end || i >= parts.len() {
        acc
    } else if acc.len() == 0 {
        run_from(parts, i + 1, end, glue, acc + parts[i])
    } else {
        run_from(parts, i + 1, end, glue, acc + glue + parts[i])
    }
}

/// What stands between the parts of a run.
pub open spec fn glue_of(s: SearchV) -> Seq<char> {
    if s.chars {
        ""@
    } else {
        " "@
    }
}

/// The runs of `n` parts that begin at place `i` or later, after `acc`; where
/// there are fewer parts, they make one run.
pub open spec fn runs_from(
    parts: Seq<Seq<char>>,
    n: int,
    glue: Seq<char>,
    i: int,
    acc: Seq<Seq<Value>>,
) -> Seq<Seq<Value>>
    decreases parts.len() - i,
{
    if i < 0 || i >= parts.len() || (i > 0 && n > parts.len() - i) {
        acc
    } else {
        runs_from(
            parts,
            n,
            glue,
            i + 1,
            with_row(acc, seq![Value::Str(run_from(parts, i, i + n, glue, Seq::empty()))]),
        )
    }
}

/// The first values of rows.
pub open spec fn firsts_from(rows: Seq<Seq<Value>>, i: int, acc: Seq<Value>) -> Seq<Value>
    decreases rows.len() - i,
{
    if i < 0 || i >= rows.len() {
        acc
    } else if rows[i].len() == 0 {
        firsts_from(rows, i + 1, acc)
    } else {
        firsts_from(rows, i + 1, acc.push(rows[i][0]))
    }
}

/// The runs of a text, each once and in order.
pub open spec fn runs_of(s: SearchV, text: Seq<char>) -> Seq<Value> {
    firsts_from(
        runs_from(parts_of(s, text), s.gram as int, glue_of(s), 0, Seq::empty()),
        0,
        Seq::empty(),
    )
}

fn split(s: &Search, text: &str) -> (r: List<String>)
    ensures
        r@ == parts_of(s@, text@),
{
    if s.chars {
        let c = chars_of(text);
        let mut r: List<String> = List::new();
        let mut i: usize = 0;
        while i < c.len()
            invariant
                i <= c@.len(),
                c@ == text@,
                s@.chars,
                r@ =~= parts_of(s@, text@).take(i as int),
            decreases c@.len() - i,
        {
            let mut one = String::new();
            push_char(&mut one, c[i]);
            assert(one@ =~= seq![text@[i as int]]);
            r.push(one);
            i = i + 1;
        }
        assert(parts_of(s@, text@).take(i as int) =~= parts_of(s@, text@));
        r
    } else {
        words(text, &s.filters)
    }
}

fn run(parts: &List<String>, i: usize, n: u64, glue: &str) -> (r: String)
    requires
        i < parts@.len(),
    ensures
        r@ == run_from(parts@, i as int, i + n, glue@, Seq::empty()),
{
    let ghost end = i + n;
    let mut acc = String::new();
    let mut empty: bool = true;
    let mut k: usize = i;
    assert(acc@ =~= Seq::<char>::empty());
    while k < parts.len() && ((k - i) as u64) < n
        invariant
            i <= k <= parts@.len(),
            end == i + n,
            k <= end,
            empty == (acc@.len() == 0),
            run_from(parts@, i as int, end, glue@, Seq::empty()) == run_from(
                parts@,
                k as int,
                end,
                glue@,
                acc@,
            ),
        decreases parts@.len() - k,
    {
        if !empty {
            acc = acc.concat(glue);
        }
        acc = acc.concat(parts.get(k).as_str());
        if acc.as_str().unicode_len() > 0 {
            empty = false;
        }
        k = k + 1;
    }
    acc
}

fn runs(s: &Search, text: &str) -> (r: Tuple)
    ensures
        r@ == runs_of(s@, text@),
{
    let parts = split(s, text);
    let glue: &str = if s.chars {
        ""
    } else {
        " "
    };
    let ghost all = runs_from(parts@, s.gram as int, glue_of(s@), 0, Seq::empty());
    let mut rows: Rows = List::new();
    let mut i: usize = 0;
    while i < parts.len() && !(i > 0 && s.gram > (parts.len() - i) as u64)
        invariant
            i <= parts@.len(),
            glue@ == glue_of(s@),
            all == runs_from(parts@, s.gram as int, glue_of(s@), i as int, rows@),
        decreases parts@.len() - i,
    {
        let mut row: Tuple = List::new();
        let text = run(&parts, i, s.gram, glue);
        let ghost t = text@;
        row.push(DataValue::Str(text));
        assert(row@ =~= seq![Value::Str(t)]);
        add_row(&mut rows, row);
        i = i + 1;
    }
    assert(rows@ == all);
    let mut acc: Tuple = List::new();
    let mut j: usize = 0;
    while j < rows.len()
        invariant
            j <= rows@.len(),
            firsts_from(rows@, 0, Seq::empty()) == firsts_from(rows@, j as int, acc@),
        decreases rows@.len() - j,
    {
        if rows.get(j).len() > 0 {
            acc.push(rows.get(j).get(0).dup());
        }
        j = j + 1;
    }
    acc
}

/// A row of one value.
pub open spec fn one_of(v: Value) -> Seq<Value> {
    seq![v]
}

fn one(v: DataValue) -> (r: Tuple)
    ensures
        r@ == one_of(v@),
{
    let mut r: Tuple = List::new();
    let ghost w = v@;
    r.push(v);
    assert(r@ =~= one_of(w));
    r
}

/// Records with what an index keeps of field `j` of a row.
pub open spec fn field_indexed(
    s: SearchV,
    key: Seq<Value>,
    row: Seq<Value>,
    j: int,
    recs: Seq<RecordV>,
) -> Seq<RecordV> {
    if s.fields[j] >= row.len() {
        recs
    } else {
        match (s.kind, row[s.fields[j] as int]) {
            (Lookup::Words, Value::Str(t)) => posted_from(recs, tokens_of(t, s.filters), key, 0),
            (Lookup::Similar, Value::Str(t)) => with_rec(
                recs,
                key,
                encode_row_of(one_of(Value::List(runs_of(s, t)))),
            ),
            (Lookup::Vectors, Value::List(l)) => with_rec(
                recs,
                key.push(Value::Int(j as i64)),
                encode_row_of(one_of(Value::List(l))),
            ),
            _ => recs,
        }
    }
}

/// Records with what an index keeps of the fields of a row from place `j` on.
pub open spec fn fields_indexed(
    s: SearchV,
    key: Seq<Value>,
    row: Seq<Value>,
    j: int,
    recs: Seq<RecordV>,
) -> Seq<RecordV>
    decreases s.fields.len() - j,
{
    if j < 0 || j >= s.fields.len() {
        recs
    } else {
        fields_indexed(s, key, row, j + 1, field_indexed(s, key, row, j, recs))
    }
}

fn index_row(s: &Search, key: &Tuple, row: &Tuple, recs: List<Record>) -> (r: List<Record>)
    ensures
        r@ == fields_indexed(s@, key@, row@, 0, recs@),
{
    let ghost goal = fields_indexed(s@, key@, row@, 0, recs@);
    let mut out = recs;
    let mut j: usize = 0;
    while j < s.fields.len()
        invariant
            j <= s@.fields.len(),
            goal == fields_indexed(s@, key@, row@, j as int, out@),
        decreases s@.fields.len() - j,
    {
        let p = *s.fields.get(j);
        if p < row.len() {
            match (s.kind, row.get(p)) {
                (Lookup::Words, DataValue::Str(t)) => {
                    out = post(out, &tokens(t.as_str(), &s.filters), key);
                },
                (Lookup::Similar, DataValue::Str(t)) => {
                    let kept = one(list_value(runs(s, t.as_str())));
                    put_rec(&mut out, key.dup(), encode_row(&kept));
                },
                (Lookup::Vectors, DataValue::List(_)) => {
                    let kept = one(row.get(p).dup());
                    put_rec(&mut out, pushed(key.dup(), DataValue::Int(j as i64)), encode_row(&kept));
                },
                _ => {},
            }
        }
        j = j + 1;
    }
    out
}

/// The context in which the filter of an index is evaluated: it sees the row
/// alone.
pub open spec fn still() -> Ctx {
    Ctx { now: 0, tick: 0, salt: 0 }
}

/// Whether a condition holds of a row; it does where there is none.
pub open spec fn passes(
    e: Option<ExprV>,
    cols: Seq<Seq<char>>,
    row: Seq<Value>,
    ctx: Ctx,
) -> Result<bool, Fault> {
    match e {
        None => Ok(true),
        Some(x) => match eval_of(x, cols, row, ctx) {
            Err(f) => Err(f),
            Ok(Value::Bool(b)) => Ok(b),
            Ok(_) => Err(fault(ErrKind::NotBoolean)),
        },
    }
}

fn pass(e: &Option<Expr>, cols: &List<String>, row: &Tuple, ctx: Ctx) -> (r: Result<bool, DbError>)
    ensures
        outcome(r) == passes(opt_of(*e), cols@, row@, ctx),
{
    match e {
        None => Ok(true),
        Some(x) => match eval(x, cols, row, ctx) {
            Err(f) => Err(f),
            Ok(DataValue::Bool(b)) => Ok(b),
            Ok(_) => Err(err(ErrKind::NotBoolean)),
        },
    }
}

/// The records of an index for the rows from place `i` on; `nk` columns of a
/// row are its key.
pub open spec fn indexed_from(
    s: SearchV,
    cols: Seq<Seq<char>>,
    nk: int,
    rows: Seq<Seq<Value>>,
    i: int,
    recs: Seq<RecordV>,
) -> Result<Seq<RecordV>, Fault>
    decreases rows.len() - i,
{
    if i < 0 || i >= rows.len() {
        Ok(recs)
    } else if nk > rows[i].len() {
        indexed_from(s, cols, nk, rows, i + 1, recs)
    } else {
        match passes(s.filter, cols, rows[i], still()) {
            Err(f) => Err(f),
            Ok(false) => indexed_from(s, cols, nk, rows, i + 1, recs),
            Ok(true) => indexed_from(
                s,
                cols,
                nk,
                rows,
                i + 1,
                fields_indexed(s, rows[i].take(nk), rows[i], 0, recs),
            ),
        }
    }
}

/// The records of an index for rows.
pub fn index_records(s: &Search, cols: &List<String>, nk: usize, rows: &Rows) -> (r: Result<
    List<Record>,
    DbError,
>)
    ensures
        outcome(r) == indexed_from(s@, cols@, nk as int, rows@, 0, Seq::empty()),
{
    let ghost goal = indexed_from(s@, cols@, nk as int, rows@, 0, Seq::empty());
    let still = Ctx { now: 0, tick: 0, salt: 0 };
    let mut recs: List<Record> = List::new();
    let mut i: usize = 0;
    while i < rows.len()
        invariant
            i <= rows@.len(),
            still == self::still(),
            goal == indexed_from(s@, cols@, nk as int, rows@, 0, Seq::empty()),
            goal == indexed_from(s@, cols@, nk as int, rows@, i as int, recs@),
        decreases rows@.len() - i,
    {
        let row = rows.get(i);
        if nk <= row.len() {
            match pass(&s.filter, cols, row, still) {
                Err(e) => {
                    return Err(e);
                },
                Ok(b) => {
                    if b {
                        recs = index_row(s, &prefix(row, nk), row, recs);
                    }
                },
            }
        }
        i = i + 1;
    }
    Ok(recs)
}

/// How often a word occurs, by the record under its key: never where there is
/// none.
pub open spec fn occurrences(recs: Seq<RecordV>, key: Seq<Value>) -> Result<Value, Fault> {
    match lookup_of(recs, key) {
        None => Ok(Value::Int(0)),
        Some(b) => match decode_row_of(b) {
            Some(v) => if v.len() == 4 {
                match v[2] {
                    Value::List(at) => Ok(Value::Int(at.len() as i64)),
                    _ => Err(fault(ErrKind::CorruptBlob)),
                }
            } else {
                Err(fault(ErrKind::CorruptBlob))
            },
            None => Err(fault(ErrKind::CorruptBlob)),
        },
    }
}

fn count(recs: &List<Record>, key: &Tuple) -> (r: Result<DataValue, DbError>)
    ensures
        outcome(r) == occurrences(recs@, key@),
{
    match lookup(recs, key) {
        None => Ok(DataValue::Int(0)),
        Some(b) => match decode_row(&b) {
            Some(v) => {
                if v.len() != 4 {
                    return Err(err(ErrKind::CorruptBlob));
                }
                match v.get(2) {
                    DataValue::List(at) => Ok(DataValue::Int(at.len() as i64)),
                    _ => Err(err(ErrKind::CorruptBlob)),
                }
            },
            None => Err(err(ErrKind::CorruptBlob)),
        },
    }
}

/// How often the words from place `i` on occur in a row, added to `acc`.
pub open spec fn score_from(
    recs: Seq<RecordV>,
    ws: Seq<Seq<char>>,
    key: Seq<Value>,
    i: int,
    acc: Value,
) -> Result<Value, Fault>
    decreases ws.len() - i,
{
    if i < 0 || i >= ws.len() {
        Ok(acc)
    } else {
        match occurrences(recs, posting_key(ws[i], key)) {
            Err(f) => Err(f),
            Ok(n) => match add_of(acc, n) {
                Err(f) => Err(f),
                Ok(v) => score_from(recs, ws, key, i + 1, v),
            },
        }
    }
}

fn score(recs: &List<Record>, ws: &List<String>, key: &Tuple) -> (r: Result<DataValue, DbError>)
    ensures
        outcome(r) == score_from(recs@, ws@, key@, 0, Value::Int(0)),
{
    let mut acc: DataValue = DataValue::Int(0);
    let mut i: usize = 0;
    while i < ws.len()
        invariant
            i <= ws@.len(),
            score_from(recs@, ws@, key@, 0, Value::Int(0)) == score_from(
                recs@,
                ws@,
                key@,
                i as int,
                acc@,
            ),
        decreases ws@.len() - i,
    {
        match count(recs, &key_of_posting(ws.get(i), key)) {
            Err(e) => {
                return Err(e);
            },
            Ok(n) => match add_values(&acc, &n) {
                Err(e) => {
                    return Err(e);
                },
                Ok(v) => {
                    acc = v;
                },
            },
        }
        i = i + 1;
    }
    Ok(acc)
}

/// How many values from place `i` on are among others, added to `acc`.
pub open spec fn shared_from(a: Seq<Value>, b: Seq<Value>, i: int, acc: nat) -> nat
    decreases a.len() - i,
{
    if i < 0 || i >= a.len() {
        acc
    } else if b.contains(a[i]) {
        shared_from(a, b, i + 1, acc + 1)
    } else {
        shared_from(a, b, i + 1, acc)
    }
}

fn is_among(v: &DataValue, b: &Tuple) -> (r: bool)
    ensures
        r == b@.contains(v@),
{
    let mut i: usize = 0;
    while i < b.len()
        invariant
            i <= b@.len(),
            forall|k: int| 0 <= k < i ==> b@[k] != v@,
        decreases b@.len() - i,
    {
        if same(b.get(i), v) {
            assert(b@[i as int] == v@);
            return true;
        }
        i = i + 1;
    }
    false
}

fn shared(a: &Tuple, b: &Tuple) -> (r: usize)
    ensures
        r == shared_from(a@, b@, 0, 0),
        r <= a@.len(),
{
    let mut acc: usize = 0;
    let mut i: usize = 0;
    while i < a.len()
        invariant
            acc <= i <= a@.len(),
            shared_from(a@, b@, 0, 0) == shared_from(a@, b@, i as int, acc as nat),
        decreases a@.len() - i,
    {
        if is_among(a.get(i), b) {
            acc = acc + 1;
        }
        i = i + 1;
    }
    acc
}

/// Whether of the values in either of two lists, of which they share some, at
/// least the told part of millionths is shared.
pub open spec fn alike(a: Seq<Value>, b: Seq<Value>, target: u32) -> bool {
    let n = shared_from(a, b, 0, 0);
    n * UNIT >= target * (a.len() + b.len() - n)
}

fn are_alike(a: &Tuple, b: &Tuple, n: usize, target: u32) -> (r: bool)
    requires
        n == shared_from(a@, b@, 0, 0),
        n <= a@.len(),
    ensures
        r == alike(a@, b@, target),
{
    let all: i128 = a.len() as i128 + b.len() as i128 - n as i128;
    assert(0 <= target * all <= 0x1_0000_0000 * 0x2_0000_0000_0000_0000) by (nonlinear_arith)
        requires
            0 <= all <= 0x2_0000_0000_0000_0000,
            0 <= target <= 0xffff_ffff,
    ;
    n as i128 * 1_000_000 >= target as i128 * all
}

/// How a row matches what is searched for, by its field `j`: by what the rows
/// found are sorted, what is told of it, and its vector. Nothing where it does
/// not match.
pub open spec fn rank_of(s: SearchV, key: Seq<Value>, j: int, query: Value) -> Result<
    Option<Seq<Value>>,
    Fault,
> {
    match (s.kind, query) {
        (Lookup::Words, Value::Str(q)) => match score_from(
            s.recs,
            words_of(q, s.filters),
            key,
            0,
            Value::Int(0),
        ) {
            Err(f) => Err(f),
            Ok(v) => if v == Value::Int(0) {
                Ok(None)
            } else {
                match sub_of(Value::Int(0), v) {
                    Err(f) => Err(f),
                    Ok(low) => Ok(Some(seq![low, v, Value::Null])),
                }
            },
        },
        (Lookup::Vectors, Value::List(q)) => match lookup_of(s.recs, key.push(Value::Int(j as i64))) {
            None => Ok(None),
            Some(b) => match listed_in(b) {
                Err(f) => Err(f),
                Ok(l) => match distance_of(s.metric, l, q) {
                    Err(f) => Err(f),
                    Ok(d) => Ok(Some(seq![d, d, Value::List(l)])),
                },
            },
        },
        (Lookup::Similar, Value::Str(q)) => match lookup_of(s.recs, key) {
            None => Ok(None),
            Some(b) => match listed_in(b) {
                Err(f) => Err(f),
                Ok(l) => if alike(l, runs_of(s, q), s.target) {
                    let n = shared_from(l, runs_of(s, q), 0, 0);
                    Ok(Some(seq![Value::Int((-n) as i64), Value::Int(n as i64), Value::Null]))
                } else {
                    Ok(None)
                },
            },
        },
        _ => Err(fault_on(ErrKind::TypeMismatch, s.name)),
    }
}

/// The list that a record holds.
pub open spec fn listed_in(b: Seq<u8>) -> Result<Seq<Value>, Fault> {
    match decode_row_of(b) {
        None => Err(fault(ErrKind::CorruptBlob)),
        Some(v) => if v.len() == 1 {
            match v[0] {
                Value::List(l) => Ok(l),
                _ => Err(fault(ErrKind::CorruptBlob)),
            }
        } else {
            Err(fault(ErrKind::CorruptBlob))
        },
    }
}

fn list_in(b: &Vec<u8>) -> (r: Result<Tuple, DbError>)
    ensures
        outcome(r) == listed_in(b@),
{
    match decode_row(b) {
        None => Err(err(ErrKind::CorruptBlob)),
        Some(v) => {
            if v.len() != 1 {
                return Err(err(ErrKind::CorruptBlob));
            }
            match v.get(0) {
                DataValue::List(l) => Ok(elements(l)),
                _ => Err(err(ErrKind::CorruptBlob)),
            }
        },
    }
}

fn three(a: DataValue, b: DataValue, c: DataValue) -> (r: Tuple)
    ensures
        r@ == seq![a@, b@, c@],
{
    let ghost all = seq![a@, b@, c@];
    let mut r: Tuple = List::new();
    r.push(a);
    r.push(b);
    r.push(c);
    assert(r@ =~= all);
    r
}

fn rank(s: &Search, key: &Tuple, j: usize, query: &DataValue) -> (r: Result<Option<Tuple>, DbError>)
    ensures
        outcome_opt(r) == rank_of(s@, key@, j as int, query@),
{
    match (s.kind, query) {
        (Lookup::Words, DataValue::Str(q)) => match score(
            &s.recs,
            &words(q.as_str(), &s.filters),
            key,
        ) {
            Err(e) => Err(e),
            Ok(v) => {
                let none = match &v {
                    DataValue::Int(n) => *n == 0,
                    _ => false,
                };
                if none {
                    return Ok(None);
                }
                match sub_values(&DataValue::Int(0), &v) {
                    Err(e) => Err(e),
                    Ok(low) => Ok(Some(three(low, v, DataValue::Null))),
                }
            },
        },
        (Lookup::Vectors, DataValue::List(q)) => match lookup(
            &s.recs,
            &pushed(key.dup(), DataValue::Int(j as i64)),
        ) {
            None => Ok(None),
            Some(b) => match list_in(&b) {
                Err(e) => Err(e),
                Ok(l) => {
                    assert(values_of(l.items@) =~= l@);
                    match distance(s.metric, &l.items, q) {
                        Err(e) => Err(e),
                        Ok(d) => Ok(Some(three(d.dup(), d, list_value(l)))),
                    }
                },
            },
        },
        (Lookup::Similar, DataValue::Str(q)) => match lookup(&s.recs, key) {
            None => Ok(None),
            Some(b) => match list_in(&b) {
                Err(e) => Err(e),
                Ok(l) => {
                    let wanted = runs(s, q.as_str());
                    let n = shared(&l, &wanted);
                    if are_alike(&l, &wanted, n, s.target) {
                        Ok(
                            Some(
                                three(
                                    DataValue::Int((-(n as i128)) as i64),
                                    DataValue::Int(n as i64),
                                    DataValue::Null,
                                ),
                            ),
                        )
                    } else {
                        Ok(None)
                    }
                },
            },
        },
        _ => Err(err_on(ErrKind::TypeMismatch, s.name.as_str())),
    }
}

/// What is asked of an index: what is searched for, how many rows are wanted,
/// how far they may be, and what must hold of them.
pub struct Ask {
    pub query: DataValue,
    pub k: Option<u64>,
    pub radius: Option<DataValue>,
    pub filter: Option<Expr>,
}

/// The mathematical counterpart of [`Ask`].
#[verifier::ext_equal]
pub struct AskV {
    pub query: Value,
    pub k: Option<u64>,
    pub radius: Option<Value>,
    pub filter: Option<ExprV>,
}

impl View for Ask {
    type V = AskV;

    open spec fn view(&self) -> AskV {
        AskV {
            query: self.query@,
            k: self.k,
            radius: opt_of(self.radius),
            filter: opt_of(self.filter),
        }
    }
}

/// How many rows are wanted, where it is told.
pub open spec fn limit_of(v: Value) -> Result<Option<u64>, Fault> {
    match v {
        Value::Null => Ok(None),
        Value::Int(n) => if n >= 0 {
            Ok(Some(n as u64))
        } else {
            Err(fault(ErrKind::TypeMismatch))
        },
        _ => Err(fault(ErrKind::TypeMismatch)),
    }
}

/// How far rows may be, where it is told.
pub open spec fn radius_of(v: Value) -> Result<Option<Value>, Fault> {
    match v {
        Value::Null => Ok(None),
        _ => if is_number(v) {
            Ok(Some(v))
        } else {
            Err(fault(ErrKind::TypeMismatch))
        },
    }
}

/// An option, where it is given.
pub open spec fn given_option(opts: Seq<FieldV>, name: Seq<char>) -> Option<ExprV> {
    match option_of(opts, name) {
        ExprV::Const(Value::Null) => None,
        e => Some(e),
    }
}

/// An option, where it is given.
pub fn get_option(opts: &List<Field>, name: &str) -> (r: Option<Expr>)
    ensures
        opt_of(r) == given_option(opts@, name@),
{
    match option(opts, name) {
        Expr::Const(DataValue::Null) => None,
        e => Some(e),
    }
}

/// What the options of a search ask for, where the variables have these values.
pub open spec fn asked(
    opts: Seq<FieldV>,
    cols: Seq<Seq<char>>,
    row: Seq<Value>,
    ctx: Ctx,
) -> Result<AskV, Fault> {
    match eval_of(option_of(opts, "query"@), cols, row, ctx) {
        Err(f) => Err(f),
        Ok(query) => match eval_of(option_of(opts, "k"@), cols, row, ctx) {
            Err(f) => Err(f),
            Ok(n) => match limit_of(n) {
                Err(f) => Err(f),
                Ok(k) => match eval_of(option_of(opts, "radius"@), cols, row, ctx) {
                    Err(f) => Err(f),
                    Ok(far) => match radius_of(far) {
                        Err(f) => Err(f),
                        Ok(radius) => Ok(
                            AskV { query, k, radius, filter: given_option(opts, "filter"@) },
                        ),
                    },
                },
            },
        },
    }
}

/// What the options of a search ask for, where the variables have these values.
pub fn ask(opts: &List<Field>, cols: &List<String>, row: &Tuple, ctx: Ctx) -> (r: Result<
    Ask,
    DbError,
>)
    ensures
        outcome(r) == asked(opts@, cols@, row@, ctx),
{
    match eval(&option(opts, "query"), cols, row, ctx) {
        Err(e) => Err(e),
        Ok(query) => match eval(&option(opts, "k"), cols, row, ctx) {
            Err(e) => Err(e),
            Ok(n) => {
                let k: Option<u64> = match n {
                    DataValue::Null => None,
                    DataValue::Int(m) => {
                        if m < 0 {
                            return Err(err(ErrKind::TypeMismatch));
                        }
                        Some(m as u64)
                    },
                    _ => {
                        return Err(err(ErrKind::TypeMismatch));
                    },
                };
                match eval(&option(opts, "radius"), cols, row, ctx) {
                    Err(e) => Err(e),
                    Ok(far) => {
                        let radius: Option<DataValue> = match far {
                            DataValue::Null => None,
                            v => {
                                if !number(&v) {
                                    return Err(err(ErrKind::TypeMismatch));
                                }
                                Some(v)
                            },
                        };
                        Ok(Ask { query, k, radius, filter: get_option(opts, "filter") })
                    },
                }
            },
        },
    }
}

/// Whether a row that matches is wanted: it is near enough, and what must hold
/// of it does.
pub open spec fn wanted_row(
    a: AskV,
    cols: Seq<Seq<char>>,
    row: Seq<Value>,
    shown: Value,
    ctx: Ctx,
) -> Result<bool, Fault> {
    if a.radius is Some && loose_order(shown, a.radius->0) == Sign::More {
        Ok(false)
    } else {
        passes(a.filter, cols, row, ctx)
    }
}

fn let_in(a: &Ask, cols: &List<String>, row: &Tuple, shown: &DataValue, ctx: Ctx) -> (r: Result<
    bool,
    DbError,
>)
    ensures
        outcome(r) == wanted_row(a@, cols@, row@, shown@, ctx),
{
    match &a.radius {
        Some(far) => {
            if compare_loose(shown, far) == Sign::More {
                return Ok(false);
            }
        },
        None => {},
    }
    pass(&a.filter, cols, row, ctx)
}

/// A row that was found: behind that by which it is sorted, and before what is
/// told of it and its vector.
pub open spec fn hit_row(rank: Seq<Value>, row: Seq<Value>) -> Seq<Value> {
    rank.take(1) + row + rank.skip(1)
}

/// The rows found through the fields of a row from place `j` on, after `acc`.
pub open spec fn hits_from(
    s: SearchV,
    cols: Seq<Seq<char>>,
    key: Seq<Value>,
    row: Seq<Value>,
    a: AskV,
    ctx: Ctx,
    j: int,
    acc: Seq<Seq<Value>>,
) -> Result<Seq<Seq<Value>>, Fault>
    decreases s.fields.len() - j,
{
    if j < 0 || j >= s.fields.len() {
        Ok(acc)
    } else {
        match rank_of(s, key, j, a.query) {
            Err(f) => Err(f),
            Ok(None) => hits_from(s, cols, key, row, a, ctx, j + 1, acc),
            Ok(Some(r)) => match wanted_row(a, cols, row, r[1], ctx) {
                Err(f) => Err(f),
                Ok(false) => hits_from(s, cols, key, row, a, ctx, j + 1, acc),
                Ok(true) => hits_from(s, cols, key, row, a, ctx, j + 1, acc.push(hit_row(r, row))),
            },
        }
    }
}

fn hits(
    s: &Search,
    cols: &List<String>,
    key: &Tuple,
    row: &Tuple,
    a: &Ask,
    ctx: Ctx,
    acc: Rows,
) -> (r: Result<Rows, DbError>)
    ensures
        outcome(r) == hits_from(s@, cols@, key@, row@, a@, ctx, 0, acc@),
{
    let ghost goal = hits_from(s@, cols@, key@, row@, a@, ctx, 0, acc@);
    let mut out = acc;
    let mut j: usize = 0;
    while j < s.fields.len()
        invariant
            j <= s@.fields.len(),
            goal == hits_from(s@, cols@, key@, row@, a@, ctx, 0, acc@),
            goal == hits_from(s@, cols@, key@, row@, a@, ctx, j as int, out@),
        decreases s@.fields.len() - j,
    {
        match rank(s, key, j, &a.query) {
            Err(e) => {
                return Err(e);
            },
            Ok(None) => {},
            Ok(Some(t)) => {
                proof {
                    lemma_rank_is_three(s@, key@, j as int, a@.query);
                }
                match let_in(a, cols, row, t.get(1), ctx) {
                    Err(e) => {
                        return Err(e);
                    },
                    Ok(b) => {
                        if b {
                            let mut rest: Tuple = List::new();
                            rest.push(t.get(1).dup());
                            rest.push(t.get(2).dup());
                            assert(rest@ =~= t@.skip(1));
                            let hit = joined(&joined(&prefix(&t, 1), row), &rest);
                            assert(hit@ =~= hit_row(t@, row@));
                            out.push(hit);
                        }
                    },
                }
            },
        }
        j = j + 1;
    }
    Ok(out)
}

proof fn lemma_rank_is_three(s: SearchV, key: Seq<Value>, j: int, query: Value)
    ensures
        rank_of(s, key, j, query) matches Ok(Some(r)) ==> r.len() == 3,
{
}

/// The rows from place `i` on that are found, after `acc`.
pub open spec fn found_from(
    s: SearchV,
    cols: Seq<Seq<char>>,
    nk: int,
    rows: Seq<Seq<Value>>,
    a: AskV,
    ctx: Ctx,
    i: int,
    acc: Seq<Seq<Value>>,
) -> Result<Seq<Seq<Value>>, Fault>
    decreases rows.len() - i,
{
    if i < 0 || i >= rows.len() {
        Ok(acc)
    } else if nk > rows[i].len() {
        found_from(s, cols, nk, rows, a, ctx, i + 1, acc)
    } else {
        match hits_from(s, cols, rows[i].take(nk), rows[i], a, ctx, 0, acc) {
            Err(f) => Err(f),
            Ok(more) => found_from(s, cols, nk, rows, a, ctx, i + 1, more),
        }
    }
}

/// The first `k` rows from place `i` on, each without its first value.
pub open spec fn unranked_from(
    rows: Seq<Seq<Value>>,
    k: Option<u64>,
    i: int,
    acc: Seq<Seq<Value>>,
) -> Seq<
    Seq<Value>,
>
    decreases rows.len() - i,
{
    if i < 0 || i >= rows.len() || (k is Some && i >= k->0) {
        acc
    } else if rows[i].len() == 0 {
        unranked_from(rows, k, i + 1, acc)
    } else {
        unranked_from(rows, k, i + 1, acc.push(rows[i].remove(0)))
    }
}

fn unranked(rows: &Rows, k: Option<u64>) -> (r: Rows)
    ensures
        r@ == unranked_from(rows@, k, 0, Seq::empty()),
{
    let mut acc: Rows = List::new();
    let mut i: usize = 0;
    while i < rows.len()
        invariant
            i <= rows@.len(),
            unranked_from(rows@, k, 0, Seq::empty()) == unranked_from(rows@, k, i as int, acc@),
        decreases rows@.len() - i,
    {
        match k {
            Some(n) => {
                if i as u64 >= n {
                    return acc;
                }
            },
            None => {},
        }
        let mut row = rows.get(i).dup();
        if row.len() > 0 {
            row.remove(0);
            acc.push(row);
        }
        i = i + 1;
    }
    acc
}

/// The rows that an index finds among those of its relation, the best ones
/// first, each with what is told of it and its vector.
pub open spec fn found(
    s: SearchV,
    cols: Seq<Seq<char>>,
    nk: int,
    rows: Seq<Seq<Value>>,
    a: AskV,
    ctx: Ctx,
) -> Result<Seq<Seq<Value>>, Fault> {
    match found_from(s, cols, nk, rows, a, ctx, 0, Seq::empty()) {
        Err(f) => Err(f),
        Ok(ranks) => Ok(unranked_from(sorted_of(ranks), a.k, 0, Seq::empty())),
    }
}

/// The rows that an index finds among those of its relation.
pub fn find_rows(
    s: &Search,
    cols: &List<String>,
    nk: usize,
    rows: &Rows,
    a: &Ask,
    ctx: Ctx,
) -> (r: Result<Rows, DbError>)
    ensures
        outcome(r) == found(s@, cols@, nk as int, rows@, a@, ctx),
{
    let ghost goal = found_from(s@, cols@, nk as int, rows@, a@, ctx, 0, Seq::empty());
    let mut acc: Rows = List::new();
    let mut i: usize = 0;
    while i < rows.len()
        invariant
            i <= rows@.len(),
            goal == found_from(s@, cols@, nk as int, rows@, a@, ctx, 0, Seq::empty()),
            goal == found_from(s@, cols@, nk as int, rows@, a@, ctx, i as int, acc@),
        decreases rows@.len() - i,
    {
        let row = rows.get(i);
        if nk <= row.len() {
            match hits(s, cols, &prefix(row, nk), row, a, ctx, acc) {
                Err(e) => {
                    return Err(e);
                },
                Ok(more) => {
                    acc = more;
                },
            }
        }
        i = i + 1;
    }
    Ok(unranked(&sorted(&acc), a.k))
}

/// The place of a search index from place `i` on, and the length where there
/// is none of the name.
pub open spec fn search_from(ss: Seq<SearchV>, name: Seq<char>, i: int) -> int
    decreases ss.len() - i,
{
    if i < 0 || i >= ss.len() {
        ss.len() as int
    } else if ss[i].name == name {
        i
    } else {
        search_from(ss, name, i + 1)
    }
}

/// The place of a search index.
pub fn find_search(ss: &List<Search>, name: &String) -> (r: usize)
    ensures
        r == search_from(ss@, name@, 0),
        r <= ss@.len(),
{
    let mut i: usize = 0;
    while i < ss.len()
        invariant
            i <= ss@.len(),
            search_from(ss@, name@, 0) == search_from(ss@, name@, i as int),
        decreases ss@.len() - i,
    {
        if ss.get(i).name == *name {
            return i;
        }
        i = i + 1;
    }
    i
}

} // verus!
