//! Writing rows to relations with transaction times.
//!
//! Such a write is kept until its transaction commits; then everything that the
//! transaction wrote gets one transaction time.
use vstd::prelude::*;

use crate::codec::{encode_row, encode_row_of};
use crate::error::{DbError, ErrKind, Fault, err_on, fault_on, outcome};
use crate::expr::Ctx;
use crate::list::{Dup, List};
use crate::parse::pushed;
use crate::query::WriteKind;
use crate::schema::{Column, ColumnV, RelKind, kind, kind_of};
use crate::store::{Pending, PendingV, Relation, RelationV, find_rel, rel_place, with_rec};
use crate::table::{Rows, joined, prefix};
use crate::temporal::{
    LATEST, asserts, believed, decides, does_decide, flag_in, flag_of, id, id_of, id_width, instant,
    is_believed, vt_in, vt_of,
};
use crate::value::{DataValue, Tuple, Value, same_row};
use crate::write::{
    Work, WorkV, differs, differs_from, fills, fills_from, given, given_at, merges, merges_from,
    pad, padded, salt, salted, stored,
};

verus! {

/// The first row from place `i` on that is believed at present of a fact from
/// an instant, and the length where there is none.
pub open spec fn belief_from(
    rows: Seq<Seq<Value>>,
    k: RelKind,
    nk: int,
    fact: Seq<Value>,
    vt: i64,
    i: int,
) -> int
    decreases rows.len() - i,
{
    if i < 0 || i >= rows.len() {
        rows.len() as int
    } else if id_of(rows[i], k, nk) == fact && vt_of(rows[i], k, nk) == vt && believed(
        rows,
        i,
        k,
        nk,
        LATEST,
    ) {
        i
    } else {
        belief_from(rows, k, nk, fact, vt, i + 1)
    }
}

/// The first row that is believed at present of a fact from an instant.
pub fn belief(rows: &Rows, k: RelKind, nk: usize, fact: &Tuple, vt: i64) -> (r: usize)
    requires
        id_width(k, nk as int) >= 0,
    ensures
        r == belief_from(rows@, k, nk as int, fact@, vt, 0),
        r <= rows@.len(),
{
    let mut i: usize = 0;
    while i < rows.len()
        invariant
            i <= rows@.len(),
            id_width(k, nk as int) >= 0,
            belief_from(rows@, k, nk as int, fact@, vt, 0) == belief_from(
                rows@,
                k,
                nk as int,
                fact@,
                vt,
                i as int,
            ),
        decreases rows@.len() - i,
    {
        let row = rows.get(i);
        if vt_in(row, k, nk) == vt && same_row(&id(row, k, nk), fact) && is_believed(
            rows,
            i,
            k,
            nk,
            LATEST,
        ) {
            return i;
        }
        i = i + 1;
    }
    i
}

/// The first row from place `i` on that decides about a fact at an instant, and
/// the length where there is none.
pub open spec fn decider_from(
    rows: Seq<Seq<Value>>,
    k: RelKind,
    nk: int,
    fact: Seq<Value>,
    vt: i64,
    i: int,
) -> int
    decreases rows.len() - i,
{
    if i < 0 || i >= rows.len() {
        rows.len() as int
    } else if id_of(rows[i], k, nk) == fact && decides(rows, i, k, nk, vt, LATEST) {
        i
    } else {
        decider_from(rows, k, nk, fact, vt, i + 1)
    }
}

fn decider(rows: &Rows, k: RelKind, nk: usize, fact: &Tuple, vt: i64) -> (r: usize)
    requires
        id_width(k, nk as int) >= 0,
    ensures
        r == decider_from(rows@, k, nk as int, fact@, vt, 0),
        r <= rows@.len(),
{
    let mut i: usize = 0;
    while i < rows.len()
        invariant
            i <= rows@.len(),
            id_width(k, nk as int) >= 0,
            decider_from(rows@, k, nk as int, fact@, vt, 0) == decider_from(
                rows@,
                k,
                nk as int,
                fact@,
                vt,
                i as int,
            ),
        decreases rows@.len() - i,
    {
        if same_row(&id(rows.get(i), k, nk), fact) && does_decide(rows, i, k, nk, vt, LATEST) {
            return i;
        }
        i = i + 1;
    }
    i
}

/// The first row from place `i` on about a fact, and the length where there is
/// none.
pub open spec fn about_from(
    rows: Seq<Seq<Value>>,
    k: RelKind,
    nk: int,
    fact: Seq<Value>,
    i: int,
) -> int
    decreases rows.len() - i,
{
    if i < 0 || i >= rows.len() {
        rows.len() as int
    } else if id_of(rows[i], k, nk) == fact {
        i
    } else {
        about_from(rows, k, nk, fact, i + 1)
    }
}

fn about(rows: &Rows, k: RelKind, nk: usize, fact: &Tuple) -> (r: usize)
    requires
        id_width(k, nk as int) >= 0,
    ensures
        r == about_from(rows@, k, nk as int, fact@, 0),
        r <= rows@.len(),
{
    let mut i: usize = 0;
    while i < rows.len()
        invariant
            i <= rows@.len(),
            id_width(k, nk as int) >= 0,
            about_from(rows@, k, nk as int, fact@, 0) == about_from(
                rows@,
                k,
                nk as int,
                fact@,
                i as int,
            ),
        decreases rows@.len() - i,
    {
        if same_row(&id(rows.get(i), k, nk), fact) {
            return i;
        }
        i = i + 1;
    }
    i
}

/// The first `n` columns.
pub open spec fn first_cols(cols: Seq<ColumnV>, n: int) -> Seq<ColumnV> {
    if 0 <= n <= cols.len() {
        cols.take(n)
    } else {
        cols
    }
}

/// The first `n` columns.
pub fn take_cols(cols: &List<Column>, n: usize) -> (r: List<Column>)
    ensures
        r@ == first_cols(cols@, n as int),
{
    if n > cols.len() {
        return cols.dup();
    }
    let mut r: List<Column> = List::new();
    let mut i: usize = 0;
    while i < n
        invariant
            i <= n <= cols@.len(),
            r@ =~= cols@.take(i as int),
        decreases n - i,
    {
        r.push(cols.get(i).dup());
        i = i + 1;
    }
    r
}

/// The values of a row behind its key.
pub open spec fn rest_of(row: Seq<Value>, nk: int) -> Seq<Value> {
    if 0 <= nk <= row.len() {
        row.skip(nk)
    } else {
        Seq::empty()
    }
}

/// The values of a row behind its key.
pub fn rest(row: &Tuple, nk: usize) -> (r: Tuple)
    ensures
        r@ == rest_of(row@, nk as int),
{
    let mut r: Tuple = List::new();
    let mut i: usize = nk;
    while i < row.len()
        invariant
            nk <= i,
            nk <= row@.len() ==> i <= row@.len() && r@ =~= row@.subrange(nk as int, i as int),
            nk > row@.len() ==> r@ =~= Seq::empty(),
        decreases row@.len() - i,
    {
        r.push(row.get(i).dup());
        i = i + 1;
    }
    assert(r@ =~= rest_of(row@, nk as int));
    r
}

/// Whether two keys without transaction times speak of one fact from one
/// instant.
pub open spec fn same_point(a: Seq<Value>, b: Seq<Value>, k: RelKind) -> bool {
    if k == RelKind::Bi {
        a.len() > 0 && b.len() > 0 && a.drop_last() == b.drop_last() && instant(
            a.last(),
        ) == instant(
            b.last(),
        )
    } else {
        a == b
    }
}

fn instant_of(v: &DataValue) -> (r: i64)
    ensures
        r == instant(v@),
{
    match v {
        DataValue::Validity(t, _) => *t,
        _ => 0,
    }
}

fn asserted(v: &DataValue) -> (r: bool)
    ensures
        r == asserts(v@),
{
    match v {
        DataValue::Validity(_, a) => *a,
        _ => false,
    }
}

fn at_same_point(a: &Tuple, b: &Tuple, k: RelKind) -> (r: bool)
    ensures
        r == same_point(a@, b@, k),
{
    if k == RelKind::Bi {
        if a.len() == 0 || b.len() == 0 {
            return false;
        }
        let p = prefix(a, a.len() - 1);
        let q = prefix(b, b.len() - 1);
        assert(p@ =~= a@.drop_last());
        assert(q@ =~= b@.drop_last());
        instant_of(a.get(a.len() - 1)) == instant_of(b.get(b.len() - 1)) && same_row(&p, &q)
    } else {
        same_row(a, b)
    }
}

/// The first pending write from place `i` on to a relation about a fact from an
/// instant, and the length where there is none.
pub open spec fn pending_from(
    ps: Seq<PendingV>,
    rel: Seq<char>,
    key: Seq<Value>,
    k: RelKind,
    i: int,
) -> int
    decreases ps.len() - i,
{
    if i < 0 || i >= ps.len() {
        ps.len() as int
    } else if ps[i].rel == rel && same_point(ps[i].key, key, k) {
        i
    } else {
        pending_from(ps, rel, key, k, i + 1)
    }
}

fn find_pending(ps: &List<Pending>, rel: &String, key: &Tuple, k: RelKind) -> (r: usize)
    ensures
        r == pending_from(ps@, rel@, key@, k, 0),
        r <= ps@.len(),
{
    let mut i: usize = 0;
    while i < ps.len()
        invariant
            i <= ps@.len(),
            pending_from(ps@, rel@, key@, k, 0) == pending_from(ps@, rel@, key@, k, i as int),
        decreases ps@.len() - i,
    {
        if ps.get(i).rel == *rel && at_same_point(&ps.get(i).key, key, k) {
            return i;
        }
        i = i + 1;
    }
    i
}

/// The first pending write from place `i` on to a relation about a fact, and
/// the length where there is none.
pub open spec fn pending_about_from(
    ps: Seq<PendingV>,
    rel: Seq<char>,
    fact: Seq<Value>,
    i: int,
) -> int
    decreases ps.len() - i,
{
    if i < 0 || i >= ps.len() {
        ps.len() as int
    } else if ps[i].rel == rel && ps[i].key.len() >= fact.len() && ps[i].key.take(
        fact.len() as int,
    ) == fact {
        i
    } else {
        pending_about_from(ps, rel, fact, i + 1)
    }
}

fn find_pending_about(ps: &List<Pending>, rel: &String, fact: &Tuple) -> (r: usize)
    ensures
        r == pending_about_from(ps@, rel@, fact@, 0),
        r <= ps@.len(),
{
    let mut i: usize = 0;
    while i < ps.len()
        invariant
            i <= ps@.len(),
            pending_about_from(ps@, rel@, fact@, 0) == pending_about_from(
                ps@,
                rel@,
                fact@,
                i as int,
            ),
        decreases ps@.len() - i,
    {
        let p = ps.get(i);
        if p.rel == *rel && p.key.len() >= fact.len() && same_row(
            &prefix(&p.key, fact.len()),
            fact,
        ) {
            return i;
        }
        i = i + 1;
    }
    i
}

/// Pending writes with another one at a place.
pub fn with_pending_at(ps: List<Pending>, i: usize, p: Pending) -> (r: List<Pending>)
    requires
        i < ps@.len(),
    ensures
        r@ == ps@.update(i as int, p@),
{
    let mut out = ps;
    out.set(i, p);
    out
}

/// A row as a report shows it: without a transaction time.
pub open spec fn report_row(key: Seq<Value>, vals: Seq<Value>) -> Seq<Value> {
    key.push(Value::Null) + vals
}

fn reported(key: &Tuple, vals: &Tuple) -> (r: Tuple)
    ensures
        r@ == report_row(key@, vals@),
{
    let mut out = key.dup();
    out.push(DataValue::Null);
    joined(&out, vals)
}

/// The effect of writing one row to a relation with transaction times alone.
pub open spec fn tx_row_of(
    op: WriteKind,
    rel: RelationV,
    rows: Seq<Seq<Value>>,
    gs: Seq<Option<usize>>,
    row: Seq<Value>,
    ctx: Ctx,
    start: int,
    work: WorkV,
) -> Result<WorkV, Fault> {
    let k = RelKind::Tx;
    let nk = rel.keys.len() as int;
    match fills_from(first_cols(rel.keys, nk - 1), gs, 0, row, ctx, 0, Seq::empty()) {
        Err(f) => Err(f),
        Ok(key) => {
            let p = pending_from(work.pending, rel.name, key, k, 0);
            let b = belief_from(rows, k, nk, key, 0, 0);
            let old = p < work.pending.len();
            let live = b < rows.len() && flag_of(rows[b], k, nk);
            match op {
                WriteKind::Insert => if old {
                    if p >= start {
                        Err(fault_on(ErrKind::DuplicateKey, rel.name))
                    } else {
                        Err(fault_on(ErrKind::AlreadyWritten, rel.name))
                    }
                } else if live {
                    Err(fault_on(ErrKind::KeyExists, rel.name))
                } else {
                    match fills_from(
                        rel.vals,
                        gs,
                        rel.keys.len() as int,
                        row,
                        ctx,
                        0,
                        Seq::empty(),
                    ) {
                        Err(f) => Err(f),
                        Ok(v) => {
                            Ok(WorkV {
                                news: work.news.push(report_row(key, v)),
                                pending: work.pending.push(
                                    PendingV { rel: rel.name, key, flag: true, vals: v },
                                ),
                                ..work
                            })
                        }
                    }
                },
                WriteKind::Update => if old {
                    Err(fault_on(ErrKind::AlreadyWritten, rel.name))
                } else if !live {
                    Err(fault_on(ErrKind::DoesNotExist, rel.name))
                } else {
                    match merges_from(
                        rel.vals,
                        gs,
                        rel.keys.len() as int,
                        rest_of(rows[b], nk),
                        row,
                        ctx,
                        0,
                        Seq::empty(),
                    ) {
                        Err(f) => Err(f),
                        Ok(v) => {
                            Ok(WorkV {
                                news: work.news.push(report_row(key, v)),
                                pending: work.pending.push(
                                    PendingV { rel: rel.name, key, flag: true, vals: v },
                                ),
                                ..work
                            })
                        }
                    }
                },
                WriteKind::Rm | WriteKind::Delete => if old && work.pending[p].flag {
                    Err(
                        fault_on(
                            if live {
                                ErrKind::AssertsAndRetracts
                            } else {
                                ErrKind::WrittenSameTx
                            },
                            rel.name,
                        ),
                    )
                } else if op == WriteKind::Delete && (old || (b < rows.len() && !live)) {
                    Err(fault_on(ErrKind::BelievedDeleted, rel.name))
                } else if op == WriteKind::Delete && !live {
                    Err(fault_on(ErrKind::DoesNotExist, rel.name))
                } else if old || !live {
                    Ok(WorkV {
                        news: work.news.push(padded(key.push(Value::Null), rel.vals.len())),
                        ..work
                    })
                } else {
                    Ok(WorkV {
                        news: work.news.push(padded(key.push(Value::Null), rel.vals.len())),
                        olds: work.olds.push(report_row(key, rest_of(rows[b], nk))),
                        pending: work.pending.push(
                            PendingV {
                                rel: rel.name,
                                key,
                                flag: false,
                                vals: rest_of(rows[b], nk),
                            },
                        ),
                        ..work
                    })
                },
                WriteKind::Ensure => if old {
                    Err(fault_on(ErrKind::EnsureAmbiguous, rel.name))
                } else if !live {
                    Err(fault_on(ErrKind::EnsureMismatch, rel.name))
                } else {
                    match differs_from(
                        rel.vals,
                        gs,
                        rel.keys.len() as int,
                        rest_of(rows[b], nk),
                        row,
                        ctx,
                        0,
                        false,
                    ) {
                        Err(f) => Err(f),
                        Ok(d) => {
                            if d {
                                Err(fault_on(ErrKind::EnsureMismatch, rel.name))
                            } else {
                                Ok(work)
                            }
                        }
                    }
                },
                WriteKind::EnsureNot => if live || (old && work.pending[p].flag) {
                    Err(fault_on(ErrKind::KeyExists, rel.name))
                } else {
                    Ok(work)
                },
                _ => if old && !work.pending[p].flag {
                    Err(fault_on(ErrKind::AssertsAndRetracts, rel.name))
                } else {
                    match fills_from(
                        rel.vals,
                        gs,
                        rel.keys.len() as int,
                        row,
                        ctx,
                        0,
                        Seq::empty(),
                    ) {
                        Err(f) => Err(f),
                        Ok(v) => {
                            if old {
                                Ok(WorkV {
                                    news: work.news.push(report_row(key, v)),
                                    pending: work.pending.update(
                                        p,
                                        PendingV { rel: rel.name, key, flag: true, vals: v },
                                    ),
                                    ..work
                                })
                            } else {
                                Ok(WorkV {
                                    news: work.news.push(report_row(key, v)),
                                    pending: work.pending.push(
                                        PendingV { rel: rel.name, key, flag: true, vals: v },
                                    ),
                                    ..work
                                })
                            }
                        }
                    }
                },
            }
        }
    }
}

/// The effect of writing one row to a relation with transaction times alone.
pub fn tx_row(
    op: WriteKind,
    rel: &Relation,
    rows: &List<Tuple>,
    gs: &List<Option<usize>>,
    row: &Tuple,
    ctx: Ctx,
    start: usize,
    work: Work,
) -> (r: Result<Work, DbError>)
    requires
        rel@.keys.len() >= 1,
    ensures
        outcome(r) == tx_row_of(op, rel@, rows@, gs@, row@, ctx, start as int, work@),
{
    let k = RelKind::Tx;
    let nk = rel.keys.len();
    match fills(&take_cols(&rel.keys, nk - 1), gs, 0, row, ctx, List::new()) {
        Err(e) => Err(e),
        Ok(key) => {
            let p = find_pending(&work.pending, &rel.name, &key, k);
            let b = belief(rows, k, nk, &key, 0);
            let old = p < work.pending.len();
            let live = b < rows.len() && flag_in(rows.get(b), k, nk);
            match op {
                WriteKind::Insert => if old {
                    if p >= start {
                        Err(err_on(ErrKind::DuplicateKey, rel.name.as_str()))
                    } else {
                        Err(err_on(ErrKind::AlreadyWritten, rel.name.as_str()))
                    }
                } else if live {
                    Err(err_on(ErrKind::KeyExists, rel.name.as_str()))
                } else {
                    match fills(&rel.vals, gs, rel.keys.len(), row, ctx, List::new()) {
                        Err(e) => Err(e),
                        Ok(v) => {
                            Ok(Work {
                                news: pushed(work.news, reported(&key, &v)),
                                pending: pushed(
                                    work.pending,
                                    Pending {
                                        rel: rel.name.clone(),
                                        key,
                                        flag: true,
                                        vals: v,
                                    },
                                ),
                                ..work
                            })
                        }
                    }
                },
                WriteKind::Update => if old {
                    Err(err_on(ErrKind::AlreadyWritten, rel.name.as_str()))
                } else if !live {
                    Err(err_on(ErrKind::DoesNotExist, rel.name.as_str()))
                } else {
                    match merges(
                        &rel.vals,
                        gs,
                        rel.keys.len(),
                        &rest(rows.get(b), nk),
                        row,
                        ctx,
                        List::new(),
                    ) {
                        Err(e) => Err(e),
                        Ok(v) => {
                            Ok(Work {
                                news: pushed(work.news, reported(&key, &v)),
                                pending: pushed(
                                    work.pending,
                                    Pending {
                                        rel: rel.name.clone(),
                                        key,
                                        flag: true,
                                        vals: v,
                                    },
                                ),
                                ..work
                            })
                        }
                    }
                },
                WriteKind::Rm | WriteKind::Delete => if old && work.pending.get(p).flag {
                    Err(
                        err_on(
                            if live {
                                ErrKind::AssertsAndRetracts
                            } else {
                                ErrKind::WrittenSameTx
                            },
                            rel.name.as_str(),
                        ),
                    )
                } else if op == WriteKind::Delete && (old || (b < rows.len() && !live)) {
                    Err(err_on(ErrKind::BelievedDeleted, rel.name.as_str()))
                } else if op == WriteKind::Delete && !live {
                    Err(err_on(ErrKind::DoesNotExist, rel.name.as_str()))
                } else if old || !live {
                    Ok(Work {
                        news: pushed(work.news, pad(pushed(key, DataValue::Null), rel.vals.len())),
                        ..work
                    })
                } else {
                    Ok(Work {
                        news: pushed(
                            work.news,
                            pad(pushed(key.dup(), DataValue::Null), rel.vals.len()),
                        ),
                        olds: pushed(work.olds, reported(&key, &rest(rows.get(b), nk))),
                        pending: pushed(
                            work.pending,
                            Pending {
                                rel: rel.name.clone(),
                                key,
                                flag: false,
                                vals: rest(rows.get(b), nk),
                            },
                        ),
                        ..work
                    })
                },
                WriteKind::Ensure => if old {
                    Err(err_on(ErrKind::EnsureAmbiguous, rel.name.as_str()))
                } else if !live {
                    Err(err_on(ErrKind::EnsureMismatch, rel.name.as_str()))
                } else {
                    match differs(
                        &rel.vals,
                        gs,
                        rel.keys.len(),
                        &rest(rows.get(b), nk),
                        row,
                        ctx,
                        false,
                    ) {
                        Err(e) => Err(e),
                        Ok(d) => {
                            if d {
                                Err(err_on(ErrKind::EnsureMismatch, rel.name.as_str()))
                            } else {
                                Ok(work)
                            }
                        }
                    }
                },
                WriteKind::EnsureNot => if live || (old && work.pending.get(p).flag) {
                    Err(err_on(ErrKind::KeyExists, rel.name.as_str()))
                } else {
                    Ok(work)
                },
                _ => if old && !work.pending.get(p).flag {
                    Err(err_on(ErrKind::AssertsAndRetracts, rel.name.as_str()))
                } else {
                    match fills(&rel.vals, gs, rel.keys.len(), row, ctx, List::new()) {
                        Err(e) => Err(e),
                        Ok(v) => {
                            if old {
                                Ok(Work {
                                    news: pushed(work.news, reported(&key, &v)),
                                    pending: with_pending_at(
                                        work.pending,
                                        p,
                                        Pending { rel: rel.name.clone(), key, flag: true, vals: v },
                                    ),
                                    ..work
                                })
                            } else {
                                Ok(Work {
                                    news: pushed(work.news, reported(&key, &v)),
                                    pending: pushed(
                                        work.pending,
                                        Pending {
                                            rel: rel.name.clone(),
                                            key,
                                            flag: true,
                                            vals: v,
                                        },
                                    ),
                                    ..work
                                })
                            }
                        }
                    }
                },
            }
        }
    }
}

/// The instant at the end of a key.
pub open spec fn point_in(key: Seq<Value>) -> i64 {
    if key.len() > 0 {
        instant(key.last())
    } else {
        0
    }
}

fn point(key: &Tuple) -> (r: i64)
    ensures
        r == point_in(key@),
{
    if key.len() > 0 {
        instant_of(key.get(key.len() - 1))
    } else {
        0
    }
}

/// Whether the stamp at the end of a key asserts.
pub open spec fn asserts_in(key: Seq<Value>) -> bool {
    key.len() > 0 && asserts(key.last())
}

fn key_asserts(key: &Tuple) -> (r: bool)
    ensures
        r == asserts_in(key@),
{
    key.len() > 0 && asserted(key.get(key.len() - 1))
}

/// The fact of a key with a stamp at its end.
pub open spec fn fact_in(key: Seq<Value>) -> Seq<Value> {
    if key.len() > 0 {
        key.drop_last()
    } else {
        key
    }
}

fn fact(key: &Tuple) -> (r: Tuple)
    ensures
        r@ == fact_in(key@),
{
    if key.len() > 0 {
        let p = prefix(key, key.len() - 1);
        assert(p@ =~= key@.drop_last());
        p
    } else {
        key.dup()
    }
}

/// The effect of writing one row, from an instant on, to a relation with both
/// axes.
pub open spec fn bi_row_of(
    op: WriteKind,
    rel: RelationV,
    rows: Seq<Seq<Value>>,
    gs: Seq<Option<usize>>,
    row: Seq<Value>,
    ctx: Ctx,
    start: int,
    work: WorkV,
) -> Result<WorkV, Fault> {
    let k = RelKind::Bi;
    let nk = rel.keys.len() as int;
    match fills_from(first_cols(rel.keys, nk - 1), gs, 0, row, ctx, 0, Seq::empty()) {
        Err(f) => Err(f),
        Ok(key) => {
            let id = fact_in(key);
            let at = point_in(key);
            let p = pending_from(work.pending, rel.name, key, k, 0);
            let old = p < work.pending.len();
            let up = old && asserts_in(work.pending[p].key);
            let b = decider_from(rows, k, nk, id, at, 0);
            let live = b < rows.len() && flag_of(rows[b], k, nk);
            match op {
                WriteKind::Insert => {
                    let q = pending_about_from(work.pending, rel.name, id, 0);
                    if q < work.pending.len() {
                        if q >= start {
                            Err(fault_on(ErrKind::DuplicateKey, rel.name))
                        } else {
                            Err(fault_on(ErrKind::AlreadyWritten, rel.name))
                        }
                    } else if about_from(rows, k, nk, id, 0) < rows.len() {
                        Err(fault_on(ErrKind::RecordedBeliefs, rel.name))
                    } else {
                        match fills_from(
                            rel.vals,
                            gs,
                            rel.keys.len() as int,
                            row,
                            ctx,
                            0,
                            Seq::empty(),
                        ) {
                            Err(f) => Err(f),
                            Ok(v) => {
                                Ok(WorkV {
                                    news: work.news.push(report_row(key, v)),
                                    pending: work.pending.push(
                                        PendingV { rel: rel.name, key, flag: true, vals: v },
                                    ),
                                    ..work
                                })
                            }
                        }
                    }
                },
                WriteKind::Rm | WriteKind::Delete => if up {
                    Err(fault_on(ErrKind::AssertsAndRetracts, rel.name))
                } else if op == WriteKind::Delete && b >= rows.len() {
                    Err(fault_on(ErrKind::NoBelief, rel.name))
                } else if op == WriteKind::Delete && (old || !live) {
                    Err(fault_on(ErrKind::BelievedDeleted, rel.name))
                } else if old || !live {
                    Ok(WorkV {
                        news: work.news.push(padded(key.push(Value::Null), rel.vals.len())),
                        ..work
                    })
                } else {
                    Ok(WorkV {
                        news: work.news.push(padded(key.push(Value::Null), rel.vals.len())),
                        olds: work.olds.push(
                            report_row(id.push(Value::Validity(at, false)), rest_of(rows[b], nk)),
                        ),
                        pending: work.pending.push(
                            PendingV {
                                rel: rel.name,
                                key: id.push(Value::Validity(at, false)),
                                flag: true,
                                vals: rest_of(rows[b], nk),
                            },
                        ),
                        ..work
                    })
                },
                _ => if old && up != asserts_in(key) {
                    Err(fault_on(ErrKind::AssertsAndRetracts, rel.name))
                } else {
                    match fills_from(
                        rel.vals,
                        gs,
                        rel.keys.len() as int,
                        row,
                        ctx,
                        0,
                        Seq::empty(),
                    ) {
                        Err(f) => Err(f),
                        Ok(v) => {
                            if old {
                                Ok(WorkV {
                                    news: work.news.push(report_row(key, v)),
                                    pending: work.pending.update(
                                        p,
                                        PendingV { rel: rel.name, key, flag: true, vals: v },
                                    ),
                                    ..work
                                })
                            } else {
                                Ok(WorkV {
                                    news: work.news.push(report_row(key, v)),
                                    pending: work.pending.push(
                                        PendingV { rel: rel.name, key, flag: true, vals: v },
                                    ),
                                    ..work
                                })
                            }
                        }
                    }
                },
            }
        }
    }
}

fn bi_row(
    op: WriteKind,
    rel: &Relation,
    rows: &List<Tuple>,
    gs: &List<Option<usize>>,
    row: &Tuple,
    ctx: Ctx,
    start: usize,
    work: Work,
) -> (r: Result<Work, DbError>)
    requires
        rel@.keys.len() >= 2,
    ensures
        outcome(r) == bi_row_of(op, rel@, rows@, gs@, row@, ctx, start as int, work@),
{
    let k = RelKind::Bi;
    let nk = rel.keys.len();
    match fills(&take_cols(&rel.keys, nk - 1), gs, 0, row, ctx, List::new()) {
        Err(e) => Err(e),
        Ok(key) => {
            let id = fact(&key);
            let at = point(&key);
            let p = find_pending(&work.pending, &rel.name, &key, k);
            let old = p < work.pending.len();
            let up = old && key_asserts(&work.pending.get(p).key);
            let b = decider(rows, k, nk, &id, at);
            let live = b < rows.len() && flag_in(rows.get(b), k, nk);
            match op {
                WriteKind::Insert => {
                    let q = find_pending_about(&work.pending, &rel.name, &id);
                    if q < work.pending.len() {
                        if q >= start {
                            Err(err_on(ErrKind::DuplicateKey, rel.name.as_str()))
                        } else {
                            Err(err_on(ErrKind::AlreadyWritten, rel.name.as_str()))
                        }
                    } else if about(rows, k, nk, &id) < rows.len() {
                        Err(err_on(ErrKind::RecordedBeliefs, rel.name.as_str()))
                    } else {
                        match fills(&rel.vals, gs, rel.keys.len(), row, ctx, List::new()) {
                            Err(e) => Err(e),
                            Ok(v) => {
                                Ok(Work {
                                    news: pushed(work.news, reported(&key, &v)),
                                    pending: pushed(
                                        work.pending,
                                        Pending {
                                            rel: rel.name.clone(),
                                            key,
                                            flag: true,
                                            vals: v,
                                        },
                                    ),
                                    ..work
                                })
                            }
                        }
                    }
                },
                WriteKind::Rm | WriteKind::Delete => if up {
                    Err(err_on(ErrKind::AssertsAndRetracts, rel.name.as_str()))
                } else if op == WriteKind::Delete && b >= rows.len() {
                    Err(err_on(ErrKind::NoBelief, rel.name.as_str()))
                } else if op == WriteKind::Delete && (old || !live) {
                    Err(err_on(ErrKind::BelievedDeleted, rel.name.as_str()))
                } else if old || !live {
                    Ok(Work {
                        news: pushed(work.news, pad(pushed(key, DataValue::Null), rel.vals.len())),
                        ..work
                    })
                } else {
                    Ok(Work {
                        news: pushed(work.news, pad(pushed(key, DataValue::Null), rel.vals.len())),
                        olds: pushed(
                            work.olds,
                            reported(
                                &pushed(id.dup(), DataValue::Validity(at, false)),
                                &rest(rows.get(b), nk),
                            ),
                        ),
                        pending: pushed(
                            work.pending,
                            Pending {
                                rel: rel.name.clone(),
                                key: pushed(id, DataValue::Validity(at, false)),
                                flag: true,
                                vals: rest(rows.get(b), nk),
                            },
                        ),
                        ..work
                    })
                },
                _ => if old && up != key_asserts(&key) {
                    Err(err_on(ErrKind::AssertsAndRetracts, rel.name.as_str()))
                } else {
                    match fills(&rel.vals, gs, rel.keys.len(), row, ctx, List::new()) {
                        Err(e) => Err(e),
                        Ok(v) => {
                            if old {
                                Ok(Work {
                                    news: pushed(work.news, reported(&key, &v)),
                                    pending: with_pending_at(
                                        work.pending,
                                        p,
                                        Pending { rel: rel.name.clone(), key, flag: true, vals: v },
                                    ),
                                    ..work
                                })
                            } else {
                                Ok(Work {
                                    news: pushed(work.news, reported(&key, &v)),
                                    pending: pushed(
                                        work.pending,
                                        Pending {
                                            rel: rel.name.clone(),
                                            key,
                                            flag: true,
                                            vals: v,
                                        },
                                    ),
                                    ..work
                                })
                            }
                        }
                    }
                },
            }
        }
    }
}

/// The effect of a row that speaks of the present in a relation with both axes.
pub open spec fn bi_now_row_of(
    op: WriteKind,
    rel: RelationV,
    rows: Seq<Seq<Value>>,
    gs: Seq<Option<usize>>,
    row: Seq<Value>,
    ctx: Ctx,
    work: WorkV,
) -> Result<WorkV, Fault> {
    let k = RelKind::Bi;
    let nk = rel.keys.len() as int;
    if given_at(gs, nk - 2) is Some {
        Err(fault_on(ErrKind::EnsureCurrent, rel.name))
    } else {
        match fills_from(first_cols(rel.keys, nk - 2), gs, 0, row, ctx, 0, Seq::empty()) {
            Err(f) => Err(f),
            Ok(id) => {
                let q = pending_about_from(work.pending, rel.name, id, 0);
                let old = q < work.pending.len();
                let b = decider_from(rows, k, nk, id, ctx.now, 0);
                let live = b < rows.len() && flag_of(rows[b], k, nk);
                match op {
                    WriteKind::Update => if old {
                        Err(fault_on(ErrKind::AlreadyWritten, rel.name))
                    } else if !live {
                        Err(fault_on(ErrKind::DoesNotExist, rel.name))
                    } else {
                        match merges_from(
                            rel.vals,
                            gs,
                            rel.keys.len() as int,
                            rest_of(rows[b], nk),
                            row,
                            ctx,
                            0,
                            Seq::empty(),
                        ) {
                            Err(f) => Err(f),
                            Ok(v) => {
                                let key = id.push(Value::Validity(vt_of(rows[b], k, nk), true));
                                Ok(WorkV {
                                    news: work.news.push(report_row(key, v)),
                                    pending: work.pending.push(
                                        PendingV { rel: rel.name, key, flag: true, vals: v },
                                    ),
                                    ..work
                                })
                            }
                        }
                    },
                    WriteKind::Ensure => if old {
                        Err(fault_on(ErrKind::EnsureAmbiguous, rel.name))
                    } else if !live {
                        Err(fault_on(ErrKind::EnsureMismatch, rel.name))
                    } else {
                        match differs_from(
                            rel.vals,
                            gs,
                            rel.keys.len() as int,
                            rest_of(rows[b], nk),
                            row,
                            ctx,
                            0,
                            false,
                        ) {
                            Err(f) => Err(f),
                            Ok(d) => {
                                if d {
                                    Err(fault_on(ErrKind::EnsureMismatch, rel.name))
                                } else {
                                    Ok(work)
                                }
                            }
                        }
                    },
                    _ => if live || old {
                        Err(fault_on(ErrKind::KeyExists, rel.name))
                    } else {
                        Ok(work)
                    },
                }
            }
        }
    }
}

fn bi_now_row(
    op: WriteKind,
    rel: &Relation,
    rows: &List<Tuple>,
    gs: &List<Option<usize>>,
    row: &Tuple,
    ctx: Ctx,
    work: Work,
) -> (r: Result<Work, DbError>)
    requires
        rel@.keys.len() >= 2,
    ensures
        outcome(r) == bi_now_row_of(op, rel@, rows@, gs@, row@, ctx, work@),
{
    let k = RelKind::Bi;
    let nk = rel.keys.len();
    if given(gs, 0, nk - 2).is_some() {
        Err(err_on(ErrKind::EnsureCurrent, rel.name.as_str()))
    } else {
        match fills(&take_cols(&rel.keys, nk - 2), gs, 0, row, ctx, List::new()) {
            Err(e) => Err(e),
            Ok(id) => {
                let q = find_pending_about(&work.pending, &rel.name, &id);
                let old = q < work.pending.len();
                let b = decider(rows, k, nk, &id, ctx.now);
                let live = b < rows.len() && flag_in(rows.get(b), k, nk);
                match op {
                    WriteKind::Update => if old {
                        Err(err_on(ErrKind::AlreadyWritten, rel.name.as_str()))
                    } else if !live {
                        Err(err_on(ErrKind::DoesNotExist, rel.name.as_str()))
                    } else {
                        match merges(
                            &rel.vals,
                            gs,
                            rel.keys.len(),
                            &rest(rows.get(b), nk),
                            row,
                            ctx,
                            List::new(),
                        ) {
                            Err(e) => Err(e),
                            Ok(v) => {
                                let key = pushed(
                                    id,
                                    DataValue::Validity(vt_in(rows.get(b), k, nk), true),
                                );
                                Ok(Work {
                                    news: pushed(work.news, reported(&key, &v)),
                                    pending: pushed(
                                        work.pending,
                                        Pending {
                                            rel: rel.name.clone(),
                                            key,
                                            flag: true,
                                            vals: v,
                                        },
                                    ),
                                    ..work
                                })
                            }
                        }
                    },
                    WriteKind::Ensure => if old {
                        Err(err_on(ErrKind::EnsureAmbiguous, rel.name.as_str()))
                    } else if !live {
                        Err(err_on(ErrKind::EnsureMismatch, rel.name.as_str()))
                    } else {
                        match differs(
                            &rel.vals,
                            gs,
                            rel.keys.len(),
                            &rest(rows.get(b), nk),
                            row,
                            ctx,
                            false,
                        ) {
                            Err(e) => Err(e),
                            Ok(d) => {
                                if d {
                                    Err(err_on(ErrKind::EnsureMismatch, rel.name.as_str()))
                                } else {
                                    Ok(work)
                                }
                            }
                        }
                    },
                    _ => if live || old {
                        Err(err_on(ErrKind::KeyExists, rel.name.as_str()))
                    } else {
                        Ok(work)
                    },
                }
            }
        }
    }
}

/// The effect of writing one row to a relation with transaction times.
pub open spec fn tt_row_of(
    op: WriteKind,
    rel: RelationV,
    rows: Seq<Seq<Value>>,
    gs: Seq<Option<usize>>,
    row: Seq<Value>,
    ctx: Ctx,
    start: int,
    work: WorkV,
) -> Result<WorkV, Fault> {
    if kind_of(rel.keys) == RelKind::Tx {
        tx_row_of(op, rel, rows, gs, row, ctx, start, work)
    } else {
        match op {
            WriteKind::Update | WriteKind::Ensure | WriteKind::EnsureNot => bi_now_row_of(
                op,
                rel,
                rows,
                gs,
                row,
                ctx,
                work,
            ),
            _ => bi_row_of(op, rel, rows, gs, row, ctx, start, work),
        }
    }
}

fn tt_row(
    op: WriteKind,
    rel: &Relation,
    rows: &List<Tuple>,
    gs: &List<Option<usize>>,
    row: &Tuple,
    ctx: Ctx,
    start: usize,
    work: Work,
) -> (r: Result<Work, DbError>)
    requires
        kind_of(rel@.keys) == RelKind::Tx || kind_of(rel@.keys) == RelKind::Bi,
    ensures
        outcome(r) == tt_row_of(op, rel@, rows@, gs@, row@, ctx, start as int, work@),
{
    if kind(&rel.keys) == RelKind::Tx {
        tx_row(op, rel, rows, gs, row, ctx, start, work)
    } else {
        match op {
            WriteKind::Update | WriteKind::Ensure | WriteKind::EnsureNot => bi_now_row(
                op,
                rel,
                rows,
                gs,
                row,
                ctx,
                work,
            ),
            _ => bi_row(op, rel, rows, gs, row, ctx, start, work),
        }
    }
}

/// The effect of writing the rows from place `i` on to a relation with
/// transaction times.
pub open spec fn tt_rows_from(
    op: WriteKind,
    rel: RelationV,
    olds: Seq<Seq<Value>>,
    gs: Seq<Option<usize>>,
    rows: Seq<Seq<Value>>,
    ctx: Ctx,
    start: int,
    i: int,
    work: WorkV,
) -> Result<WorkV, Fault>
    decreases rows.len() - i,
{
    if i < 0 || i >= rows.len() {
        Ok(work)
    } else {
        match tt_row_of(op, rel, olds, gs, rows[i], salted(ctx, i), start, work) {
            Err(f) => Err(f),
            Ok(next) => tt_rows_from(op, rel, olds, gs, rows, ctx, start, i + 1, next),
        }
    }
}

/// The effect of writing the rows from place `i` on to a relation with
/// transaction times.
pub fn tt_rows(
    op: WriteKind,
    rel: &Relation,
    olds: &List<Tuple>,
    gs: &List<Option<usize>>,
    rows: &List<Tuple>,
    ctx: Ctx,
    start: usize,
    work: Work,
) -> (r: Result<Work, DbError>)
    requires
        kind_of(rel@.keys) == RelKind::Tx || kind_of(rel@.keys) == RelKind::Bi,
    ensures
        outcome(r) == tt_rows_from(op, rel@, olds@, gs@, rows@, ctx, start as int, 0, work@),
{
    let ghost goal = tt_rows_from(op, rel@, olds@, gs@, rows@, ctx, start as int, 0, work@);
    let mut state: Work = work;
    let mut i: usize = 0;
    while i < rows.len()
        invariant
            i <= rows@.len(),
            goal == tt_rows_from(op, rel@, olds@, gs@, rows@, ctx, start as int, 0, work@),
            goal == tt_rows_from(op, rel@, olds@, gs@, rows@, ctx, start as int, i as int, state@),
            kind_of(rel@.keys) == RelKind::Tx || kind_of(rel@.keys) == RelKind::Bi,
        decreases rows@.len() - i,
    {
        match tt_row(op, rel, olds, gs, rows.get(i), salt(ctx, i), start, state) {
            Err(e) => {
                return Err(e);
            },
            Ok(next) => {
                state = next;
            },
        }
        i = i + 1;
    }
    Ok(state)
}

/// The beliefs that a declaration wants after one more row.
pub open spec fn wanted_of(
    rel: RelationV,
    gs: Seq<Option<usize>>,
    row: Seq<Value>,
    ctx: Ctx,
    acc: Seq<PendingV>,
) -> Result<Seq<PendingV>, Fault> {
    let k = kind_of(rel.keys);
    let nk = rel.keys.len() as int;
    match fills_from(first_cols(rel.keys, nk - 1), gs, 0, row, ctx, 0, Seq::empty()) {
        Err(f) => Err(f),
        Ok(key) => {
            if k == RelKind::Bi && !asserts_in(key) {
                Err(fault_on(ErrKind::DeclareBeliefs, rel.name))
            } else {
                match fills_from(rel.vals, gs, rel.keys.len() as int, row, ctx, 0, Seq::empty()) {
                    Err(f) => Err(f),
                    Ok(v) => {
                        let p = pending_from(acc, rel.name, key, k, 0);
                        if p < acc.len() {
                            if acc[p].vals == v {
                                Ok(acc)
                            } else {
                                Err(fault_on(ErrKind::ConflictingRows, rel.name))
                            }
                        } else {
                            Ok(acc.push(PendingV { rel: rel.name, key, flag: true, vals: v }))
                        }
                    }
                }
            }
        }
    }
}

fn wanted(
    rel: &Relation,
    gs: &List<Option<usize>>,
    row: &Tuple,
    ctx: Ctx,
    acc: List<Pending>,
) -> (r: Result<List<Pending>, DbError>)
    requires
        rel@.keys.len() >= 1,
    ensures
        outcome(r) == wanted_of(rel@, gs@, row@, ctx, acc@),
{
    let k = kind(&rel.keys);
    let nk = rel.keys.len();
    match fills(&take_cols(&rel.keys, nk - 1), gs, 0, row, ctx, List::new()) {
        Err(e) => Err(e),
        Ok(key) => {
            if k == RelKind::Bi && !key_asserts(&key) {
                Err(err_on(ErrKind::DeclareBeliefs, rel.name.as_str()))
            } else {
                match fills(&rel.vals, gs, rel.keys.len(), row, ctx, List::new()) {
                    Err(e) => Err(e),
                    Ok(v) => {
                        let p = find_pending(&acc, &rel.name, &key, k);
                        if p < acc.len() {
                            if same_row(&acc.get(p).vals, &v) {
                                Ok(acc)
                            } else {
                                Err(err_on(ErrKind::ConflictingRows, rel.name.as_str()))
                            }
                        } else {
                            Ok(
                                pushed(
                                    acc,
                                    Pending {
                                        rel: rel.name.clone(),
                                        key,
                                        flag: true,
                                        vals: v,
                                    },
                                ),
                            )
                        }
                    }
                }
            }
        }
    }
}

/// The beliefs that a declaration wants, from place `i` on.
pub open spec fn wants_from(
    rel: RelationV,
    gs: Seq<Option<usize>>,
    rows: Seq<Seq<Value>>,
    ctx: Ctx,
    i: int,
    acc: Seq<PendingV>,
) -> Result<Seq<PendingV>, Fault>
    decreases rows.len() - i,
{
    if i < 0 || i >= rows.len() {
        Ok(acc)
    } else {
        match wanted_of(rel, gs, rows[i], salted(ctx, i), acc) {
            Err(f) => Err(f),
            Ok(next) => wants_from(rel, gs, rows, ctx, i + 1, next),
        }
    }
}

fn wants(
    rel: &Relation,
    gs: &List<Option<usize>>,
    rows: &List<Tuple>,
    ctx: Ctx,
    acc: List<Pending>,
) -> (r: Result<List<Pending>, DbError>)
    requires
        rel@.keys.len() >= 1,
    ensures
        outcome(r) == wants_from(rel@, gs@, rows@, ctx, 0, acc@),
{
    let ghost goal = wants_from(rel@, gs@, rows@, ctx, 0, acc@);
    let mut state: List<Pending> = acc;
    let mut i: usize = 0;
    while i < rows.len()
        invariant
            i <= rows@.len(),
            goal == wants_from(rel@, gs@, rows@, ctx, 0, acc@),
            goal == wants_from(rel@, gs@, rows@, ctx, i as int, state@),
            rel@.keys.len() >= 1,
        decreases rows@.len() - i,
    {
        match wanted(rel, gs, rows.get(i), salt(ctx, i), state) {
            Err(e) => {
                return Err(e);
            },
            Ok(next) => {
                state = next;
            },
        }
        i = i + 1;
    }
    Ok(state)
}

/// Whether what is believed at present is what a declaration wants.
pub open spec fn already(rel: RelationV, rows: Seq<Seq<Value>>, w: PendingV) -> bool {
    let k = kind_of(rel.keys);
    let nk = rel.keys.len() as int;
    let b = belief_from(
        rows,
        k,
        nk,
        if k == RelKind::Bi {
            fact_in(w.key)
        } else {
            w.key
        },
        if k == RelKind::Bi {
            point_in(w.key)
        } else {
            0
        },
        0,
    );
    b < rows.len() && flag_of(rows[b], k, nk) && rest_of(rows[b], nk) == w.vals
}

fn is_already(rel: &Relation, rows: &Rows, w: &Pending) -> (r: bool)
    requires
        kind_of(rel@.keys) == RelKind::Tx || kind_of(rel@.keys) == RelKind::Bi,
    ensures
        r == already(rel@, rows@, w@),
{
    let k = kind(&rel.keys);
    let nk = rel.keys.len();
    let b = if k == RelKind::Bi {
        belief(rows, k, nk, &fact(&w.key), point(&w.key))
    } else {
        belief(rows, k, nk, &w.key, 0)
    };
    b < rows.len() && flag_in(rows.get(b), k, nk) && same_row(&rest(rows.get(b), nk), &w.vals)
}

/// Pending writes with the wanted beliefs from place `i` on that are not held
/// already.
pub open spec fn declared_from(
    rel: RelationV,
    rows: Seq<Seq<Value>>,
    want: Seq<PendingV>,
    i: int,
    acc: Seq<PendingV>,
) -> Seq<PendingV>
    decreases want.len() - i,
{
    if i < 0 || i >= want.len() {
        acc
    } else if already(rel, rows, want[i]) {
        declared_from(rel, rows, want, i + 1, acc)
    } else {
        declared_from(rel, rows, want, i + 1, acc.push(want[i]))
    }
}

fn declare(
    rel: &Relation,
    rows: &Rows,
    want: &List<Pending>,
    acc: List<Pending>,
) -> (r: List<Pending>)
    requires
        kind_of(rel@.keys) == RelKind::Tx || kind_of(rel@.keys) == RelKind::Bi,
    ensures
        r@ == declared_from(rel@, rows@, want@, 0, acc@),
{
    let ghost goal = declared_from(rel@, rows@, want@, 0, acc@);
    let mut out = acc;
    let mut i: usize = 0;
    while i < want.len()
        invariant
            i <= want@.len(),
            kind_of(rel@.keys) == RelKind::Tx || kind_of(rel@.keys) == RelKind::Bi,
            goal == declared_from(rel@, rows@, want@, i as int, out@),
        decreases want@.len() - i,
    {
        if !is_already(rel, rows, want.get(i)) {
            out.push(want.get(i).dup());
        }
        i = i + 1;
    }
    out
}

/// The key, without a transaction time, that retracts the belief of a row.
pub open spec fn retraction_key(row: Seq<Value>, k: RelKind, nk: int) -> Seq<Value> {
    if k == RelKind::Bi {
        id_of(row, k, nk).push(Value::Validity(vt_of(row, k, nk), false))
    } else {
        id_of(row, k, nk)
    }
}

fn key_to_retract(row: &Tuple, k: RelKind, nk: usize) -> (r: Tuple)
    requires
        id_width(k, nk as int) >= 0,
    ensures
        r@ == retraction_key(row@, k, nk as int),
{
    let mut key = id(row, k, nk);
    if k == RelKind::Bi {
        key.push(DataValue::Validity(vt_in(row, k, nk), false));
    }
    key
}

/// Pending writes with retractions of the beliefs from place `i` on that a
/// declaration does not want.
pub open spec fn retracted_from(
    rel: RelationV,
    rows: Seq<Seq<Value>>,
    want: Seq<PendingV>,
    i: int,
    acc: Seq<PendingV>,
) -> Seq<PendingV>
    decreases rows.len() - i,
{
    let k = kind_of(rel.keys);
    let nk = rel.keys.len() as int;
    if i < 0 || i >= rows.len() {
        acc
    } else if believed(rows, i, k, nk, LATEST) && flag_of(rows[i], k, nk) && pending_from(
        want,
        rel.name,
        retraction_key(rows[i], k, nk),
        k,
        0,
    ) >= want.len() {
        retracted_from(
            rel,
            rows,
            want,
            i + 1,
            acc.push(
                PendingV {
                    rel: rel.name,
                    key: retraction_key(rows[i], k, nk),
                    flag: false,
                    vals: rest_of(rows[i], nk),
                },
            ),
        )
    } else {
        retracted_from(rel, rows, want, i + 1, acc)
    }
}

fn retract(
    rel: &Relation,
    rows: &Rows,
    want: &List<Pending>,
    acc: List<Pending>,
) -> (r: List<Pending>)
    requires
        kind_of(rel@.keys) == RelKind::Tx || kind_of(rel@.keys) == RelKind::Bi,
    ensures
        r@ == retracted_from(rel@, rows@, want@, 0, acc@),
{
    let ghost goal = retracted_from(rel@, rows@, want@, 0, acc@);
    let k = kind(&rel.keys);
    let nk = rel.keys.len();
    let mut out = acc;
    let mut i: usize = 0;
    while i < rows.len()
        invariant
            i <= rows@.len(),
            k == kind_of(rel@.keys),
            nk == rel@.keys.len(),
            kind_of(rel@.keys) == RelKind::Tx || kind_of(rel@.keys) == RelKind::Bi,
            goal == retracted_from(rel@, rows@, want@, i as int, out@),
        decreases rows@.len() - i,
    {
        let row = rows.get(i);
        if is_believed(rows, i, k, nk, LATEST) && flag_in(row, k, nk) {
            let key = key_to_retract(row, k, nk);
            if find_pending(want, &rel.name, &key, k) >= want.len() {
                out.push(
                    Pending { rel: rel.name.clone(), key, flag: false, vals: rest(row, nk) },
                );
            }
        }
        i = i + 1;
    }
    out
}

/// The writes that bring what is believed at present to what rows declare:
/// beliefs that are not held yet, and retractions of all others.
pub open spec fn reconciled_of(
    rel: RelationV,
    rows: Seq<Seq<Value>>,
    gs: Seq<Option<usize>>,
    given: Seq<Seq<Value>>,
    ctx: Ctx,
    pending: Seq<PendingV>,
) -> Result<Seq<PendingV>, Fault> {
    match wants_from(rel, gs, given, ctx, 0, Seq::empty()) {
        Err(f) => Err(f),
        Ok(want) => Ok(
            retracted_from(
                rel,
                rows,
                want,
                0,
                declared_from(rel, rows, want, 0, pending),
            ),
        ),
    }
}

/// The writes that bring what is believed at present to what rows declare.
pub fn reconcile(
    rel: &Relation,
    rows: &Rows,
    gs: &List<Option<usize>>,
    given: &Rows,
    ctx: Ctx,
    pending: List<Pending>,
) -> (r: Result<List<Pending>, DbError>)
    requires
        kind_of(rel@.keys) == RelKind::Tx || kind_of(rel@.keys) == RelKind::Bi,
    ensures
        outcome(r) == reconciled_of(rel@, rows@, gs@, given@, ctx, pending@),
{
    match wants(rel, gs, given, ctx, List::new()) {
        Err(e) => Err(e),
        Ok(want) => Ok(retract(rel, rows, &want, declare(rel, rows, &want, pending))),
    }
}

proof fn lemma_declared_none(
    rel: RelationV,
    rows: Seq<Seq<Value>>,
    want: Seq<PendingV>,
    i: int,
    acc: Seq<PendingV>,
)
    requires
        0 <= i,
        forall|j: int| 0 <= j < want.len() ==> already(rel, rows, #[trigger] want[j]),
    ensures
        declared_from(rel, rows, want, i, acc) == acc,
    decreases want.len() - i,
{
    if i < want.len() {
        lemma_declared_none(rel, rows, want, i + 1, acc);
    }
}

proof fn lemma_retracted_none(
    rel: RelationV,
    rows: Seq<Seq<Value>>,
    want: Seq<PendingV>,
    i: int,
    acc: Seq<PendingV>,
)
    requires
        0 <= i,
        forall|j: int|
        0 <= j < rows.len() && believed(rows, j, kind_of(rel.keys), rel.keys.len() as int, LATEST)
        && flag_of(#[trigger] rows[j], kind_of(rel.keys), rel.keys.len() as int)
        ==> pending_from(
            want,
            rel.name,
            retraction_key(rows[j], kind_of(rel.keys), rel.keys.len() as int),
            kind_of(rel.keys),
            0,
        ) < want.len(),
    ensures
        retracted_from(rel, rows, want, i, acc) == acc,
    decreases rows.len() - i,
{
    if i < rows.len() {
        assert(rows[i] == rows[i]);
        lemma_retracted_none(rel, rows, want, i + 1, acc);
    }
}

/// A declaration of exactly what is believed at present writes nothing: where
/// every wanted belief is held, and every belief that is held is wanted, no
/// write is added.
pub proof fn law_reconcile_settled(
    rel: RelationV,
    rows: Seq<Seq<Value>>,
    gs: Seq<Option<usize>>,
    given: Seq<Seq<Value>>,
    ctx: Ctx,
    pending: Seq<PendingV>,
    want: Seq<PendingV>,
)
    requires
        wants_from(rel, gs, given, ctx, 0, Seq::empty()) == Ok::<Seq<PendingV>, Fault>(want),
        forall|j: int| 0 <= j < want.len() ==> already(rel, rows, #[trigger] want[j]),
        forall|j: int|
        0 <= j < rows.len() && believed(rows, j, kind_of(rel.keys), rel.keys.len() as int, LATEST)
        && flag_of(#[trigger] rows[j], kind_of(rel.keys), rel.keys.len() as int)
        ==> pending_from(
            want,
            rel.name,
            retraction_key(rows[j], kind_of(rel.keys), rel.keys.len() as int),
            kind_of(rel.keys),
            0,
        ) < want.len(),
    ensures
        reconciled_of(rel, rows, gs, given, ctx, pending) == Ok::<Seq<PendingV>, Fault>(pending),
{
    lemma_declared_none(rel, rows, want, 0, pending);
    lemma_retracted_none(rel, rows, want, 0, pending);
}

/// The key of a pending write once it has its transaction time.
pub open spec fn stamped_key(p: PendingV, k: RelKind, tt: i64) -> Seq<Value> {
    if k == RelKind::Bi {
        p.key.push(Value::Validity(tt, true))
    } else {
        p.key.push(Value::Validity(tt, p.flag))
    }
}

/// Relations with the pending writes from place `i` on, stamped with a
/// transaction time.
pub open spec fn stamped_from(
    rels: Seq<RelationV>,
    ps: Seq<PendingV>,
    tt: i64,
    i: int,
) -> Seq<RelationV>
    decreases ps.len() - i,
{
    if i < 0 || i >= ps.len() {
        rels
    } else {
        let r = rel_place(rels, ps[i].rel);
        if r >= rels.len() {
            stamped_from(rels, ps, tt, i + 1)
        } else {
            stamped_from(
                rels.update(
                    r,
                    RelationV {
                        recs: with_rec(
                            rels[r].recs,
                            stamped_key(ps[i], kind_of(rels[r].keys), tt),
                            encode_row_of(ps[i].vals),
                        ),
                        ..rels[r]
                    },
                ),
                ps,
                tt,
                i + 1,
            )
        }
    }
}

/// Writes what is pending, stamped with a transaction time.
pub fn stamp(rels: List<Relation>, ps: &List<Pending>, tt: i64) -> (r: List<Relation>)
    ensures
        r@ == stamped_from(rels@, ps@, tt, 0),
{
    let ghost goal = stamped_from(rels@, ps@, tt, 0);
    let mut out = rels;
    let mut i: usize = 0;
    while i < ps.len()
        invariant
            i <= ps@.len(),
            goal == stamped_from(out@, ps@, tt, i as int),
        decreases ps@.len() - i,
    {
        let p = ps.get(i);
        let r = find_rel(&out, &p.rel);
        if r < out.len() {
            let mut rel = out.get(r).dup();
            let k = kind(&rel.keys);
            let mut key = p.key.dup();
            if k == RelKind::Bi {
                key.push(DataValue::Validity(tt, true));
            } else {
                key.push(DataValue::Validity(tt, p.flag));
            }
            let ghost before = rel@;
            rel.recs = stored(rel.recs, key, encode_row(&p.vals));
            assert(rel@ =~= RelationV {
                recs: with_rec(
                    before.recs,
                    stamped_key(p@, kind_of(before.keys), tt),
                    encode_row_of(p@.vals),
                ),
                ..before
            });
            out.set(r, rel);
        }
        i = i + 1;
    }
    out
}

} // verus!
