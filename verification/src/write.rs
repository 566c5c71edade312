//! Writing rows to relations without transaction times.
use vstd::prelude::*;

use crate::codec::{decode_row, decode_row_of, encode_row, encode_row_of};
use crate::error::{DbError, ErrKind, Fault, err, err_on, fault, fault_on, outcome};
use crate::expr::{Ctx, branch, branched, eval, eval_of};
use crate::list::{Dup, List};
use crate::parse::pushed;
use crate::query::WriteKind;
use crate::schema::{Column, ColumnV, coerce, coerced};
use crate::store::{
    Pending, PendingV, Record, RecordV, Relation, RelationV, del_rec, lookup, lookup_of, put_rec,
    with_rec, without_rec,
};
use crate::table::joined;
use crate::temporal::cell;
use crate::value::{DataValue, Tuple, Value, same};

verus! {

/// What a write has done so far.
pub struct Work {
    pub recs: List<Record>,
    pub pending: List<Pending>,
    /// The rows that were written or asked for.
    pub news: List<Tuple>,
    /// The rows that were replaced or removed.
    pub olds: List<Tuple>,
}

/// The mathematical counterpart of [`Work`].
#[verifier::ext_equal]
pub struct WorkV {
    pub recs: Seq<RecordV>,
    pub pending: Seq<PendingV>,
    pub news: Seq<Seq<Value>>,
    pub olds: Seq<Seq<Value>>,
}

impl View for Work {
    type V = WorkV;
    open spec fn view(&self) -> WorkV {
        WorkV {
            recs: self.recs@,
            pending: self.pending@,
            news: self.news@,
            olds: self.olds@,
        }
    }
}

impl Dup for Work {
    fn dup(&self) -> (r: Self) {
        Work {
            recs: self.recs.dup(),
            pending: self.pending.dup(),
            news: self.news.dup(),
            olds: self.olds.dup(),
        }
    }
}

/// The values under a key.
pub enum Found {
    Absent,
    Present(Tuple),
}

/// The mathematical counterpart of [`Found`].
pub enum FoundV {
    Absent,
    Present(Seq<Value>),
}

impl View for Found {
    type V = FoundV;
    open spec fn view(&self) -> FoundV {
        match *self {
            Found::Absent => FoundV::Absent,
            Found::Present(a) => FoundV::Present(a@),
        }
    }
}

impl Dup for Found {
    fn dup(&self) -> (r: Self) {
        match self {
            Found::Absent => Found::Absent,
            Found::Present(a) => Found::Present(a.dup()),
        }
    }
}

/// Records with these bytes under a key.
pub fn stored(recs: List<Record>, key: Tuple, blob: Vec<u8>) -> (r: List<Record>)
    ensures
        r@ == with_rec(recs@, key@, blob@),
{
    let mut out = recs;
    put_rec(&mut out, key, blob);
    out
}

/// Records without any under a key.
pub fn erased(recs: List<Record>, key: &Tuple) -> (r: List<Record>)
    ensures
        r@ == without_rec(recs@, key@),
{
    let mut out = recs;
    del_rec(&mut out, key);
    out
}

/// The value in a column, and null where the row is too short.
pub fn cell_of(row: &Tuple, k: usize) -> (r: DataValue)
    ensures
        r@ == cell(row@, k as int),
{
    if k < row.len() {
        row.get(k).dup()
    } else {
        DataValue::Null
    }
}

/// So many nulls after a row.
pub open spec fn padded(row: Seq<Value>, n: nat) -> Seq<Value>
    decreases n,
{
    if n == 0 {
        row
    } else {
        padded(row.push(Value::Null), (n - 1) as nat)
    }
}

/// So many nulls after a row.
pub fn pad(row: Tuple, n: usize) -> (r: Tuple)
    ensures
        r@ == padded(row@, n as nat),
{
    let ghost goal = padded(row@, n as nat);
    let mut out = row;
    let mut left: usize = n;
    while left > 0
        invariant
            goal == padded(out@, left as nat),
        decreases left,
    {
        out.push(DataValue::Null);
        left = left - 1;
    }
    out
}

/// The values under a key.
pub open spec fn fetch_of(recs: Seq<RecordV>, key: Seq<Value>) -> Result<FoundV, Fault> {
    match lookup_of(recs, key) {
        None => Ok(FoundV::Absent),
        Some(b) => match decode_row_of(b) {
            Some(v) => Ok(FoundV::Present(v)),
            None => Err(fault(ErrKind::CorruptBlob)),
        },
    }
}

/// The values under a key.
pub fn fetch(recs: &List<Record>, key: &Tuple) -> (r: Result<Found, DbError>)
    ensures
        outcome(r) == fetch_of(recs@, key@),
{
    match lookup(recs, key) {
        None => Ok(Found::Absent),
        Some(b) => match decode_row(&b) {
            Some(v) => Ok(Found::Present(v)),
            None => Err(err(ErrKind::CorruptBlob)),
        },
    }
}

/// The value that a write gives a column: that of the row where it has one,
/// else the default.
pub open spec fn fill_of(
    col: ColumnV,
    g: Option<usize>,
    row: Seq<Value>,
    ctx: Ctx,
) -> Result<Value, Fault> {
    match g {
        Some(p) => match coerced(cell(row, p as int), col.typ, ctx.now) {
            Some(v) => Ok(v),
            None => Err(fault_on(ErrKind::Coercion, col.name)),
        },
        None => match col.default {
            None => Err(fault_on(ErrKind::ColumnMissing, col.name)),
            Some(d) => match eval_of(d, Seq::empty(), Seq::empty(), ctx) {
                Err(f) => Err(f),
                Ok(v) => match coerced(v, col.typ, ctx.now) {
                    Some(w) => Ok(w),
                    None => Err(fault_on(ErrKind::Coercion, col.name)),
                },
            },
        },
    }
}

fn fill(col: &Column, g: Option<usize>, row: &Tuple, ctx: Ctx) -> (r: Result<DataValue, DbError>)
    ensures
        outcome(r) == fill_of(col@, g, row@, ctx),
{
    match g {
        Some(p) => match coerce(&cell_of(row, p), &col.typ, ctx.now) {
            Some(v) => Ok(v),
            None => Err(err_on(ErrKind::Coercion, col.name.as_str())),
        },
        None => match &col.default {
            None => Err(err_on(ErrKind::ColumnMissing, col.name.as_str())),
            Some(d) => match eval(d, &List::new(), &List::new(), ctx) {
                Err(e) => Err(e),
                Ok(v) => match coerce(&v, &col.typ, ctx.now) {
                    Some(w) => Ok(w),
                    None => Err(err_on(ErrKind::Coercion, col.name.as_str())),
                },
            },
        },
    }
}

/// Where a write takes the value of a column from.
pub open spec fn given_at(gs: Seq<Option<usize>>, k: int) -> Option<usize> {
    if 0 <= k < gs.len() {
        gs[k]
    } else {
        None
    }
}

/// Where a write takes the value of a column from.
pub fn given(gs: &List<Option<usize>>, off: usize, k: usize) -> (r: Option<usize>)
    ensures
        r == given_at(gs@, off + k),
{
    if off < gs.len() && k < gs.len() - off {
        *gs.get(off + k)
    } else {
        None
    }
}

/// The values that a write gives columns, from place `i` on.
pub open spec fn fills_from(
    cols: Seq<ColumnV>,
    gs: Seq<Option<usize>>,
    off: int,
    row: Seq<Value>,
    ctx: Ctx,
    i: int,
    acc: Seq<Value>,
) -> Result<Seq<Value>, Fault>
    decreases cols.len() - i,
{
    if i < 0 || i >= cols.len() {
        Ok(acc)
    } else {
        let step = match fill_of(
            cols[i],
            given_at(gs, off + i),
            row,
            branched(branched(ctx, off), i),
        ) {
            Err(f) => Err(f),
            Ok(v) => Ok(acc.push(v)),
        };
        match step {
            Err(f) => Err(f),
            Ok(next) => fills_from(cols, gs, off, row, ctx, i + 1, next),
        }
    }
}

/// The values that a write gives columns, from place `i` on.
pub fn fills(
    cols: &List<Column>,
    gs: &List<Option<usize>>,
    off: usize,
    row: &Tuple,
    ctx: Ctx,
    acc: Tuple,
) -> (r: Result<Tuple, DbError>)
    ensures
        outcome(r) == fills_from(cols@, gs@, off as int, row@, ctx, 0, acc@),
{
    let ghost goal = fills_from(cols@, gs@, off as int, row@, ctx, 0, acc@);
    let mut state: Tuple = acc;
    let mut i: usize = 0;
    while i < cols.len()
        invariant
            i <= cols@.len(),
            goal == fills_from(cols@, gs@, off as int, row@, ctx, 0, acc@),
            goal == fills_from(cols@, gs@, off as int, row@, ctx, i as int, state@),
        decreases cols@.len() - i,
    {
        let step = match fill(cols.get(i), given(gs, off, i), row, branch(branch(ctx, off), i)) {
            Err(e) => Err(e),
            Ok(v) => Ok(pushed(state, v)),
        };
        match step {
            Err(e) => {
                return Err(e);
            },
            Ok(next) => {
                state = next;
            },
        }
        i = i + 1;
    }
    Ok(state)
}

/// The values that an update leaves in columns, from place `i` on: those that it
/// gives, else the old ones.
pub open spec fn merges_from(
    cols: Seq<ColumnV>,
    gs: Seq<Option<usize>>,
    off: int,
    old: Seq<Value>,
    row: Seq<Value>,
    ctx: Ctx,
    i: int,
    acc: Seq<Value>,
) -> Result<Seq<Value>, Fault>
    decreases cols.len() - i,
{
    if i < 0 || i >= cols.len() {
        Ok(acc)
    } else {
        let step = match given_at(gs, off + i) {
            None => Ok(acc.push(cell(old, i))),
            Some(p) => match fill_of(cols[i], Some(p), row, ctx) {
                Err(f) => Err(f),
                Ok(v) => Ok(acc.push(v)),
            },
        };
        match step {
            Err(f) => Err(f),
            Ok(next) => merges_from(cols, gs, off, old, row, ctx, i + 1, next),
        }
    }
}

/// The values that an update leaves in columns, from place `i` on: those that it
/// gives, else the old ones.
pub fn merges(
    cols: &List<Column>,
    gs: &List<Option<usize>>,
    off: usize,
    old: &Tuple,
    row: &Tuple,
    ctx: Ctx,
    acc: Tuple,
) -> (r: Result<Tuple, DbError>)
    ensures
        outcome(r) == merges_from(cols@, gs@, off as int, old@, row@, ctx, 0, acc@),
{
    let ghost goal = merges_from(cols@, gs@, off as int, old@, row@, ctx, 0, acc@);
    let mut state: Tuple = acc;
    let mut i: usize = 0;
    while i < cols.len()
        invariant
            i <= cols@.len(),
            goal == merges_from(cols@, gs@, off as int, old@, row@, ctx, 0, acc@),
            goal == merges_from(cols@, gs@, off as int, old@, row@, ctx, i as int, state@),
        decreases cols@.len() - i,
    {
        let step = match given(gs, off, i) {
            None => Ok(pushed(state, cell_of(old, i))),
            Some(p) => match fill(cols.get(i), Some(p), row, ctx) {
                Err(e) => Err(e),
                Ok(v) => Ok(pushed(state, v)),
            },
        };
        match step {
            Err(e) => {
                return Err(e);
            },
            Ok(next) => {
                state = next;
            },
        }
        i = i + 1;
    }
    Ok(state)
}

/// Whether the values that a row gives differ from those there are, from place
/// `i` on.
pub open spec fn differs_from(
    cols: Seq<ColumnV>,
    gs: Seq<Option<usize>>,
    off: int,
    old: Seq<Value>,
    row: Seq<Value>,
    ctx: Ctx,
    i: int,
    acc: bool,
) -> Result<bool, Fault>
    decreases cols.len() - i,
{
    if i < 0 || i >= cols.len() {
        Ok(acc)
    } else {
        let step = match given_at(gs, off + i) {
            None => Ok(acc),
            Some(p) => match fill_of(cols[i], Some(p), row, ctx) {
                Err(f) => Err(f),
                Ok(v) => Ok(acc || !(v == cell(old, i))),
            },
        };
        match step {
            Err(f) => Err(f),
            Ok(next) => differs_from(cols, gs, off, old, row, ctx, i + 1, next),
        }
    }
}

/// Whether the values that a row gives differ from those there are, from place
/// `i` on.
pub fn differs(
    cols: &List<Column>,
    gs: &List<Option<usize>>,
    off: usize,
    old: &Tuple,
    row: &Tuple,
    ctx: Ctx,
    acc: bool,
) -> (r: Result<bool, DbError>)
    ensures
        outcome(r) == differs_from(cols@, gs@, off as int, old@, row@, ctx, 0, acc),
{
    let ghost goal = differs_from(cols@, gs@, off as int, old@, row@, ctx, 0, acc);
    let mut state: bool = acc;
    let mut i: usize = 0;
    while i < cols.len()
        invariant
            i <= cols@.len(),
            goal == differs_from(cols@, gs@, off as int, old@, row@, ctx, 0, acc),
            goal == differs_from(cols@, gs@, off as int, old@, row@, ctx, i as int, state),
        decreases cols@.len() - i,
    {
        let step = match given(gs, off, i) {
            None => Ok(state),
            Some(p) => match fill(cols.get(i), Some(p), row, ctx) {
                Err(e) => Err(e),
                Ok(v) => Ok(state || !(same(&v, &cell_of(old, i)))),
            },
        };
        match step {
            Err(e) => {
                return Err(e);
            },
            Ok(next) => {
                state = next;
            },
        }
        i = i + 1;
    }
    Ok(state)
}

/// The effect of writing one row.
pub open spec fn plain_row_of(
    op: WriteKind,
    rel: RelationV,
    gs: Seq<Option<usize>>,
    row: Seq<Value>,
    ctx: Ctx,
    work: WorkV,
) -> Result<WorkV, Fault> {
    match fills_from(rel.keys, gs, 0, row, ctx, 0, Seq::empty()) {
        Err(f) => Err(f),
        Ok(key) => {
            match fetch_of(work.recs, key) {
                Err(f) => Err(f),
                Ok(old) => {
                    match op {
                        WriteKind::Rm | WriteKind::Delete => match old {
                            FoundV::Absent => if op == WriteKind::Delete {
                                Err(fault_on(ErrKind::DoesNotExist, rel.name))
                            } else {
                                Ok(
                                    WorkV {
                                        news: work.news.push(padded(key, rel.vals.len())),
                                        ..work
                                    },
                                )
                            },
                            FoundV::Present(v) => Ok(WorkV {
                                recs: without_rec(work.recs, key),
                                olds: work.olds.push(key + v),
                                news: work.news.push(padded(key, rel.vals.len())),
                                ..work
                            }),
                        },
                        WriteKind::Ensure => match old {
                            FoundV::Absent => Err(fault_on(ErrKind::EnsureMismatch, rel.name)),
                            FoundV::Present(v) => match differs_from(
                                rel.vals,
                                gs,
                                rel.keys.len() as int,
                                v,
                                row,
                                ctx,
                                0,
                                false,
                            ) {
                                Err(f) => Err(f),
                                Ok(d) => {
                                    if d {
                                        Err(fault_on(ErrKind::EnsureMismatch, rel.name))
                                    } else {
                                        Ok(work)
                                    }
                                }
                            },
                        },
                        WriteKind::EnsureNot => match old {
                            FoundV::Absent => Ok(work),
                            FoundV::Present(_) => Err(fault_on(ErrKind::KeyExists, rel.name)),
                        },
                        WriteKind::Update => match old {
                            FoundV::Absent => Err(fault_on(ErrKind::DoesNotExist, rel.name)),
                            FoundV::Present(v) => match merges_from(
                                rel.vals,
                                gs,
                                rel.keys.len() as int,
                                v,
                                row,
                                ctx,
                                0,
                                Seq::empty(),
                            ) {
                                Err(f) => Err(f),
                                Ok(w) => {
                                    Ok(WorkV {
                                        news: work.news.push(key + w),
                                        olds: work.olds.push(key + v),
                                        recs: with_rec(work.recs, key, encode_row_of(w)),
                                        ..work
                                    })
                                }
                            },
                        },
                        WriteKind::Reconcile => Err(fault_on(ErrKind::RequiresTt, rel.name)),
                        _ => match fills_from(
                            rel.vals,
                            gs,
                            rel.keys.len() as int,
                            row,
                            ctx,
                            0,
                            Seq::empty(),
                        ) {
                            Err(f) => Err(f),
                            Ok(w) => {
                                match old {
                                    FoundV::Absent => Ok(WorkV {
                                        news: work.news.push(key + w),
                                        recs: with_rec(work.recs, key, encode_row_of(w)),
                                        ..work
                                    }),
                                    FoundV::Present(v) => if op == WriteKind::Insert {
                                        Err(fault_on(ErrKind::KeyExists, rel.name))
                                    } else {
                                        Ok(WorkV {
                                            news: work.news.push(key + w),
                                            olds: work.olds.push(key + v),
                                            recs: with_rec(work.recs, key, encode_row_of(w)),
                                            ..work
                                        })
                                    },
                                }
                            }
                        },
                    }
                }
            }
        }
    }
}

/// The effect of writing one row.
pub fn plain_row(
    op: WriteKind,
    rel: &Relation,
    gs: &List<Option<usize>>,
    row: &Tuple,
    ctx: Ctx,
    work: Work,
) -> (r: Result<Work, DbError>)
    ensures
        outcome(r) == plain_row_of(op, rel@, gs@, row@, ctx, work@),
{
    match fills(&rel.keys, gs, 0, row, ctx, List::new()) {
        Err(e) => Err(e),
        Ok(key) => {
            match fetch(&work.recs, &key) {
                Err(e) => Err(e),
                Ok(old) => {
                    match op {
                        WriteKind::Rm | WriteKind::Delete => match old {
                            Found::Absent => if op == WriteKind::Delete {
                                Err(err_on(ErrKind::DoesNotExist, rel.name.as_str()))
                            } else {
                                Ok(
                                    Work {
                                        news: pushed(work.news, pad(key, rel.vals.len())),
                                        ..work
                                    },
                                )
                            },
                            Found::Present(v) => Ok(Work {
                                recs: erased(work.recs, &key),
                                olds: pushed(work.olds, joined(&key, &v)),
                                news: pushed(work.news, pad(key, rel.vals.len())),
                                ..work
                            }),
                        },
                        WriteKind::Ensure => match old {
                            Found::Absent => Err(
                                err_on(ErrKind::EnsureMismatch, rel.name.as_str()),
                            ),
                            Found::Present(v) => match differs(
                                &rel.vals,
                                gs,
                                rel.keys.len(),
                                &v,
                                row,
                                ctx,
                                false,
                            ) {
                                Err(e) => Err(e),
                                Ok(d) => {
                                    if d {
                                        Err(err_on(ErrKind::EnsureMismatch, rel.name.as_str()))
                                    } else {
                                        Ok(work)
                                    }
                                }
                            },
                        },
                        WriteKind::EnsureNot => match old {
                            Found::Absent => Ok(work),
                            Found::Present(_) => Err(err_on(ErrKind::KeyExists, rel.name.as_str())),
                        },
                        WriteKind::Update => match old {
                            Found::Absent => Err(err_on(ErrKind::DoesNotExist, rel.name.as_str())),
                            Found::Present(v) => match merges(
                                &rel.vals,
                                gs,
                                rel.keys.len(),
                                &v,
                                row,
                                ctx,
                                List::new(),
                            ) {
                                Err(e) => Err(e),
                                Ok(w) => {
                                    Ok(Work {
                                        news: pushed(work.news, joined(&key, &w)),
                                        olds: pushed(work.olds, joined(&key, &v)),
                                        recs: stored(work.recs, key, encode_row(&w)),
                                        ..work
                                    })
                                }
                            },
                        },
                        WriteKind::Reconcile => Err(err_on(ErrKind::RequiresTt, rel.name.as_str())),
                        _ => match fills(&rel.vals, gs, rel.keys.len(), row, ctx, List::new()) {
                            Err(e) => Err(e),
                            Ok(w) => {
                                match old {
                                    Found::Absent => Ok(Work {
                                        news: pushed(work.news, joined(&key, &w)),
                                        recs: stored(work.recs, key, encode_row(&w)),
                                        ..work
                                    }),
                                    Found::Present(v) => if op == WriteKind::Insert {
                                        Err(err_on(ErrKind::KeyExists, rel.name.as_str()))
                                    } else {
                                        Ok(Work {
                                            news: pushed(work.news, joined(&key, &w)),
                                            olds: pushed(work.olds, joined(&key, &v)),
                                            recs: stored(work.recs, key, encode_row(&w)),
                                            ..work
                                        })
                                    },
                                }
                            }
                        },
                    }
                }
            }
        }
    }
}

/// A context that tells the rows of a write apart.
pub open spec fn salted(ctx: Ctx, i: int) -> Ctx {
    Ctx { now: ctx.now, tick: ctx.tick, salt: i as u64 }
}

/// A context that tells the rows of a write apart.
pub fn salt(ctx: Ctx, i: usize) -> (r: Ctx)
    ensures
        r == salted(ctx, i as int),
{
    Ctx { now: ctx.now, tick: ctx.tick, salt: i as u64 }
}

/// The effect of writing the rows from place `i` on.
pub open spec fn plain_rows_from(
    op: WriteKind,
    rel: RelationV,
    gs: Seq<Option<usize>>,
    rows: Seq<Seq<Value>>,
    ctx: Ctx,
    i: int,
    work: WorkV,
) -> Result<WorkV, Fault>
    decreases rows.len() - i,
{
    if i < 0 || i >= rows.len() {
        Ok(work)
    } else {
        match plain_row_of(op, rel, gs, rows[i], salted(ctx, i), work) {
            Err(f) => Err(f),
            Ok(next) => plain_rows_from(op, rel, gs, rows, ctx, i + 1, next),
        }
    }
}

/// The effect of writing the rows from place `i` on.
pub fn plain_rows(
    op: WriteKind,
    rel: &Relation,
    gs: &List<Option<usize>>,
    rows: &List<Tuple>,
    ctx: Ctx,
    work: Work,
) -> (r: Result<Work, DbError>)
    ensures
        outcome(r) == plain_rows_from(op, rel@, gs@, rows@, ctx, 0, work@),
{
    let ghost goal = plain_rows_from(op, rel@, gs@, rows@, ctx, 0, work@);
    let mut state: Work = work;
    let mut i: usize = 0;
    while i < rows.len()
        invariant
            i <= rows@.len(),
            goal == plain_rows_from(op, rel@, gs@, rows@, ctx, 0, work@),
            goal == plain_rows_from(op, rel@, gs@, rows@, ctx, i as int, state@),
        decreases rows@.len() - i,
    {
        match plain_row(op, rel, gs, rows.get(i), salt(ctx, i), state) {
            Err(e) => {
                return Err(e);
            },
            Ok(next) => {
                state = next;
            },
        }
        i = i + 1;
    }
    Ok(state)
}

} // verus!
