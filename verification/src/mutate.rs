//! Queries that write: making relations, writing rows, and what follows.
use vstd::prelude::*;

use crate::aggr::{Custom, CustomV};
use crate::bind::{Table, TableV};
use crate::error::{DbError, ErrKind, Fault, err, err_on, fault, fault_on, outcome};
use crate::eval::{answer, answer_of};
use crate::expr::{Ctx, find, place};
use crate::list::{Dup, List};
use crate::parse::pushed;
use crate::query::{Program, ProgramV, Write, WriteKind, WriteV};
use crate::scan::{Source, SourceV};
use crate::schema::{ColType, Column, ColumnV, RelKind, axis_fault, check_axes, kind, kind_of};
use crate::search::{index_records, indexed_from};
use crate::store::{
    Access, Event, EventV, Pending, PendingV, Relation, RelationV, Search, SearchV, Store, StoreV,
    TrigKind, Trigger, TriggerV, columns, columns_of, decode_all, decoded_from, find_rel, names,
    names_of, permits, permitted, rel_place,
};
use crate::table::{Rows, joined, prefix};
use crate::value::{DataValue, Tuple, Value};
use crate::write::{Work, WorkV, plain_rows, plain_rows_from};
use crate::write_tt::{reconcile, reconciled_of, tt_rows, tt_rows_from};

verus! {

/// A store after a write, with the rows that were written and those that were
/// replaced or removed.
pub struct Effect {
    pub store: Store,
    pub news: List<Tuple>,
    pub olds: List<Tuple>,
}

/// The mathematical counterpart of [`Effect`].
#[verifier::ext_equal]
pub struct EffectV {
    pub store: StoreV,
    pub news: Seq<Seq<Value>>,
    pub olds: Seq<Seq<Value>>,
}

impl View for Effect {
    type V = EffectV;
    open spec fn view(&self) -> EffectV {
        EffectV {
            store: self.store@,
            news: self.news@,
            olds: self.olds@,
        }
    }
}

impl Dup for Effect {
    fn dup(&self) -> (r: Self) {
        Effect {
            store: self.store.dup(),
            news: self.news.dup(),
            olds: self.olds.dup(),
        }
    }
}

/// A store after a query, and the rows that the query shows.
pub struct Done {
    pub store: Store,
    pub out: Source,
}

/// The mathematical counterpart of [`Done`].
#[verifier::ext_equal]
pub struct DoneV {
    pub store: StoreV,
    pub out: SourceV,
}

impl View for Done {
    type V = DoneV;
    open spec fn view(&self) -> DoneV {
        DoneV {
            store: self.store@,
            out: self.out@,
        }
    }
}

impl Dup for Done {
    fn dup(&self) -> (r: Self) {
        Done {
            store: self.store.dup(),
            out: self.out.dup(),
        }
    }
}

/// Whether a name is that of a relation that lives as long as its script.
pub open spec fn is_temp(name: Seq<char>) -> bool {
    name.len() > 0 && name[0] == '_'
}

/// Whether a name is that of a relation that lives as long as its script.
pub fn temp(name: &String) -> (r: bool)
    ensures
        r == is_temp(name@),
{
    let s = name.as_str();
    s.unicode_len() > 0 && s.get_char(0) == '_'
}

/// Names one after the other.
pub fn chain_names(a: List<String>, b: &List<String>) -> (r: List<String>)
    ensures
        r@ == a@ + b@,
{
    let ghost first = a@;
    let mut r = a;
    let mut i: usize = 0;
    assert(r@ =~= first + b@.take(0));
    while i < b.len()
        invariant
            i <= b@.len(),
            r@ == first + b@.take(i as int),
        decreases b@.len() - i,
    {
        r.push(b.get(i).clone());
        assert(first + b@.take(i + 1) =~= (first + b@.take(i as int)).push(b@[i as int]));
        i = i + 1;
    }
    assert(b@.take(i as int) =~= b@);
    r
}

/// The columns that a write names: where it names none, those of the rows.
pub open spec fn written_names(w: WriteV, headers: Seq<Seq<char>>) -> Seq<Seq<char>> {
    if w.keys.len() == 0 && w.vals.len() == 0 {
        headers
    } else {
        names_of(w.keys) + names_of(w.vals)
    }
}

fn names_written(w: &Write, headers: &List<String>) -> (r: List<String>)
    ensures
        r@ == written_names(w@, headers@),
{
    if w.keys.len() == 0 && w.vals.len() == 0 {
        headers.dup()
    } else {
        chain_names(names(&w.keys), &names(&w.vals))
    }
}

/// The first name from place `i` on that is not among others, and the length
/// where there is none.
pub open spec fn foreign_from(ns: Seq<Seq<char>>, all: Seq<Seq<char>>, i: int) -> int
    decreases ns.len() - i,
{
    if i < 0 || i >= ns.len() {
        ns.len() as int
    } else if place(all, ns[i]) >= all.len() {
        i
    } else {
        foreign_from(ns, all, i + 1)
    }
}

/// The first name that is not among others.
pub fn find_foreign(ns: &List<String>, all: &List<String>) -> (r: usize)
    ensures
        r == foreign_from(ns@, all@, 0),
        r <= ns@.len(),
{
    let mut i: usize = 0;
    while i < ns.len()
        invariant
            i <= ns@.len(),
            foreign_from(ns@, all@, 0) == foreign_from(ns@, all@, i as int),
        decreases ns@.len() - i,
    {
        if find(all, ns.get(i)) >= all.len() {
            return i;
        }
        i = i + 1;
    }
    i
}

/// The first name from place `i` on that also stands earlier, and the length
/// where there is none.
pub open spec fn repeated_from(ns: Seq<Seq<char>>, i: int) -> int
    decreases ns.len() - i,
{
    if i < 0 || i >= ns.len() {
        ns.len() as int
    } else if place(ns, ns[i]) < i {
        i
    } else {
        repeated_from(ns, i + 1)
    }
}

pub fn find_repeated(ns: &List<String>) -> (r: usize)
    ensures
        r == repeated_from(ns@, 0),
        r <= ns@.len(),
{
    let mut i: usize = 0;
    while i < ns.len()
        invariant
            i <= ns@.len(),
            repeated_from(ns@, 0) == repeated_from(ns@, i as int),
        decreases ns@.len() - i,
    {
        if find(ns, ns.get(i)) < i {
            return i;
        }
        i = i + 1;
    }
    i
}

/// Columns of any type with these names.
pub open spec fn loose_columns(ns: Seq<Seq<char>>) -> Seq<ColumnV> {
    Seq::new(ns.len(), |i: int| ColumnV { name: ns[i], typ: ColType::Any, default: None })
}

pub fn columns_from_names(ns: &List<String>) -> (r: List<Column>)
    ensures
        r@ == loose_columns(ns@),
{
    let mut r: List<Column> = List::new();
    let mut i: usize = 0;
    while i < ns.len()
        invariant
            i <= ns@.len(),
            r@ =~= loose_columns(ns@).take(i as int),
        decreases ns@.len() - i,
    {
        r.push(Column { name: ns.get(i).clone(), typ: ColType::Any, default: None });
        i = i + 1;
    }
    assert(loose_columns(ns@).take(i as int) =~= loose_columns(ns@));
    r
}

/// Whether a relation has a column of transaction times.
pub open spec fn has_tt(keys: Seq<ColumnV>) -> bool {
    kind_of(keys) == RelKind::Tx || kind_of(keys) == RelKind::Bi
}

/// Whether a relation has a column of transaction times.
pub fn stamps(keys: &List<Column>) -> (r: bool)
    ensures
        r == has_tt(keys@),
{
    let k = kind(keys);
    k == RelKind::Tx || k == RelKind::Bi
}

/// Whether the column of transaction times is among names.
pub open spec fn names_tt(keys: Seq<ColumnV>, ns: Seq<Seq<char>>) -> bool {
    has_tt(keys) && place(ns, keys[keys.len() - 1].name) < ns.len()
}

fn tt_named(keys: &List<Column>, ns: &List<String>) -> (r: bool)
    ensures
        r == names_tt(keys@, ns@),
{
    stamps(keys) && find(ns, &keys.get(keys.len() - 1).name) < ns.len()
}

/// A new relation.
pub open spec fn fresh_relation(
    name: Seq<char>,
    id: u64,
    keys: Seq<ColumnV>,
    vals: Seq<ColumnV>,
) -> RelationV {
    RelationV {
        name,
        id,
        keys,
        vals,
        recs: Seq::empty(),
        access: Access::Normal,
        triggers: Seq::empty(),
        indices: Seq::empty(),
        searches: Seq::empty(),
        floor: None,
    }
}

fn make_relation(name: String, id: u64, keys: List<Column>, vals: List<Column>) -> (r: Relation)
    ensures
        r@ == fresh_relation(name@, id, keys@, vals@),
{
    Relation {
        name,
        id,
        keys,
        vals,
        recs: List::new(),
        access: Access::Normal,
        triggers: List::new(),
        indices: List::new(),
        searches: List::new(),
        floor: None,
    }
}

/// A store with a new relation.
pub open spec fn created(
    store: StoreV,
    name: Seq<char>,
    keys: Seq<ColumnV>,
    vals: Seq<ColumnV>,
) -> Result<StoreV, Fault> {
    let ns = names_of(keys) + names_of(vals);
    let d = repeated_from(ns, 0);
    if rel_place(store.rels, name) < store.rels.len() {
        Err(fault_on(ErrKind::RelationExists, name))
    } else if d < ns.len() {
        Err(fault_on(ErrKind::DuplicateColumn, ns[d]))
    } else {
        match axis_fault(keys, vals) {
            Some(k) => Err(fault_on(k, name)),
            None => if is_temp(name) && has_tt(keys) {
                Err(fault_on(ErrKind::TempTxTime, name))
            } else if store.next_id == u64::MAX {
                Err(fault(ErrKind::IdsExhausted))
            } else {
                Ok(StoreV {
                    rels: store.rels.push(fresh_relation(name, store.next_id, keys, vals)),
                    next_id: (store.next_id + 1) as u64,
                    ..store
                })
            },
        }
    }
}

/// A store with a new relation.
pub fn create(
    store: Store,
    name: &String,
    keys: List<Column>,
    vals: List<Column>,
) -> (r: Result<Store, DbError>)
    ensures
        outcome(r) == created(store@, name@, keys@, vals@),
{
    let ns = chain_names(names(&keys), &names(&vals));
    let d = find_repeated(&ns);
    if find_rel(&store.rels, name) < store.rels.len() {
        Err(err_on(ErrKind::RelationExists, name.as_str()))
    } else if d < ns.len() {
        Err(err_on(ErrKind::DuplicateColumn, ns.get(d).as_str()))
    } else {
        match check_axes(&keys, &vals) {
            Some(k) => Err(err_on(k, name.as_str())),
            None => if temp(name) && stamps(&keys) {
                Err(err_on(ErrKind::TempTxTime, name.as_str()))
            } else if store.next_id == u64::MAX {
                Err(err(ErrKind::IdsExhausted))
            } else {
                Ok(Store {
                    rels: pushed(
                        store.rels,
                        make_relation(name.clone(), store.next_id, keys, vals),
                    ),
                    next_id: store.next_id + 1,
                    ..store
                })
            },
        }
    }
}

/// Where a write takes the value of a column from: nowhere where it does not name
/// it, or, where it may, where the rows lack it.
pub open spec fn given_place(
    name: Seq<char>,
    wn: Seq<Seq<char>>,
    headers: Seq<Seq<char>>,
    lenient: bool,
) -> Result<Option<usize>, Fault> {
    if place(wn, name) >= wn.len() {
        Ok(None)
    } else {
        let p = place(headers, name);
        if p < headers.len() {
            Ok(Some(p as usize))
        } else if lenient {
            Ok(None)
        } else {
            Err(fault_on(ErrKind::ColumnMissing, name))
        }
    }
}

fn given_of(
    name: &String,
    wn: &List<String>,
    headers: &List<String>,
    lenient: bool,
) -> (r: Result<Option<usize>, DbError>)
    ensures
        outcome(r) == given_place(name@, wn@, headers@, lenient),
{
    if find(wn, name) >= wn.len() {
        Ok(None)
    } else {
        let p = find(headers, name);
        if p < headers.len() {
            Ok(Some(p))
        } else if lenient {
            Ok(None)
        } else {
            Err(err_on(ErrKind::ColumnMissing, name.as_str()))
        }
    }
}

/// Where a write takes the values of columns from, from place `i` on.
pub open spec fn givens_from(
    cols: Seq<ColumnV>,
    wn: Seq<Seq<char>>,
    headers: Seq<Seq<char>>,
    lenient: bool,
    i: int,
    acc: Seq<Option<usize>>,
) -> Result<Seq<Option<usize>>, Fault>
    decreases cols.len() - i,
{
    if i < 0 || i >= cols.len() {
        Ok(acc)
    } else {
        let step = match given_place(cols[i].name, wn, headers, lenient) {
            Err(f) => Err(f),
            Ok(g) => Ok(acc.push(g)),
        };
        match step {
            Err(f) => Err(f),
            Ok(next) => givens_from(cols, wn, headers, lenient, i + 1, next),
        }
    }
}

fn givens(
    cols: &List<Column>,
    wn: &List<String>,
    headers: &List<String>,
    lenient: bool,
    acc: List<Option<usize>>,
) -> (r: Result<List<Option<usize>>, DbError>)
    ensures
        outcome(r) == givens_from(cols@, wn@, headers@, lenient, 0, acc@),
{
    let ghost goal = givens_from(cols@, wn@, headers@, lenient, 0, acc@);
    let mut state: List<Option<usize>> = acc;
    let mut i: usize = 0;
    while i < cols.len()
        invariant
            i <= cols@.len(),
            goal == givens_from(cols@, wn@, headers@, lenient, 0, acc@),
            goal == givens_from(cols@, wn@, headers@, lenient, i as int, state@),
        decreases cols@.len() - i,
    {
        let step = match given_of(&cols.get(i).name, wn, headers, lenient) {
            Err(e) => Err(e),
            Ok(g) => Ok(pushed(state, g)),
        };
        match step {
            Err(e) => {
                return Err(e);
            },
            Ok(next) => {
                state = next;
            },
        }
        i = i + 1;
    }
    Ok(state)
}

/// Search indices of these rows, from place `i` on.
pub open spec fn refreshed_from(
    ss: Seq<SearchV>,
    cols: Seq<Seq<char>>,
    nk: int,
    rows: Seq<Seq<Value>>,
    i: int,
    acc: Seq<SearchV>,
) -> Result<Seq<SearchV>, Fault>
    decreases ss.len() - i,
{
    if i < 0 || i >= ss.len() {
        Ok(acc)
    } else {
        match indexed_from(ss[i], cols, nk, rows, 0, Seq::empty()) {
            Err(f) => Err(f),
            Ok(recs) => refreshed_from(
                ss,
                cols,
                nk,
                rows,
                i + 1,
                acc.push(SearchV { recs, ..ss[i] }),
            ),
        }
    }
}

fn refresh_all(ss: &List<Search>, cols: &List<String>, nk: usize, rows: &Rows) -> (r: Result<
    List<Search>,
    DbError,
>)
    ensures
        outcome(r) == refreshed_from(ss@, cols@, nk as int, rows@, 0, Seq::empty()),
{
    let ghost goal = refreshed_from(ss@, cols@, nk as int, rows@, 0, Seq::empty());
    let mut acc: List<Search> = List::new();
    let mut i: usize = 0;
    while i < ss.len()
        invariant
            i <= ss@.len(),
            goal == refreshed_from(ss@, cols@, nk as int, rows@, 0, Seq::empty()),
            goal == refreshed_from(ss@, cols@, nk as int, rows@, i as int, acc@),
        decreases ss@.len() - i,
    {
        match index_records(ss.get(i), cols, nk, rows) {
            Err(e) => {
                return Err(e);
            },
            Ok(recs) => {
                let s = ss.get(i).dup();
                acc.push(Search { recs, ..s });
            },
        }
        i = i + 1;
    }
    Ok(acc)
}

/// A relation whose search indices follow its rows.
pub open spec fn refreshed(rel: RelationV) -> Result<RelationV, Fault> {
    if rel.searches.len() == 0 {
        Ok(rel)
    } else {
        match decoded_from(rel.recs, 0, Seq::empty()) {
            Err(f) => Err(f),
            Ok(rows) => match refreshed_from(
                rel.searches,
                names_of(columns_of(rel)),
                rel.keys.len() as int,
                rows,
                0,
                Seq::empty(),
            ) {
                Err(f) => Err(f),
                Ok(searches) => Ok(RelationV { searches, ..rel }),
            },
        }
    }
}

/// A relation whose search indices follow its rows.
pub fn refresh(rel: Relation) -> (r: Result<Relation, DbError>)
    ensures
        outcome(r) == refreshed(rel@),
{
    if rel.searches.len() == 0 {
        Ok(rel)
    } else {
        match decode_all(&rel.recs) {
            Err(e) => Err(e),
            Ok(rows) => match refresh_all(
                &rel.searches,
                &names(&columns(&rel)),
                rel.keys.len(),
                &rows,
            ) {
                Err(e) => Err(e),
                Ok(searches) => Ok(Relation { searches, ..rel }),
            },
        }
    }
}

/// Whether a relation has pending writes, from place `i` on.
pub open spec fn writes_pending(ps: Seq<PendingV>, name: Seq<char>, i: int) -> bool
    decreases ps.len() - i,
{
    if i < 0 || i >= ps.len() {
        false
    } else {
        ps[i].rel == name || writes_pending(ps, name, i + 1)
    }
}

/// Whether a relation has pending writes.
pub fn has_pending(ps: &List<Pending>, name: &String) -> (r: bool)
    ensures
        r == writes_pending(ps@, name@, 0),
{
    let mut i: usize = 0;
    while i < ps.len()
        invariant
            i <= ps@.len(),
            writes_pending(ps@, name@, 0) == writes_pending(ps@, name@, i as int),
        decreases ps@.len() - i,
    {
        if ps.get(i).rel == *name {
            return true;
        }
        i = i + 1;
    }
    false
}

/// Relations with another one at a place.
pub fn with_rel_at(rels: List<Relation>, i: usize, rel: Relation) -> (r: List<Relation>)
    requires
        i < rels@.len(),
    ensures
        r@ == rels@.update(i as int, rel@),
{
    let mut out = rels;
    out.set(i, rel);
    out
}

/// Relations without the one at a place.
pub fn without_rel_at(rels: List<Relation>, i: usize) -> (r: List<Relation>)
    requires
        i < rels@.len(),
    ensures
        r@ == rels@.remove(i as int),
{
    let mut out = rels;
    out.remove(i);
    out
}

/// The effect of writing rows to a relation with transaction times.
pub open spec fn put_tt_of(
    store: StoreV,
    p: int,
    op: WriteKind,
    gs: Seq<Option<usize>>,
    rows: Seq<Seq<Value>>,
    ctx: Ctx,
) -> Result<EffectV, Fault> {
    let rel = store.rels[p];
    if place(store.declared, rel.name) < store.declared.len() {
        Err(fault_on(ErrKind::ReconcileOnly, rel.name))
    } else {
        match decoded_from(rel.recs, 0, Seq::empty()) {
            Err(f) => Err(f),
            Ok(olds) => {
                if op == WriteKind::Reconcile {
                    if writes_pending(store.pending, rel.name, 0) {
                        Err(fault_on(ErrKind::ReconcileOnly, rel.name))
                    } else {
                        match reconciled_of(rel, olds, gs, rows, ctx, store.pending) {
                            Err(f) => Err(f),
                            Ok(ps) => {
                                Ok(EffectV {
                                    store: StoreV {
                                        pending: ps,
                                        declared: store.declared.push(rel.name),
                                        ..store
                                    },
                                    news: Seq::empty(),
                                    olds: Seq::empty(),
                                })
                            }
                        }
                    }
                } else {
                    let start = store.pending.len() as int;
                    let work = WorkV {
                        recs: Seq::empty(),
                        pending: store.pending,
                        news: Seq::empty(),
                        olds: Seq::empty(),
                    };
                    match tt_rows_from(op, rel, olds, gs, rows, ctx, start, 0, work) {
                        Err(f) => Err(f),
                        Ok(done) => {
                            Ok(EffectV {
                                store: StoreV { pending: done.pending, ..store },
                                news: done.news,
                                olds: done.olds,
                            })
                        }
                    }
                }
            }
        }
    }
}

fn put_tt(
    store: Store,
    p: usize,
    op: WriteKind,
    gs: &List<Option<usize>>,
    rows: &List<Tuple>,
    ctx: Ctx,
) -> (r: Result<Effect, DbError>)
    requires
        p < store@.rels.len(),
        has_tt(store@.rels[p as int].keys),
    ensures
        outcome(r) == put_tt_of(store@, p as int, op, gs@, rows@, ctx),
{
    let rel = store.rels.get(p);
    if find(&store.declared, &rel.name) < store.declared.len() {
        Err(err_on(ErrKind::ReconcileOnly, rel.name.as_str()))
    } else {
        match decode_all(&rel.recs) {
            Err(e) => Err(e),
            Ok(olds) => {
                if op == WriteKind::Reconcile {
                    if has_pending(&store.pending, &rel.name) {
                        Err(err_on(ErrKind::ReconcileOnly, rel.name.as_str()))
                    } else {
                        match reconcile(rel, &olds, gs, rows, ctx, store.pending.dup()) {
                            Err(e) => Err(e),
                            Ok(ps) => {
                                Ok(Effect {
                                    store: Store {
                                        pending: ps,
                                        declared: pushed(store.declared.dup(), rel.name.clone()),
                                        ..store
                                    },
                                    news: List::new(),
                                    olds: List::new(),
                                })
                            }
                        }
                    }
                } else {
                    let start = store.pending.len();
                    let work = Work {
                        recs: List::new(),
                        pending: store.pending.dup(),
                        news: List::new(),
                        olds: List::new(),
                    };
                    match tt_rows(op, rel, &olds, gs, rows, ctx, start, work) {
                        Err(e) => Err(e),
                        Ok(done) => {
                            Ok(Effect {
                                store: Store { pending: done.pending, ..store },
                                news: done.news,
                                olds: done.olds,
                            })
                        }
                    }
                }
            }
        }
    }
}

/// The effect of writing rows to a relation without transaction times.
pub open spec fn put_plain_of(
    store: StoreV,
    p: int,
    op: WriteKind,
    gs: Seq<Option<usize>>,
    rows: Seq<Seq<Value>>,
    ctx: Ctx,
) -> Result<EffectV, Fault> {
    let rel = store.rels[p];
    let work = WorkV {
        recs: rel.recs,
        pending: Seq::empty(),
        news: Seq::empty(),
        olds: Seq::empty(),
    };
    match plain_rows_from(op, rel, gs, rows, ctx, 0, work) {
        Err(f) => Err(f),
        Ok(done) => {
            match refreshed(RelationV { recs: done.recs, ..rel }) {
                Err(f) => Err(f),
                Ok(next) => {
                    Ok(EffectV {
                        store: StoreV { rels: store.rels.update(p, next), ..store },
                        news: done.news,
                        olds: done.olds,
                    })
                }
            }
        }
    }
}

fn put_plain(
    store: Store,
    p: usize,
    op: WriteKind,
    gs: &List<Option<usize>>,
    rows: &List<Tuple>,
    ctx: Ctx,
) -> (r: Result<Effect, DbError>)
    requires
        p < store@.rels.len(),
    ensures
        outcome(r) == put_plain_of(store@, p as int, op, gs@, rows@, ctx),
{
    let rel = store.rels.get(p).dup();
    let work = Work {
        recs: rel.recs.dup(),
        pending: List::new(),
        news: List::new(),
        olds: List::new(),
    };
    match plain_rows(op, &rel, gs, rows, ctx, work) {
        Err(e) => Err(e),
        Ok(done) => {
            match refresh(Relation { recs: done.recs, ..rel }) {
                Err(e) => Err(e),
                Ok(next) => {
                    Ok(Effect {
                        store: Store { rels: with_rel_at(store.rels, p, next), ..store },
                        news: done.news,
                        olds: done.olds,
                    })
                }
            }
        }
    }
}

/// The effect of writing rows to the relation at a place.
pub open spec fn put_rows_of(
    store: StoreV,
    p: int,
    w: WriteV,
    ans: SourceV,
    lenient: bool,
    ctx: Ctx,
) -> Result<EffectV, Fault> {
    let wn = written_names(w, ans.cols);
    let cols = columns_of(store.rels[p]);
    let ns = names_of(cols);
    let bad = foreign_from(wn, ns, 0);
    if bad < wn.len() {
        Err(fault_on(ErrKind::ColumnNotFound, wn[bad]))
    } else if names_tt(store.rels[p].keys, if lenient { ans.cols } else { wn }) {
        Err(fault_on(ErrKind::EngineAssigned, w.rel))
    } else {
        match givens_from(
            cols,
            wn,
            ans.cols,
            lenient || w.kind == WriteKind::Rm || w.kind == WriteKind::Delete,
            0,
            Seq::empty(),
        ) {
            Err(f) => Err(f),
            Ok(gs) => {
                if has_tt(store.rels[p].keys) {
                    put_tt_of(store, p, w.kind, gs, ans.rows, ctx)
                } else {
                    put_plain_of(store, p, w.kind, gs, ans.rows, ctx)
                }
            }
        }
    }
}

fn put_rows(
    store: Store,
    p: usize,
    w: &Write,
    ans: &Source,
    lenient: bool,
    ctx: Ctx,
) -> (r: Result<Effect, DbError>)
    requires
        p < store@.rels.len(),
    ensures
        outcome(r) == put_rows_of(store@, p as int, w@, ans@, lenient, ctx),
{
    let wn = names_written(w, &ans.cols);
    let cols = columns(store.rels.get(p));
    let ns = names(&cols);
    let bad = find_foreign(&wn, &ns);
    if bad < wn.len() {
        Err(err_on(ErrKind::ColumnNotFound, wn.get(bad).as_str()))
    } else if if lenient {
        tt_named(&store.rels.get(p).keys, &ans.cols)
    } else {
        tt_named(&store.rels.get(p).keys, &wn)
    } {
        Err(err_on(ErrKind::EngineAssigned, w.rel.as_str()))
    } else {
        match givens(
            &cols,
            &wn,
            &ans.cols,
            lenient || w.kind == WriteKind::Rm || w.kind == WriteKind::Delete,
            List::new(),
        ) {
            Err(e) => Err(e),
            Ok(gs) => {
                if stamps(&store.rels.get(p).keys) {
                    put_tt(store, p, w.kind, &gs, &ans.rows, ctx)
                } else {
                    put_plain(store, p, w.kind, &gs, &ans.rows, ctx)
                }
            }
        }
    }
}

/// The effect of replacing a relation.
pub open spec fn replaced(
    store: StoreV,
    w: WriteV,
    ans: SourceV,
    ctx: Ctx,
) -> Result<EffectV, Fault> {
    let p = rel_place(store.rels, w.rel);
    let bare = w.keys.len() == 0 && w.vals.len() == 0;
    if p < store.rels.len() && has_tt(store.rels[p].keys) {
        Err(fault_on(ErrKind::ReplaceHistory, w.rel))
    } else if p < store.rels.len() && !permitted(store.rels[p], Access::Protected) {
        Err(fault_on(ErrKind::AccessLevel, w.rel))
    } else {
        let keys = if !bare {
            w.keys
        } else if p < store.rels.len() {
            store.rels[p].keys
        } else {
            loose_columns(ans.cols)
        };
        let vals = if bare && p < store.rels.len() { store.rels[p].vals } else { w.vals };
        let next = if p < store.rels.len() {
            StoreV { rels: store.rels.remove(p), ..store }
        } else {
            store
        };
        match created(next, w.rel, keys, vals) {
            Err(f) => Err(f),
            Ok(made) => {
                let q = rel_place(made.rels, w.rel);
                if q >= made.rels.len() {
                    Err(fault_on(ErrKind::RelationNotFound, w.rel))
                } else {
                    put_rows_of(made, q, w, ans, true, ctx)
                }
            }
        }
    }
}

fn replace(store: Store, w: &Write, ans: &Source, ctx: Ctx) -> (r: Result<Effect, DbError>)
    ensures
        outcome(r) == replaced(store@, w@, ans@, ctx),
{
    let p = find_rel(&store.rels, &w.rel);
    let bare = w.keys.len() == 0 && w.vals.len() == 0;
    if p < store.rels.len() && stamps(&store.rels.get(p).keys) {
        Err(err_on(ErrKind::ReplaceHistory, w.rel.as_str()))
    } else if p < store.rels.len() && !permits(store.rels.get(p), Access::Protected) {
        Err(err_on(ErrKind::AccessLevel, w.rel.as_str()))
    } else {
        let keys = if !bare {
            w.keys.dup()
        } else if p < store.rels.len() {
            store.rels.get(p).keys.dup()
        } else {
            columns_from_names(&ans.cols)
        };
        let vals = if bare && p < store.rels.len() {
            store.rels.get(p).vals.dup()
        } else {
            w.vals.dup()
        };
        let next = if p < store.rels.len() {
            Store { rels: without_rel_at(store.rels, p), ..store }
        } else {
            store
        };
        match create(next, &w.rel, keys, vals) {
            Err(e) => Err(e),
            Ok(made) => {
                let q = find_rel(&made.rels, &w.rel);
                if q >= made.rels.len() {
                    Err(err_on(ErrKind::RelationNotFound, w.rel.as_str()))
                } else {
                    put_rows(made, q, w, ans, true, ctx)
                }
            }
        }
    }
}

/// The effect of writing the rows of a query.
pub open spec fn written(
    store: StoreV,
    w: WriteV,
    ans: SourceV,
    ctx: Ctx,
) -> Result<EffectV, Fault> {
    match w.kind {
        WriteKind::Create => {
            let bare = w.keys.len() == 0 && w.vals.len() == 0;
            let keys = if bare { loose_columns(ans.cols) } else { w.keys };
            match created(store, w.rel, keys, w.vals) {
                Err(f) => Err(f),
                Ok(made) => {
                    let q = rel_place(made.rels, w.rel);
                    if q >= made.rels.len() {
                        Err(fault_on(ErrKind::RelationNotFound, w.rel))
                    } else {
                        put_rows_of(made, q, w, ans, true, ctx)
                    }
                }
            }
        },
        WriteKind::Replace => replaced(store, w, ans, ctx),
        _ => {
            let p = rel_place(store.rels, w.rel);
            if p >= store.rels.len() {
                Err(fault_on(ErrKind::RelationNotFound, w.rel))
            } else if !permitted(store.rels[p], Access::Protected) {
                Err(fault_on(ErrKind::AccessLevel, w.rel))
            } else {
                put_rows_of(store, p, w, ans, false, ctx)
            }
        },
    }
}

/// The effect of writing the rows of a query.
pub fn write(store: Store, w: &Write, ans: &Source, ctx: Ctx) -> (r: Result<Effect, DbError>)
    ensures
        outcome(r) == written(store@, w@, ans@, ctx),
{
    match w.kind {
        WriteKind::Create => {
            let bare = w.keys.len() == 0 && w.vals.len() == 0;
            let keys = if bare { columns_from_names(&ans.cols) } else { w.keys.dup() };
            match create(store, &w.rel, keys, w.vals.dup()) {
                Err(e) => Err(e),
                Ok(made) => {
                    let q = find_rel(&made.rels, &w.rel);
                    if q >= made.rels.len() {
                        Err(err_on(ErrKind::RelationNotFound, w.rel.as_str()))
                    } else {
                        put_rows(made, q, w, ans, true, ctx)
                    }
                }
            }
        },
        WriteKind::Replace => replace(store, w, ans, ctx),
        _ => {
            let p = find_rel(&store.rels, &w.rel);
            if p >= store.rels.len() {
                Err(err_on(ErrKind::RelationNotFound, w.rel.as_str()))
            } else if !permits(store.rels.get(p), Access::Protected) {
                Err(err_on(ErrKind::AccessLevel, w.rel.as_str()))
            } else {
                put_rows(store, p, w, ans, false, ctx)
            }
        },
    }
}

/// Rows from place `i` on behind a word, after `acc`.
pub open spec fn tagged_from(
    rows: Seq<Seq<Value>>,
    tag: Seq<char>,
    i: int,
    acc: Seq<Seq<Value>>,
) -> Seq<Seq<Value>>
    decreases rows.len() - i,
{
    if i < 0 || i >= rows.len() {
        acc
    } else {
        tagged_from(rows, tag, i + 1, acc.push(seq![Value::Str(tag)] + rows[i]))
    }
}

fn tag_rows(rows: &Rows, tag: &str, acc: Rows) -> (r: Rows)
    ensures
        r@ == tagged_from(rows@, tag@, 0, acc@),
{
    let ghost goal = tagged_from(rows@, tag@, 0, acc@);
    let mut out = acc;
    let mut i: usize = 0;
    while i < rows.len()
        invariant
            i <= rows@.len(),
            goal == tagged_from(rows@, tag@, i as int, out@),
        decreases rows@.len() - i,
    {
        let mut head: Tuple = List::new();
        head.push(DataValue::text(tag));
        assert(head@ =~= seq![Value::Str(tag@)]);
        out.push(joined(&head, rows.get(i)));
        i = i + 1;
    }
    out
}

/// What a write reports where its rows are not asked for.
pub open spec fn all_right() -> SourceV {
    SourceV { cols: seq!["status"@], rows: seq![seq![Value::Str("OK"@)]] }
}

/// What a write reports where its rows are not asked for.
pub fn ok_source() -> (r: Source)
    ensures
        r@ == all_right(),
{
    let mut cols: List<String> = List::new();
    cols.push("status".to_owned());
    let mut row: Tuple = List::new();
    row.push(DataValue::text("OK"));
    let mut rows: Rows = List::new();
    assert(row@ =~= seq![Value::Str("OK"@)]);
    rows.push(row);
    assert(cols@ =~= all_right().cols);
    assert(rows@ =~= all_right().rows);
    Source { cols, rows }
}

/// Whether a write removes rows.
pub open spec fn removes(k: WriteKind) -> bool {
    k == WriteKind::Rm || k == WriteKind::Delete
}

/// What a write reports: the rows that were written or asked for, then those
/// that were replaced or removed, each behind a word that says which.
pub open spec fn report_of(w: WriteV, returning: bool, e: EffectV) -> SourceV {
    let p = rel_place(e.store.rels, w.rel);
    if !returning || p >= e.store.rels.len() {
        all_right()
    } else {
        let rm = removes(w.kind);
        SourceV {
            cols: seq!["_kind"@] + names_of(columns_of(e.store.rels[p])),
            rows: tagged_from(
                e.olds,
                if rm {
                    "deleted"@
                } else {
                    "replaced"@
                },
                0,
                tagged_from(
                    e.news,
                    if rm {
                        "requested"@
                    } else {
                        "inserted"@
                    },
                    0,
                    Seq::empty(),
                ),
            ),
        }
    }
}

fn report(w: &Write, returning: bool, e: &Effect) -> (r: Source)
    ensures
        r@ == report_of(w@, returning, e@),
{
    let p = find_rel(&e.store.rels, &w.rel);
    if !returning || p >= e.store.rels.len() {
        return ok_source();
    }
    let rm = w.kind == WriteKind::Rm || w.kind == WriteKind::Delete;
    let mut kind_col: List<String> = List::new();
    kind_col.push("_kind".to_owned());
    assert(kind_col@ =~= seq!["_kind"@]);
    let first = tag_rows(
        &e.news,
        if rm {
            "requested"
        } else {
            "inserted"
        },
        List::new(),
    );
    Source {
        cols: chain_names(kind_col, &names(&columns(e.store.rels.get(p)))),
        rows: tag_rows(
            &e.olds,
            if rm {
                "deleted"
            } else {
                "replaced"
            },
            first,
        ),
    }
}

/// A store after one more query was counted.
pub open spec fn ticked(store: StoreV) -> Result<StoreV, Fault> {
    if store.tick == u64::MAX {
        Err(fault(ErrKind::IdsExhausted))
    } else {
        Ok(StoreV { tick: (store.tick + 1) as u64, ..store })
    }
}

fn tick(store: Store) -> (r: Result<Store, DbError>)
    ensures
        outcome(r) == ticked(store@),
{
    if store.tick == u64::MAX {
        Err(err(ErrKind::IdsExhausted))
    } else {
        Ok(Store { tick: store.tick + 1, ..store })
    }
}

/// The context of a query in a store.
pub open spec fn context(store: StoreV, now: i64) -> Ctx {
    Ctx { now, tick: store.tick, salt: 0 }
}

pub fn context_in(store: &Store, now: i64) -> (r: Ctx)
    ensures
        r == context(store@, now),
{
    Ctx { now, tick: store.tick, salt: 0 }
}

/// No rows and no columns.
pub open spec fn nothing() -> SourceV {
    SourceV { cols: Seq::empty(), rows: Seq::empty() }
}

/// No rows and no columns.
pub fn no_rows() -> (r: Source)
    ensures
        r@ == nothing(),
{
    Source { cols: List::new(), rows: List::new() }
}

/// The rows of a query, before anything is written.
pub open spec fn asked(
    store: StoreV,
    given: Seq<TableV>,
    p: ProgramV,
    customs: Seq<CustomV>,
    ctx: Ctx,
) -> Result<SourceV, Fault> {
    if p.rules.len() == 0 {
        match p.write {
            Some(w) => if w.kind == WriteKind::Create || w.kind == WriteKind::Replace {
                Ok(nothing())
            } else {
                Err(fault(ErrKind::NoEntry))
            },
            None => Err(fault(ErrKind::NoEntry)),
        }
    } else {
        answer_of(store.rels, given, p, customs, ctx)
    }
}

fn ask(
    store: &Store,
    given: &List<Table>,
    p: &Program,
    customs: &List<Custom>,
    ctx: Ctx,
) -> (r: Result<Source, DbError>)
    ensures
        outcome(r) == asked(store@, given@, p@, customs@, ctx),
{
    if p.rules.len() == 0 {
        match &p.write {
            Some(w) => if w.kind == WriteKind::Create || w.kind == WriteKind::Replace {
                Ok(no_rows())
            } else {
                Err(err(ErrKind::NoEntry))
            },
            None => Err(err(ErrKind::NoEntry)),
        }
    } else {
        answer(&store.rels, given, p, customs, ctx)
    }
}

/// A store after a query, the rows that it shows, and the rows that it wrote
/// and replaced.
pub struct Step {
    pub store: Store,
    pub out: Source,
    pub news: List<Tuple>,
    pub olds: List<Tuple>,
}

/// The mathematical counterpart of [`Step`].
#[verifier::ext_equal]
pub struct StepV {
    pub store: StoreV,
    pub out: SourceV,
    pub news: Seq<Seq<Value>>,
    pub olds: Seq<Seq<Value>>,
}

impl View for Step {
    type V = StepV;
    open spec fn view(&self) -> StepV {
        StepV {
            store: self.store@,
            out: self.out@,
            news: self.news@,
            olds: self.olds@,
        }
    }
}

impl Dup for Step {
    fn dup(&self) -> (r: Self) {
        Step {
            store: self.store.dup(),
            out: self.out.dup(),
            news: self.news.dup(),
            olds: self.olds.dup(),
        }
    }
}

/// The first `n` values of each row.
pub open spec fn heads_of(rows: Seq<Seq<Value>>, n: int) -> Seq<Seq<Value>> {
    Seq::new(
        rows.len(),
        |i: int|
            if 0 <= n <= rows[i].len() {
                rows[i].take(n)
            } else {
                rows[i]
            },
    )
}

fn heads(rows: &Rows, n: usize) -> (r: Rows)
    ensures
        r@ == heads_of(rows@, n as int),
{
    let mut acc: Rows = List::new();
    let mut i: usize = 0;
    while i < rows.len()
        invariant
            i <= rows@.len(),
            acc@ =~= heads_of(rows@, n as int).take(i as int),
        decreases rows@.len() - i,
    {
        let row = rows.get(i);
        if n <= row.len() {
            acc.push(prefix(row, n));
        } else {
            acc.push(row.dup());
        }
        i = i + 1;
    }
    assert(heads_of(rows@, n as int).take(i as int) =~= heads_of(rows@, n as int));
    acc
}

/// A store that has noted a write to a lasting relation: of what is removed only
/// the keys are told.
pub open spec fn noted(
    store: StoreV,
    w: WriteV,
    news: Seq<Seq<Value>>,
    olds: Seq<Seq<Value>>,
) -> StoreV {
    let p = rel_place(store.rels, w.rel);
    match event_of_write(w.kind) {
        None => store,
        Some(kind) => if is_temp(w.rel) || p >= store.rels.len() || (news.len() == 0 && olds.len()
            == 0) {
            store
        } else {
            let rel = store.rels[p];
            let all = names_of(columns_of(rel));
            let event = EventV {
                rel: w.rel,
                kind,
                news: if kind == TrigKind::Rm {
                    SourceV {
                        cols: names_of(rel.keys),
                        rows: heads_of(news, rel.keys.len() as int),
                    }
                } else {
                    SourceV { cols: all, rows: news }
                },
                olds: SourceV { cols: all, rows: olds },
            };
            StoreV { events: store.events.push(event), ..store }
        },
    }
}

fn note(store: Store, w: &Write, news: &Rows, olds: &Rows) -> (r: Store)
    ensures
        r@ == noted(store@, w@, news@, olds@),
{
    let p = find_rel(&store.rels, &w.rel);
    match write_event(w.kind) {
        None => store,
        Some(kind) => {
            if temp(&w.rel) || p >= store.rels.len() || (news.len() == 0 && olds.len() == 0) {
                return store;
            }
            let rel = store.rels.get(p);
            let all = names(&columns(rel));
            let event = Event {
                rel: w.rel.clone(),
                kind,
                news: if kind == TrigKind::Rm {
                    Source { cols: names(&rel.keys), rows: heads(news, rel.keys.len()) }
                } else {
                    Source { cols: all.dup(), rows: news.dup() }
                },
                olds: Source { cols: all, rows: olds.dup() },
            };
            Store { events: pushed(store.events, event), ..store }
        },
    }
}

/// A query without what triggers follow it. In a transaction that only reads,
/// nothing but relations of the script may be written.
pub open spec fn ran_alone(
    store: StoreV,
    given: Seq<TableV>,
    p: ProgramV,
    customs: Seq<CustomV>,
    now: i64,
    ro: bool,
) -> Result<StepV, Fault> {
    match ticked(store) {
        Err(f) => Err(f),
        Ok(s) => {
            let ctx = context(s, now);
            match asked(s, given, p, customs, ctx) {
                Err(f) => Err(f),
                Ok(ans) => {
                    match p.write {
                        None => Ok(
                            StepV { store: s, out: ans, news: Seq::empty(), olds: Seq::empty() },
                        ),
                        Some(w) => if ro && !is_temp(w.rel) {
                            Err(fault_on(ErrKind::ReadOnly, w.rel))
                        } else {
                            match written(s, w, ans, ctx) {
                                Err(f) => Err(f),
                                Ok(done) => {
                                    let out = report_of(w, p.returning, done);
                                    Ok(
                                        StepV {
                                            store: noted(done.store, w, done.news, done.olds),
                                            out,
                                            news: done.news,
                                            olds: done.olds,
                                        },
                                    )
                                }
                            }
                        },
                    }
                }
            }
        }
    }
}

fn run_alone(
    store: Store,
    given: &List<Table>,
    p: &Program,
    customs: &List<Custom>,
    now: i64,
    ro: bool,
) -> (r: Result<Step, DbError>)
    ensures
        outcome(r) == ran_alone(store@, given@, p@, customs@, now, ro),
{
    match tick(store) {
        Err(e) => Err(e),
        Ok(s) => {
            let ctx = context_in(&s, now);
            match ask(&s, given, p, customs, ctx) {
                Err(e) => Err(e),
                Ok(ans) => {
                    match &p.write {
                        None => Ok(
                            Step { store: s, out: ans, news: List::new(), olds: List::new() },
                        ),
                        Some(w) => if ro && !temp(&w.rel) {
                            Err(err_on(ErrKind::ReadOnly, w.rel.as_str()))
                        } else {
                            match write(s, w, &ans, ctx) {
                                Err(e) => Err(e),
                                Ok(done) => {
                                    let out = report(w, p.returning, &done);
                                    Ok(
                                        Step {
                                            store: note(done.store, w, &done.news, &done.olds),
                                            out,
                                            news: done.news,
                                            olds: done.olds,
                                        },
                                    )
                                }
                            }
                        },
                    }
                }
            }
        }
    }
}

/// The event that a write is for triggers.
pub open spec fn event_of_write(k: WriteKind) -> Option<TrigKind> {
    match k {
        WriteKind::Rm => Some(TrigKind::Rm),
        WriteKind::Delete => Some(TrigKind::Rm),
        WriteKind::Replace => Some(TrigKind::Replace),
        WriteKind::Put => Some(TrigKind::Put),
        WriteKind::Insert => Some(TrigKind::Put),
        WriteKind::Update => Some(TrigKind::Put),
        WriteKind::Create => Some(TrigKind::Put),
        _ => None,
    }
}

fn write_event(k: WriteKind) -> (r: Option<TrigKind>)
    ensures
        r == event_of_write(k),
{
    match k {
        WriteKind::Rm => Some(TrigKind::Rm),
        WriteKind::Delete => Some(TrigKind::Rm),
        WriteKind::Replace => Some(TrigKind::Replace),
        WriteKind::Put => Some(TrigKind::Put),
        WriteKind::Insert => Some(TrigKind::Put),
        WriteKind::Update => Some(TrigKind::Put),
        WriteKind::Create => Some(TrigKind::Put),
        _ => None,
    }
}

/// The tables that the queries of triggers may refer to.
pub open spec fn trigger_tables(news: Seq<Seq<Value>>, olds: Seq<Seq<Value>>) -> Seq<TableV> {
    seq![
        TableV { name: "_new"@, arity: None, rows: news },
        TableV { name: "_old"@, arity: None, rows: olds },
    ]
}

fn tables_of_trigger(news: Rows, olds: Rows) -> (r: List<Table>)
    ensures
        r@ == trigger_tables(news@, olds@),
{
    let mut r: List<Table> = List::new();
    r.push(Table { name: "_new".to_owned(), arity: None, rows: news });
    r.push(Table { name: "_old".to_owned(), arity: None, rows: olds });
    assert(r@ =~= trigger_tables(news@, olds@));
    r
}

/// A store after the triggers of an event from place `i` on. What a trigger
/// writes fires no triggers.
pub open spec fn fire_from(
    ts: Seq<TriggerV>,
    on: TrigKind,
    given: Seq<TableV>,
    customs: Seq<CustomV>,
    now: i64,
    ro: bool,
    i: int,
    cur: StoreV,
) -> Result<StoreV, Fault>
    decreases ts.len() - i,
{
    if i < 0 || i >= ts.len() {
        Ok(cur)
    } else {
        let step = if ts[i].on != on {
            Ok(cur)
        } else {
            match ran_alone(cur, given, ts[i].prog, customs, now, ro) {
                Err(f) => Err(f),
                Ok(s) => Ok(s.store),
            }
        };
        match step {
            Err(f) => Err(f),
            Ok(next) => fire_from(ts, on, given, customs, now, ro, i + 1, next),
        }
    }
}

fn fire(
    ts: &List<Trigger>,
    on: TrigKind,
    given: &List<Table>,
    customs: &List<Custom>,
    now: i64,
    ro: bool,
    cur: Store,
) -> (r: Result<Store, DbError>)
    ensures
        outcome(r) == fire_from(ts@, on, given@, customs@, now, ro, 0, cur@),
{
    let ghost goal = fire_from(ts@, on, given@, customs@, now, ro, 0, cur@);
    let mut state: Store = cur;
    let mut i: usize = 0;
    while i < ts.len()
        invariant
            i <= ts@.len(),
            goal == fire_from(ts@, on, given@, customs@, now, ro, 0, cur@),
            goal == fire_from(ts@, on, given@, customs@, now, ro, i as int, state@),
        decreases ts@.len() - i,
    {
        let step = if ts.get(i).on != on {
            Ok(state)
        } else {
            match run_alone(state, given, &ts.get(i).prog, customs, now, ro) {
                Err(e) => Err(e),
                Ok(s) => Ok(s.store),
            }
        };
        match step {
            Err(e) => {
                return Err(e);
            },
            Ok(next) => {
                state = next;
            },
        }
        i = i + 1;
    }
    Ok(state)
}

/// A query, and the queries that triggers run after it.
#[verifier::opaque]
pub open spec fn ran(
    store: StoreV,
    p: ProgramV,
    customs: Seq<CustomV>,
    now: i64,
    ro: bool,
) -> Result<DoneV, Fault> {
    match ran_alone(store, Seq::empty(), p, customs, now, ro) {
        Err(f) => Err(f),
        Ok(s) => {
            match p.write {
                None => Ok(DoneV { store: s.store, out: s.out }),
                Some(w) => {
                    let q = rel_place(s.store.rels, w.rel);
                    match event_of_write(w.kind) {
                        None => Ok(DoneV { store: s.store, out: s.out }),
                        Some(
                            on,
                        ) => if q >= s.store.rels.len() || s.store.rels[q].triggers.len() == 0 {
                            Ok(DoneV { store: s.store, out: s.out })
                        } else {
                            let ts = s.store.rels[q].triggers;
                            match fire_from(
                                ts,
                                on,
                                trigger_tables(s.news, s.olds),
                                Seq::empty(),
                                now,
                                ro,
                                0,
                                s.store,
                            ) {
                                Err(f) => Err(f),
                                Ok(last) => {
                                    Ok(DoneV { store: last, out: s.out })
                                }
                            }
                        },
                    }
                },
            }
        }
    }
}

/// A query, and the queries that triggers run after it.
pub fn run_program(
    store: Store,
    p: &Program,
    customs: &List<Custom>,
    now: i64,
    ro: bool,
) -> (r: Result<Done, DbError>)
    ensures
        outcome(r) == ran(store@, p@, customs@, now, ro),
{
    reveal(ran);
    match run_alone(store, &List::new(), p, customs, now, ro) {
        Err(e) => Err(e),
        Ok(s) => {
            match &p.write {
                None => Ok(Done { store: s.store, out: s.out }),
                Some(w) => {
                    let q = find_rel(&s.store.rels, &w.rel);
                    match write_event(w.kind) {
                        None => Ok(Done { store: s.store, out: s.out }),
                        Some(
                            on,
                        ) => if q >= s.store.rels.len() || s.store.rels.get(q).triggers.len() == 0 {
                            Ok(Done { store: s.store, out: s.out })
                        } else {
                            let ts = s.store.rels.get(q).triggers.dup();
                            match fire(
                                &ts,
                                on,
                                &tables_of_trigger(s.news, s.olds),
                                &List::new(),
                                now,
                                ro,
                                s.store,
                            ) {
                                Err(e) => Err(e),
                                Ok(last) => {
                                    Ok(Done { store: last, out: s.out })
                                }
                            }
                        },
                    }
                },
            }
        }
    }
}

} // verus!
