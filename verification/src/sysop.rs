//! Operations on the store itself.
use vstd::prelude::*;

use crate::aggr::{Custom, CustomV};
use crate::codec::{decode_row, decode_row_of};
use crate::content::{full_name, name_of_index};
use crate::error::{DbError, ErrKind, Fault, err, err_on, fault, fault_on, outcome};
use crate::eval::{window, windowed};
use crate::explain::{explain, explained};
use crate::expr::{Ctx, Expr, ExprV, eval, eval_of, find, fresh_uuid, make_uuid, place};
use crate::list::{Dup, List, opt_of};
use crate::listing::{
    column_rows, column_rows_of, indices_listed, list_indices, list_relations, rel_entries,
};
use crate::lookup::{configure, configured};
use crate::mutate::{
    Done, DoneV, all_right, chain_names, context, context_in, create, created, find_foreign,
    foreign_from, has_pending, has_tt, ok_source, refresh, refreshed, stamps, with_rel_at,
    without_rel_at, writes_pending,
};
use crate::parse::pushed;
use crate::query::{Field, FieldV};
use crate::scan::{Source, SourceV, find_index, index_from, point, point_of};
use crate::schema::{ColType, Column, ColumnV, RelKind, coerce, coerced, kind, kind_of};
use crate::search::{find_search, search_from};
use crate::stmt::{SysOp, SysOpV};
use crate::store::{
    Access, Index, IndexV, Lookup, Pending, PendingV, Record, RecordV, Relation, RelationV, Store,
    StoreV, Trigger, TriggerV, columns, columns_of, decode_all, decoded_from, find_rel, names,
    names_of, permits, permitted, rel_place,
};
use crate::strata::{make_units, units_from};
use crate::table::{Rows, add_row, joined, sorted, sorted_of, with_row};
use crate::temporal::{
    believed, cell, flag_in, flag_of, id, id_of, id_width, is_believed, tt_in, tt_of, vt_in, vt_of,
    width,
};
use crate::text::{hex_from, show_row, show_uuid, texts_from};
use crate::value::{DataValue, Tuple, Value, elements, same_row};
use crate::write::{cell_of, salt, salted};
use crate::write_tt::{first_cols, rest, rest_of, take_cols};

verus! {

fn cols1(a: &str) -> (r: List<String>)
    ensures
        r@ == seq![a@],
{
    let mut r: List<String> = List::new();
    r.push(a.to_owned());
    assert(r@ =~= seq![a@]);
    r
}

fn cols2(a: &str, b: &str) -> (r: List<String>)
    ensures
        r@ == seq![a@, b@],
{
    let mut r: List<String> = List::new();
    r.push(a.to_owned());
    r.push(b.to_owned());
    assert(r@ =~= seq![a@, b@]);
    r
}

pub fn cols3(a: &str, b: &str, c: &str) -> (r: List<String>)
    ensures
        r@ == seq![a@, b@, c@],
{
    let mut r: List<String> = List::new();
    r.push(a.to_owned());
    r.push(b.to_owned());
    r.push(c.to_owned());
    assert(r@ =~= seq![a@, b@, c@]);
    r
}

/// A row as the only one.
fn one_row(row: Tuple) -> (r: Rows)
    ensures
        r@ == seq![row@],
{
    let mut r: Rows = List::new();
    let ghost v = row@;
    r.push(row);
    assert(r@ =~= seq![v]);
    r
}

/// The values of a key as those of columns, from place `i` on.
pub open spec fn key_vals_from(
    cols: Seq<ColumnV>,
    row: Seq<Value>,
    now: i64,
    i: int,
    acc: Seq<Value>,
) -> Result<Seq<Value>, Fault>
    decreases cols.len() - i,
{
    if i < 0 || i >= cols.len() {
        Ok(acc)
    } else {
        let step = match coerced(cell(row, i), cols[i].typ, now) {
            Some(v) => Ok(acc.push(v)),
            None => Err(fault_on(ErrKind::Coercion, cols[i].name)),
        };
        match step {
            Err(f) => Err(f),
            Ok(next) => key_vals_from(cols, row, now, i + 1, next),
        }
    }
}

fn key_vals(cols: &List<Column>, row: &Tuple, now: i64, acc: Tuple) -> (r: Result<Tuple, DbError>)
    ensures
        outcome(r) == key_vals_from(cols@, row@, now, 0, acc@),
{
    let ghost goal = key_vals_from(cols@, row@, now, 0, acc@);
    let mut state: Tuple = acc;
    let mut i: usize = 0;
    while i < cols.len()
        invariant
            i <= cols@.len(),
            goal == key_vals_from(cols@, row@, now, 0, acc@),
            goal == key_vals_from(cols@, row@, now, i as int, state@),
        decreases cols@.len() - i,
    {
        let step = match coerce(&cell_of(row, i), &cols.get(i).typ, now) {
            Some(v) => Ok(pushed(state, v)),
            None => Err(err_on(ErrKind::Coercion, cols.get(i).name.as_str())),
        };
        match step {
            Err(e) => {
                return Err(e);
            },
            Ok(next) => {
                state = next;
            },
        }
        i = i + 1;
    }
    Ok(state)
}

/// What a key is given as: a list of values.
pub open spec fn row_in(v: Value) -> Option<Seq<Value>> {
    match v {
        Value::List(l) => Some(l),
        _ => None,
    }
}

fn list_in(v: &DataValue) -> (r: Option<Tuple>)
    ensures
        opt_of(r) == row_in(v@),
{
    match v {
        DataValue::List(l) => Some(elements(l)),
        _ => None,
    }
}

fn with_row_in(rows: Rows, row: Tuple) -> (r: Rows)
    ensures
        r@ == with_row(rows@, row@),
{
    let mut out = rows;
    add_row(&mut out, row);
    out
}

/// The keys that a list gives, from place `i` on, sorted and each once.
pub open spec fn keys_from(
    cols: Seq<ColumnV>,
    l: Seq<Value>,
    now: i64,
    i: int,
    acc: Seq<Seq<Value>>,
) -> Result<Seq<Seq<Value>>, Fault>
    decreases l.len() - i,
{
    if i < 0 || i >= l.len() {
        Ok(acc)
    } else {
        let step = match row_in(l[i]) {
            None => Err(fault(ErrKind::BadKey)),
            Some(row) => if row.len() != cols.len() {
                Err(fault(ErrKind::BadKey))
            } else {
                match key_vals_from(cols, row, now, 0, Seq::empty()) {
                    Err(f) => Err(f),
                    Ok(k) => Ok(with_row(acc, k)),
                }
            },
        };
        match step {
            Err(f) => Err(f),
            Ok(next) => keys_from(cols, l, now, i + 1, next),
        }
    }
}

fn keys(
    cols: &List<Column>,
    l: &Tuple,
    now: i64,
    acc: List<Tuple>,
) -> (r: Result<List<Tuple>, DbError>)
    ensures
        outcome(r) == keys_from(cols@, l@, now, 0, acc@),
{
    let ghost goal = keys_from(cols@, l@, now, 0, acc@);
    let mut state: List<Tuple> = acc;
    let mut i: usize = 0;
    while i < l.len()
        invariant
            i <= l@.len(),
            goal == keys_from(cols@, l@, now, 0, acc@),
            goal == keys_from(cols@, l@, now, i as int, state@),
        decreases l@.len() - i,
    {
        let step = match list_in(l.get(i)) {
            None => Err(err(ErrKind::BadKey)),
            Some(row) => if row.len() != cols.len() {
                Err(err(ErrKind::BadKey))
            } else {
                match key_vals(cols, &row, now, List::new()) {
                    Err(e) => Err(e),
                    Ok(k) => Ok(with_row_in(state, k)),
                }
            },
        };
        match step {
            Err(e) => {
                return Err(e);
            },
            Ok(next) => {
                state = next;
            },
        }
        i = i + 1;
    }
    Ok(state)
}

/// The facts that an expression names.
pub open spec fn wanted_keys_of(
    rel: RelationV,
    e: ExprV,
    ctx: Ctx,
) -> Result<Seq<Seq<Value>>, Fault> {
    match eval_of(e, Seq::empty(), Seq::empty(), ctx) {
        Err(f) => Err(f),
        Ok(v) => {
            match row_in(v) {
                None => Err(fault(ErrKind::BadKey)),
                Some(l) => {
                    let w = id_width(kind_of(rel.keys), rel.keys.len() as int);
                    let cols = first_cols(rel.keys, w);
                    keys_from(cols, l, ctx.now, 0, Seq::empty())
                },
            }
        }
    }
}

fn wanted_keys(rel: &Relation, e: &Expr, ctx: Ctx) -> (r: Result<List<Tuple>, DbError>)
    requires
        has_tt(rel@.keys),
    ensures
        outcome(r) == wanted_keys_of(rel@, e@, ctx),
{
    match eval(e, &List::new(), &List::new(), ctx) {
        Err(e) => Err(e),
        Ok(v) => {
            match list_in(&v) {
                None => Err(err(ErrKind::BadKey)),
                Some(l) => {
                    let w = width(kind(&rel.keys), rel.keys.len());
                    let cols = take_cols(&rel.keys, w);
                    keys(&cols, &l, ctx.now, List::new())
                },
            }
        }
    }
}

/// A record as a history shows it.
pub open spec fn history_row(row: Seq<Value>, k: RelKind, nk: int) -> Seq<Value> {
    let fact = id_of(row, k, nk);
    let at = if k == RelKind::Bi {
        fact.push(Value::Int(vt_of(row, k, nk)))
    } else {
        fact
    };
    at.push(
        Value::Str(
            if flag_of(row, k, nk) {
                "assert"@
            } else {
                "retract"@
            },
        ),
    ).push(Value::Int(tt_of(row, k, nk))) + rest_of(row, nk)
}

fn row_of_history(row: &Tuple, k: RelKind, nk: usize) -> (r: Tuple)
    requires
        id_width(k, nk as int) >= 0,
    ensures
        r@ == history_row(row@, k, nk as int),
{
    let mut out = id(row, k, nk);
    if k == RelKind::Bi {
        out.push(DataValue::Int(vt_in(row, k, nk)));
    }
    out.push(
        DataValue::text(
            if flag_in(row, k, nk) {
                "assert"
            } else {
                "retract"
            },
        ),
    );
    out.push(DataValue::Int(tt_in(row, k, nk)));
    joined(&out, &rest(row, nk))
}

/// The history of one fact, from place `i` on.
pub open spec fn fact_history(
    rows: Seq<Seq<Value>>,
    fact: Seq<Value>,
    k: RelKind,
    nk: int,
    i: int,
    acc: Seq<Seq<Value>>,
) -> Seq<Seq<Value>>
    decreases rows.len() - i,
{
    if i < 0 || i >= rows.len() {
        acc
    } else if id_of(rows[i], k, nk) == fact {
        fact_history(rows, fact, k, nk, i + 1, acc.push(history_row(rows[i], k, nk)))
    } else {
        fact_history(rows, fact, k, nk, i + 1, acc)
    }
}

/// The history of facts, from place `j` on.
pub open spec fn facts_history(
    rows: Seq<Seq<Value>>,
    facts: Seq<Seq<Value>>,
    k: RelKind,
    nk: int,
    j: int,
    acc: Seq<Seq<Value>>,
) -> Seq<Seq<Value>>
    decreases facts.len() - j,
{
    if j < 0 || j >= facts.len() {
        acc
    } else {
        facts_history(rows, facts, k, nk, j + 1, fact_history(rows, facts[j], k, nk, 0, acc))
    }
}

fn list_history(rows: &Rows, facts: &Rows, k: RelKind, nk: usize) -> (r: Rows)
    requires
        id_width(k, nk as int) >= 0,
    ensures
        r@ == facts_history(rows@, facts@, k, nk as int, 0, Seq::empty()),
{
    let mut acc: Rows = List::new();
    let mut j: usize = 0;
    while j < facts.len()
        invariant
            j <= facts@.len(),
            id_width(k, nk as int) >= 0,
            facts_history(rows@, facts@, k, nk as int, 0, Seq::empty()) == facts_history(
                rows@,
                facts@,
                k,
                nk as int,
                j as int,
                acc@,
            ),
        decreases facts@.len() - j,
    {
        let fact = facts.get(j);
        let ghost first = acc@;
        let mut i: usize = 0;
        while i < rows.len()
            invariant
                i <= rows@.len(),
                id_width(k, nk as int) >= 0,
                fact_history(rows@, fact@, k, nk as int, 0, first) == fact_history(
                    rows@,
                    fact@,
                    k,
                    nk as int,
                    i as int,
                    acc@,
                ),
            decreases rows@.len() - i,
        {
            if same_row(&id(rows.get(i), k, nk), fact) {
                acc.push(row_of_history(rows.get(i), k, nk));
            }
            i = i + 1;
        }
        j = j + 1;
    }
    acc
}

/// The names of the columns of a history.
pub open spec fn history_labels(rel: RelationV) -> Seq<Seq<char>> {
    let k = kind_of(rel.keys);
    let fact = names_of(first_cols(rel.keys, id_width(k, rel.keys.len() as int)));
    (if k == RelKind::Bi {
        fact.push("vt_ts"@)
        } else {
            fact
    }).push("op"@).push("tt"@) + names_of(rel.vals)
}

fn labels_of_history(rel: &Relation) -> (r: List<String>)
    requires
        has_tt(rel@.keys),
    ensures
        r@ == history_labels(rel@),
{
    let k = kind(&rel.keys);
    let mut out = names(&take_cols(&rel.keys, width(k, rel.keys.len())));
    if k == RelKind::Bi {
        out.push("vt_ts".to_owned());
    }
    out.push("op".to_owned());
    out.push("tt".to_owned());
    chain_names(out, &names(&rel.vals))
}

/// Whether two columns of a history have one name.
pub open spec fn history_collides(ns: Seq<Seq<char>>) -> bool {
    crate::mutate::repeated_from(ns, 0) < ns.len()
}

/// What was recorded of facts.
pub open spec fn history_done(
    store: StoreV,
    name: Seq<char>,
    e: ExprV,
    limit: Option<u64>,
    offset: u64,
    now: i64,
) -> Result<DoneV, Fault> {
    let p = rel_place(store.rels, name);
    if p >= store.rels.len() {
        Err(fault_on(ErrKind::RelationNotFound, name))
    } else if !permitted(store.rels[p], Access::ReadOnly) {
        Err(fault_on(ErrKind::AccessLevel, name))
    } else if !has_tt(store.rels[p].keys) {
        Err(fault_on(ErrKind::RequiresTt, name))
    } else {
        let labels = history_labels(store.rels[p]);
        if history_collides(labels) {
            Err(fault_on(ErrKind::HeaderCollides, name))
        } else {
            let ctx = context(store, now);
            match wanted_keys_of(store.rels[p], e, ctx) {
                Err(f) => Err(f),
                Ok(ks) => {
                    match decoded_from(store.rels[p].recs, 0, Seq::empty()) {
                        Err(f) => Err(f),
                        Ok(rows) => {
                            let all = facts_history(
                                rows,
                                ks,
                                kind_of(store.rels[p].keys),
                                store.rels[p].keys.len() as int,
                                0,
                                Seq::empty(),
                            );
                            Ok(DoneV {
                                store,
                                out: SourceV { cols: labels, rows: windowed(all, offset, limit) },
                            })
                        }
                    }
                }
            }
        }
    }
}

fn history(
    store: Store,
    name: &String,
    e: &Expr,
    limit: Option<u64>,
    offset: u64,
    now: i64,
) -> (r: Result<Done, DbError>)
    ensures
        outcome(r) == history_done(store@, name@, e@, limit, offset, now),
{
    let p = find_rel(&store.rels, name);
    if p >= store.rels.len() {
        Err(err_on(ErrKind::RelationNotFound, name.as_str()))
    } else if !permits(store.rels.get(p), Access::ReadOnly) {
        Err(err_on(ErrKind::AccessLevel, name.as_str()))
    } else if !stamps(&store.rels.get(p).keys) {
        Err(err_on(ErrKind::RequiresTt, name.as_str()))
    } else {
        let labels = labels_of_history(store.rels.get(p));
        if crate::mutate::find_repeated(&labels) < labels.len() {
            Err(err_on(ErrKind::HeaderCollides, name.as_str()))
        } else {
            let ctx = context_in(&store, now);
            match wanted_keys(store.rels.get(p), e, ctx) {
                Err(e) => Err(e),
                Ok(ks) => {
                    match decode_all(&store.rels.get(p).recs) {
                        Err(e) => Err(e),
                        Ok(rows) => {
                            let all = list_history(
                                &rows,
                                &ks,
                                kind(&store.rels.get(p).keys),
                                store.rels.get(p).keys.len(),
                            );
                            Ok(Done {
                                store,
                                out: Source { cols: labels, rows: window(&all, offset, limit) },
                            })
                        }
                    }
                }
            }
        }
    }
}

/// The latest transaction time that a cutoff may have.
pub open spec fn horizon(store: StoreV, now: i64) -> i64 {
    match store.hwm {
        Some(t) => if t > now {
            t
        } else {
            now
        },
        None => now,
    }
}

fn latest(store: &Store, now: i64) -> (r: i64)
    ensures
        r == horizon(store@, now),
{
    match store.hwm {
        Some(t) => if t > now {
            t
        } else {
            now
        },
        None => now,
    }
}

/// Whether row `i` was superseded by the time of a cutoff.
pub open spec fn superseded(
    rows: Seq<Seq<Value>>,
    i: int,
    k: RelKind,
    nk: int,
    cutoff: i64,
) -> bool {
    tt_of(rows[i], k, nk) <= cutoff && !believed(rows, i, k, nk, cutoff)
}

/// The records from place `i` on that were not superseded, after `acc`.
pub open spec fn kept_from(
    recs: Seq<RecordV>,
    rows: Seq<Seq<Value>>,
    k: RelKind,
    nk: int,
    cutoff: i64,
    i: int,
    acc: Seq<RecordV>,
) -> Seq<RecordV>
    decreases recs.len() - i,
{
    if i < 0 || i >= recs.len() {
        acc
    } else if i < rows.len() && superseded(rows, i, k, nk, cutoff) {
        kept_from(recs, rows, k, nk, cutoff, i + 1, acc)
    } else {
        kept_from(recs, rows, k, nk, cutoff, i + 1, acc.push(recs[i]))
    }
}

fn keep_current(
    recs: &List<Record>,
    rows: &Rows,
    k: RelKind,
    nk: usize,
    cutoff: i64,
) -> (r: List<Record>)
    requires
        id_width(k, nk as int) >= 0,
    ensures
        r@ == kept_from(recs@, rows@, k, nk as int, cutoff, 0, Seq::empty()),
        r@.len() <= recs@.len(),
{
    let mut acc: List<Record> = List::new();
    let mut i: usize = 0;
    while i < recs.len()
        invariant
            acc@.len() <= i <= recs@.len(),
            id_width(k, nk as int) >= 0,
            kept_from(recs@, rows@, k, nk as int, cutoff, 0, Seq::empty()) == kept_from(
                recs@,
                rows@,
                k,
                nk as int,
                cutoff,
                i as int,
                acc@,
            ),
        decreases recs@.len() - i,
    {
        let gone = i < rows.len() && tt_in(rows.get(i), k, nk) <= cutoff && !is_believed(
            rows,
            i,
            k,
            nk,
            cutoff,
        );
        if !gone {
            acc.push(recs.get(i).dup());
        }
        i = i + 1;
    }
    acc
}

/// The greater of a floor and a cutoff.
pub open spec fn raised(floor: Option<i64>, cutoff: i64) -> Option<i64> {
    match floor {
        Some(f) => if f > cutoff {
            Some(f)
        } else {
            Some(cutoff)
        },
        None => Some(cutoff),
    }
}

fn raise(floor: Option<i64>, cutoff: i64) -> (r: Option<i64>)
    ensures
        r == raised(floor, cutoff),
{
    match floor {
        Some(f) => if f > cutoff {
            Some(f)
        } else {
            Some(cutoff)
        },
        None => Some(cutoff),
    }
}

/// A floor as a value.
pub open spec fn floor_value(floor: Option<i64>) -> Value {
    match floor {
        Some(f) => Value::Int(f),
        None => Value::Null,
    }
}

fn value_of_floor(floor: Option<i64>) -> (r: DataValue)
    ensures
        r@ == floor_value(floor),
{
    match floor {
        Some(f) => DataValue::Int(f),
        None => DataValue::Null,
    }
}

/// Drops what was superseded by the time of a cutoff; reads before it are then
/// refused.
pub open spec fn gc_done(
    store: StoreV,
    name: Seq<char>,
    e: ExprV,
    now: i64,
    ro: bool,
) -> Result<DoneV, Fault> {
    let p = rel_place(store.rels, name);
    if ro {
        Err(fault_on(ErrKind::ReadOnly, name))
    } else if p >= store.rels.len() {
        Err(fault_on(ErrKind::RelationNotFound, name))
    } else if !permitted(store.rels[p], Access::Protected) {
        Err(fault_on(ErrKind::AccessLevel, name))
    } else if !has_tt(store.rels[p].keys) {
        Err(fault_on(ErrKind::RequiresTt, name))
    } else if writes_pending(store.pending, name, 0) {
        Err(fault_on(ErrKind::PendingWrites, name))
    } else {
        let ctx = context(store, now);
        match eval_of(e, Seq::empty(), Seq::empty(), ctx) {
            Err(f) => Err(f),
            Ok(v) => {
                match point_of(v, now, true) {
                    None => Err(fault(ErrKind::TypeMismatch)),
                    Some(cutoff) => if cutoff > horizon(store, now) {
                        Err(fault_on(ErrKind::FutureCutoff, name))
                    } else {
                        let rel = store.rels[p];
                        match decoded_from(rel.recs, 0, Seq::empty()) {
                            Err(f) => Err(f),
                            Ok(rows) => {
                                let kept = kept_from(
                                    rel.recs,
                                    rows,
                                    kind_of(rel.keys),
                                    rel.keys.len() as int,
                                    cutoff,
                                    0,
                                    Seq::empty(),
                                );
                                let gone = rel.recs.len() - kept.len();
                                let floor = if gone > 0 {
                                    raised(rel.floor, cutoff)
                                } else {
                                    rel.floor
                                };
                                Ok(DoneV {
                                    store: StoreV {
                                        rels: store.rels.update(
                                            p,
                                            RelationV { recs: kept, floor, ..rel },
                                        ),
                                        ..store
                                    },
                                    out: SourceV {
                                        cols: seq!["rows_deleted"@, "floor"@],
                                        rows: seq![
                                            Seq::empty().push(
                                                Value::Int(gone as i64),
                                            ).push(floor_value(floor)),
                                        ],
                                    },
                                })
                            }
                        }
                    },
                }
            }
        }
    }
}

fn gc(store: Store, name: &String, e: &Expr, now: i64, ro: bool) -> (r: Result<Done, DbError>)
    ensures
        outcome(r) == gc_done(store@, name@, e@, now, ro),
{
    let p = find_rel(&store.rels, name);
    if ro {
        Err(err_on(ErrKind::ReadOnly, name.as_str()))
    } else if p >= store.rels.len() {
        Err(err_on(ErrKind::RelationNotFound, name.as_str()))
    } else if !permits(store.rels.get(p), Access::Protected) {
        Err(err_on(ErrKind::AccessLevel, name.as_str()))
    } else if !stamps(&store.rels.get(p).keys) {
        Err(err_on(ErrKind::RequiresTt, name.as_str()))
    } else if has_pending(&store.pending, name) {
        Err(err_on(ErrKind::PendingWrites, name.as_str()))
    } else {
        let ctx = context_in(&store, now);
        match eval(e, &List::new(), &List::new(), ctx) {
            Err(e) => Err(e),
            Ok(v) => {
                match point(&v, now, true) {
                    None => Err(err(ErrKind::TypeMismatch)),
                    Some(cutoff) => if cutoff > latest(&store, now) {
                        Err(err_on(ErrKind::FutureCutoff, name.as_str()))
                    } else {
                        let rel = store.rels.get(p).dup();
                        match decode_all(&rel.recs) {
                            Err(e) => Err(e),
                            Ok(rows) => {
                                let kept = keep_current(
                                    &rel.recs,
                                    &rows,
                                    kind(&rel.keys),
                                    rel.keys.len(),
                                    cutoff,
                                );
                                let gone = rel.recs.len() - kept.len();
                                let floor = if gone > 0 {
                                    raise(rel.floor, cutoff)
                                } else {
                                    rel.floor
                                };
                                Ok(Done {
                                    store: Store {
                                        rels: with_rel_at(
                                            store.rels,
                                            p,
                                            Relation { recs: kept, floor, ..rel },
                                        ),
                                        ..store
                                    },
                                    out: Source {
                                        cols: cols2("rows_deleted", "floor"),
                                        rows: one_row(
                                            pushed(
                                                pushed(List::new(), DataValue::Int(gone as i64)),
                                                value_of_floor(floor),
                                            ),
                                        ),
                                    },
                                })
                            }
                        }
                    },
                }
            }
        }
    }
}

/// The records from place `i` on that do not speak of a fact, after `acc`.
pub open spec fn others_from(
    recs: Seq<RecordV>,
    fact: Seq<Value>,
    k: RelKind,
    nk: int,
    i: int,
    acc: Seq<RecordV>,
) -> Seq<RecordV>
    decreases recs.len() - i,
{
    if i < 0 || i >= recs.len() {
        acc
    } else if id_of(recs[i].key, k, nk) == fact {
        others_from(recs, fact, k, nk, i + 1, acc)
    } else {
        others_from(recs, fact, k, nk, i + 1, acc.push(recs[i]))
    }
}

fn keep_others(recs: &List<Record>, fact: &Tuple, k: RelKind, nk: usize) -> (r: List<Record>)
    requires
        id_width(k, nk as int) >= 0,
    ensures
        r@ == others_from(recs@, fact@, k, nk as int, 0, Seq::empty()),
        r@.len() <= recs@.len(),
{
    let mut acc: List<Record> = List::new();
    let mut i: usize = 0;
    while i < recs.len()
        invariant
            acc@.len() <= i <= recs@.len(),
            id_width(k, nk as int) >= 0,
            others_from(recs@, fact@, k, nk as int, 0, Seq::empty()) == others_from(
                recs@,
                fact@,
                k,
                nk as int,
                i as int,
                acc@,
            ),
        decreases recs@.len() - i,
    {
        if !same_row(&id(&recs.get(i).key, k, nk), fact) {
            acc.push(recs.get(i).dup());
        }
        i = i + 1;
    }
    acc
}

/// The name of the relation in which evictions are logged.
pub open spec fn audit_name() -> Seq<char> {
    "mnestic_evict_audit"@
}

/// The keys of the log: the relation, what stands for the fact, and the
/// transaction.
pub open spec fn audit_keys() -> Seq<ColumnV> {
    seq![
        ColumnV { name: "rel"@, typ: ColType::Str, default: None },
        ColumnV { name: "key"@, typ: ColType::Str, default: None },
        ColumnV { name: "tt"@, typ: ColType::TxTime, default: None },
    ]
}

/// The values of the log: how many records went.
pub open spec fn audit_vals() -> Seq<ColumnV> {
    seq![ColumnV { name: "rows_deleted"@, typ: ColType::Int, default: None }]
}

fn keys_of_audit() -> (r: List<Column>)
    ensures
        r@ == audit_keys(),
{
    let mut r: List<Column> = List::new();
    r.push(Column { name: "rel".to_owned(), typ: ColType::Str, default: None });
    r.push(Column { name: "key".to_owned(), typ: ColType::Str, default: None });
    r.push(Column { name: "tt".to_owned(), typ: ColType::TxTime, default: None });
    assert(r@ =~= audit_keys());
    r
}

fn vals_of_audit() -> (r: List<Column>)
    ensures
        r@ == audit_vals(),
{
    let mut r: List<Column> = List::new();
    r.push(Column { name: "rows_deleted".to_owned(), typ: ColType::Int, default: None });
    assert(r@ =~= audit_vals());
    r
}

/// Whether a relation is such a log, by the kinds and names of its columns.
pub open spec fn is_audit(rel: RelationV) -> bool {
    kind_of(rel.keys) == RelKind::Tx && names_of(columns_of(rel)) == names_of(
        audit_keys() + audit_vals(),
    )
}

fn audits(rel: &Relation) -> (r: bool)
    ensures
        r == is_audit(rel@),
{
    let want = chain_names(names(&keys_of_audit()), &names(&vals_of_audit()));
    assert(want@ =~= names_of(audit_keys() + audit_vals()));
    let have = names(&columns(rel));
    if kind(&rel.keys) != RelKind::Tx || have.len() != want.len() {
        return false;
    }
    let mut i: usize = 0;
    while i < have.len()
        invariant
            i <= have@.len(),
            have@.len() == want@.len(),
            have@ == names_of(columns_of(rel@)),
            want@ == names_of(audit_keys() + audit_vals()),
            forall|j: int| 0 <= j < i ==> have@[j] == want@[j],
        decreases have@.len() - i,
    {
        if *have.get(i) != *want.get(i) {
            return false;
        }
        i = i + 1;
    }
    assert(have@ =~= want@);
    true
}

/// What stands for a fact in the log: an identifier, or the fact itself where
/// it may be named.
pub open spec fn marker(fact: Seq<Value>, plain: bool, ctx: Ctx) -> Seq<char> {
    if plain {
        texts_from(fact, 0)
    } else {
        hex_from(fresh_uuid(ctx), 32, Seq::empty())
    }
}

fn marker_of(fact: &Tuple, plain: bool, ctx: Ctx) -> (r: String)
    ensures
        r@ == marker(fact@, plain, ctx),
{
    if plain {
        show_row(fact)
    } else {
        show_uuid(make_uuid(ctx))
    }
}

/// The evictions so far: the records that are left, the entries of the log, and
/// what is reported.
pub struct Eviction {
    pub recs: List<Record>,
    pub pending: List<Pending>,
    pub rows: List<Tuple>,
}

/// The mathematical counterpart of [`Eviction`].
#[verifier::ext_equal]
pub struct EvictionV {
    pub recs: Seq<RecordV>,
    pub pending: Seq<PendingV>,
    pub rows: Seq<Seq<Value>>,
}

impl View for Eviction {
    type V = EvictionV;
    open spec fn view(&self) -> EvictionV {
        EvictionV {
            recs: self.recs@,
            pending: self.pending@,
            rows: self.rows@,
        }
    }
}

impl Dup for Eviction {
    fn dup(&self) -> (r: Self) {
        Eviction {
            recs: self.recs.dup(),
            pending: self.pending.dup(),
            rows: self.rows.dup(),
        }
    }
}

fn log_entry(rel: String, mark: String, n: i64) -> (r: Pending)
    ensures
        r@ == entry(rel@, mark@, n),
{
    let mut key: Tuple = List::new();
    key.push(DataValue::Str(rel));
    key.push(DataValue::Str(mark));
    let mut vals: Tuple = List::new();
    vals.push(DataValue::Int(n));
    assert(key@ =~= seq![Value::Str(rel@), Value::Str(mark@)]);
    assert(vals@ =~= seq![Value::Int(n)]);
    Pending { rel: "mnestic_evict_audit".to_owned(), key, flag: true, vals }
}

/// An entry of the log.
pub open spec fn entry(rel: Seq<char>, mark: Seq<char>, n: i64) -> PendingV {
    PendingV {
        rel: audit_name(),
        key: seq![Value::Str(rel), Value::Str(mark)],
        flag: true,
        vals: seq![Value::Int(n)],
    }
}

/// The evictions of facts, from place `i` on.
pub open spec fn evict_facts_from(
    name: Seq<char>,
    k: RelKind,
    nk: int,
    facts: Seq<Seq<Value>>,
    plain: bool,
    ctx: Ctx,
    i: int,
    acc: EvictionV,
) -> EvictionV
    decreases facts.len() - i,
{
    if i < 0 || i >= facts.len() {
        acc
    } else {
        let left = others_from(acc.recs, facts[i], k, nk, 0, Seq::empty());
        let n = (acc.recs.len() - left.len()) as i64;
        let mark = marker(facts[i], plain, salted(ctx, i));
        let next = EvictionV {
            rows: acc.rows.push(seq![Value::Str(name), Value::Str(mark), Value::Int(n)]),
            pending: acc.pending.push(entry(name, mark, n)),
            recs: left,
        };
        evict_facts_from(name, k, nk, facts, plain, ctx, i + 1, next)
    }
}

fn evict_facts(
    name: &String,
    k: RelKind,
    nk: usize,
    facts: &List<Tuple>,
    plain: bool,
    ctx: Ctx,
    acc: Eviction,
) -> (r: Eviction)
    requires
        id_width(k, nk as int) >= 0,
    ensures
        r@ == evict_facts_from(name@, k, nk as int, facts@, plain, ctx, 0, acc@),
{
    let ghost goal = evict_facts_from(name@, k, nk as int, facts@, plain, ctx, 0, acc@);
    let mut state: Eviction = acc;
    let mut i: usize = 0;
    while i < facts.len()
        invariant
            i <= facts@.len(),
            goal == evict_facts_from(name@, k, nk as int, facts@, plain, ctx, i as int, state@),
            id_width(k, nk as int) >= 0,
        decreases facts@.len() - i,
    {
        let left = keep_others(&state.recs, facts.get(i), k, nk);
        let n = (state.recs.len() - left.len()) as i64;
        let mark = marker_of(facts.get(i), plain, salt(ctx, i));
        let mut row: Tuple = List::new();
        row.push(DataValue::Str(name.clone()));
        row.push(DataValue::Str(mark.clone()));
        row.push(DataValue::Int(n));
        assert(row@ =~= seq![Value::Str(name@), Value::Str(mark@), Value::Int(n)]);
        state = Eviction {
            rows: pushed(state.rows, row),
            pending: pushed(state.pending, log_entry(name.clone(), mark, n)),
            recs: left,
        };
        i = i + 1;
    }
    state
}

/// Drops everything that was recorded of facts, and logs it.
pub open spec fn evict_done(
    store: StoreV,
    name: Seq<char>,
    e: ExprV,
    plain: bool,
    now: i64,
    ro: bool,
) -> Result<DoneV, Fault> {
    let p = rel_place(store.rels, name);
    let log = audit_name();
    let q = rel_place(store.rels, log);
    if ro {
        Err(fault_on(ErrKind::ReadOnly, name))
    } else if p >= store.rels.len() {
        Err(fault_on(ErrKind::RelationNotFound, name))
    } else if !permitted(store.rels[p], Access::Protected) {
        Err(fault_on(ErrKind::AccessLevel, name))
    } else if !has_tt(store.rels[p].keys) {
        Err(fault_on(ErrKind::RequiresTt, name))
    } else if writes_pending(store.pending, name, 0) {
        Err(fault_on(ErrKind::PendingWrites, name))
    } else if q < store.rels.len() && !is_audit(store.rels[q]) {
        Err(fault_on(ErrKind::ReservedName, log))
    } else {
        let ctx = context(store, now);
        match wanted_keys_of(store.rels[p], e, ctx) {
            Err(f) => Err(f),
            Ok(ks) => {
                let rel = store.rels[p];
                let start = EvictionV {
                    recs: rel.recs,
                    pending: store.pending,
                    rows: Seq::empty(),
                };
                let k = kind_of(rel.keys);
                let ev = evict_facts_from(name, k, rel.keys.len() as int, ks, plain, ctx, 0, start);
                let next = StoreV {
                    rels: store.rels.update(p, RelationV { recs: ev.recs, ..rel }),
                    pending: ev.pending,
                    ..store
                };
                let logged = if q < store.rels.len() {
                    Ok(next)
                } else {
                    created(next, log, audit_keys(), audit_vals())
                };
                match logged {
                    Err(f) => Err(f),
                    Ok(last) => Ok(DoneV {
                        store: last,
                        out: SourceV {
                            cols: seq!["rel"@, "key"@, "rows_deleted"@],
                            rows: ev.rows,
                        },
                    }),
                }
            }
        }
    }
}

fn evict(
    store: Store,
    name: &String,
    e: &Expr,
    plain: bool,
    now: i64,
    ro: bool,
) -> (r: Result<Done, DbError>)
    ensures
        outcome(r) == evict_done(store@, name@, e@, plain, now, ro),
{
    let p = find_rel(&store.rels, name);
    let log = "mnestic_evict_audit".to_owned();
    let q = find_rel(&store.rels, &log);
    if ro {
        Err(err_on(ErrKind::ReadOnly, name.as_str()))
    } else if p >= store.rels.len() {
        Err(err_on(ErrKind::RelationNotFound, name.as_str()))
    } else if !permits(store.rels.get(p), Access::Protected) {
        Err(err_on(ErrKind::AccessLevel, name.as_str()))
    } else if !stamps(&store.rels.get(p).keys) {
        Err(err_on(ErrKind::RequiresTt, name.as_str()))
    } else if has_pending(&store.pending, name) {
        Err(err_on(ErrKind::PendingWrites, name.as_str()))
    } else if q < store.rels.len() && !audits(store.rels.get(q)) {
        Err(err_on(ErrKind::ReservedName, log.as_str()))
    } else {
        let ctx = context_in(&store, now);
        match wanted_keys(store.rels.get(p), e, ctx) {
            Err(e) => Err(e),
            Ok(ks) => {
                let rel = store.rels.get(p).dup();
                let start = Eviction {
                    recs: rel.recs.dup(),
                    pending: store.pending.dup(),
                    rows: List::new(),
                };
                let k = kind(&rel.keys);
                let ev = evict_facts(name, k, rel.keys.len(), &ks, plain, ctx, start);
                let next = Store {
                    rels: with_rel_at(store.rels, p, Relation { recs: ev.recs, ..rel }),
                    pending: ev.pending,
                    ..store
                };
                let logged = if q < next.rels.len() {
                    Ok(next)
                } else {
                    create(next, &log, keys_of_audit(), vals_of_audit())
                };
                match logged {
                    Err(e) => Err(e),
                    Ok(last) => Ok(Done {
                        store: last,
                        out: Source { cols: cols3("rel", "key", "rows_deleted"), rows: ev.rows },
                    }),
                }
            }
        }
    }
}

/// The records from place `i` on that can be read, after `acc`.
pub open spec fn readable_from(recs: Seq<RecordV>, i: int, acc: Seq<RecordV>) -> Seq<RecordV>
    decreases recs.len() - i,
{
    if i < 0 || i >= recs.len() {
        acc
    } else if decode_row_of(recs[i].blob) is None {
        readable_from(recs, i + 1, acc)
    } else {
        readable_from(recs, i + 1, acc.push(recs[i]))
    }
}

fn keep_readable(recs: &List<Record>) -> (r: List<Record>)
    ensures
        r@ == readable_from(recs@, 0, Seq::empty()),
        r@.len() <= recs@.len(),
{
    let mut acc: List<Record> = List::new();
    let mut i: usize = 0;
    while i < recs.len()
        invariant
            acc@.len() <= i <= recs@.len(),
            readable_from(recs@, 0, Seq::empty()) == readable_from(recs@, i as int, acc@),
        decreases recs@.len() - i,
    {
        if decode_row(&recs.get(i).blob).is_some() {
            acc.push(recs.get(i).dup());
        }
        i = i + 1;
    }
    acc
}

/// Drops the records of a relation that cannot be read.
pub open spec fn repair_done(store: StoreV, name: Seq<char>, ro: bool) -> Result<DoneV, Fault> {
    let p = rel_place(store.rels, name);
    if ro {
        Err(fault_on(ErrKind::ReadOnly, name))
    } else if p >= store.rels.len() {
        Err(fault_on(ErrKind::RelationNotFound, name))
    } else if !permitted(store.rels[p], Access::Protected) {
        Err(fault_on(ErrKind::AccessLevel, name))
    } else {
        let rel = store.rels[p];
        let left = readable_from(rel.recs, 0, Seq::empty());
        let n = (rel.recs.len() - left.len()) as i64;
        match refreshed(RelationV { recs: left, ..rel }) {
            Err(f) => Err(f),
            Ok(next) => {
                Ok(DoneV {
                    store: StoreV { rels: store.rels.update(p, next), ..store },
                    out: SourceV {
                        cols: seq!["rows_deleted"@],
                        rows: seq![Seq::empty().push(Value::Int(n))],
                    },
                })
            }
        }
    }
}

fn repair(store: Store, name: &String, ro: bool) -> (r: Result<Done, DbError>)
    ensures
        outcome(r) == repair_done(store@, name@, ro),
{
    let p = find_rel(&store.rels, name);
    if ro {
        Err(err_on(ErrKind::ReadOnly, name.as_str()))
    } else if p >= store.rels.len() {
        Err(err_on(ErrKind::RelationNotFound, name.as_str()))
    } else if !permits(store.rels.get(p), Access::Protected) {
        Err(err_on(ErrKind::AccessLevel, name.as_str()))
    } else {
        let rel = store.rels.get(p).dup();
        let left = keep_readable(&rel.recs);
        let n = (rel.recs.len() - left.len()) as i64;
        match refresh(Relation { recs: left, ..rel }) {
            Err(e) => Err(e),
            Ok(next) => {
                Ok(Done {
                    store: Store { rels: with_rel_at(store.rels, p, next), ..store },
                    out: Source {
                        cols: cols1("rows_deleted"),
                        rows: one_row(pushed(List::new(), DataValue::Int(n))),
                    },
                })
            }
        }
    }
}

/// A store in which relations, from place `i` on, have a level of access.
pub open spec fn set_levels_from(
    ns: Seq<Seq<char>>,
    a: Access,
    i: int,
    cur: StoreV,
) -> Result<StoreV, Fault>
    decreases ns.len() - i,
{
    if i < 0 || i >= ns.len() {
        Ok(cur)
    } else {
        let step = {
            let p = rel_place(cur.rels, ns[i]);
            if p >= cur.rels.len() {
                Err(fault_on(ErrKind::RelationNotFound, ns[i]))
            } else {
                let rel = cur.rels[p];
                Ok(StoreV { rels: cur.rels.update(p, RelationV { access: a, ..rel }), ..cur })
            }
        };
        match step {
            Err(f) => Err(f),
            Ok(next) => set_levels_from(ns, a, i + 1, next),
        }
    }
}

fn set_levels(ns: &List<String>, a: Access, cur: Store) -> (r: Result<Store, DbError>)
    ensures
        outcome(r) == set_levels_from(ns@, a, 0, cur@),
{
    let ghost goal = set_levels_from(ns@, a, 0, cur@);
    let mut state: Store = cur;
    let mut i: usize = 0;
    while i < ns.len()
        invariant
            i <= ns@.len(),
            goal == set_levels_from(ns@, a, 0, cur@),
            goal == set_levels_from(ns@, a, i as int, state@),
        decreases ns@.len() - i,
    {
        let step = {
            let p = find_rel(&state.rels, ns.get(i));
            if p >= state.rels.len() {
                Err(err_on(ErrKind::RelationNotFound, ns.get(i).as_str()))
            } else {
                let rel = state.rels.get(p).dup();
                Ok(
                    Store {
                        rels: with_rel_at(state.rels, p, Relation { access: a, ..rel }),
                        ..state
                    },
                )
            }
        };
        match step {
            Err(e) => {
                return Err(e);
            },
            Ok(next) => {
                state = next;
            },
        }
        i = i + 1;
    }
    Ok(state)
}

/// A store without relations, from place `i` on.
pub open spec fn remove_all_from(ns: Seq<Seq<char>>, i: int, cur: StoreV) -> Result<StoreV, Fault>
    decreases ns.len() - i,
{
    if i < 0 || i >= ns.len() {
        Ok(cur)
    } else {
        let step = {
            let p = rel_place(cur.rels, ns[i]);
            if p >= cur.rels.len() {
                Err(fault_on(ErrKind::RelationNotFound, ns[i]))
            } else if !permitted(cur.rels[p], Access::Normal) {
                Err(fault_on(ErrKind::AccessLevel, ns[i]))
            } else if writes_pending(cur.pending, ns[i], 0) {
                Err(fault_on(ErrKind::PendingWrites, ns[i]))
            } else {
                Ok(StoreV { rels: cur.rels.remove(p), ..cur })
            }
        };
        match step {
            Err(f) => Err(f),
            Ok(next) => remove_all_from(ns, i + 1, next),
        }
    }
}

fn remove_all(ns: &List<String>, cur: Store) -> (r: Result<Store, DbError>)
    ensures
        outcome(r) == remove_all_from(ns@, 0, cur@),
{
    let ghost goal = remove_all_from(ns@, 0, cur@);
    let mut state: Store = cur;
    let mut i: usize = 0;
    while i < ns.len()
        invariant
            i <= ns@.len(),
            goal == remove_all_from(ns@, 0, cur@),
            goal == remove_all_from(ns@, i as int, state@),
        decreases ns@.len() - i,
    {
        let step = {
            let p = find_rel(&state.rels, ns.get(i));
            if p >= state.rels.len() {
                Err(err_on(ErrKind::RelationNotFound, ns.get(i).as_str()))
            } else if !permits(state.rels.get(p), Access::Normal) {
                Err(err_on(ErrKind::AccessLevel, ns.get(i).as_str()))
            } else if has_pending(&state.pending, ns.get(i)) {
                Err(err_on(ErrKind::PendingWrites, ns.get(i).as_str()))
            } else {
                Ok(Store { rels: without_rel_at(state.rels, p), ..state })
            }
        };
        match step {
            Err(e) => {
                return Err(e);
            },
            Ok(next) => {
                state = next;
            },
        }
        i = i + 1;
    }
    Ok(state)
}

/// The places of names among others, from place `i` on.
pub open spec fn places_from(
    ns: Seq<Seq<char>>,
    all: Seq<Seq<char>>,
    i: int,
    acc: Seq<usize>,
) -> Seq<usize>
    decreases ns.len() - i,
{
    if i < 0 || i >= ns.len() {
        acc
    } else {
        places_from(ns, all, i + 1, acc.push(place(all, ns[i]) as usize))
    }
}

pub fn places(ns: &List<String>, all: &List<String>) -> (r: List<usize>)
    ensures
        r@ == places_from(ns@, all@, 0, Seq::empty()),
{
    let mut acc: List<usize> = List::new();
    let mut i: usize = 0;
    while i < ns.len()
        invariant
            i <= ns@.len(),
            places_from(ns@, all@, 0, Seq::empty()) == places_from(ns@, all@, i as int, acc@),
        decreases ns@.len() - i,
    {
        acc.push(find(all, ns.get(i)));
        i = i + 1;
    }
    acc
}

fn without_at<T: View>(l: List<T>, i: usize) -> (r: List<T>)
    requires
        i < l@.len(),
    ensures
        r@ == l@.remove(i as int),
{
    let mut out = l;
    out.remove(i);
    out
}

/// The place of a relation that may be changed in every way.
pub open spec fn governed_place(store: StoreV, name: Seq<char>) -> Result<usize, Fault> {
    let p = rel_place(store.rels, name);
    if p >= store.rels.len() {
        Err(fault_on(ErrKind::RelationNotFound, name))
    } else if !permitted(store.rels[p], Access::Normal) {
        Err(fault_on(ErrKind::AccessLevel, name))
    } else {
        Ok(p as usize)
    }
}

fn governed(store: &Store, name: &String) -> (r: Result<usize, DbError>)
    ensures
        outcome(r) == governed_place(store@, name@),
        r matches Ok(p) ==> p < store@.rels.len(),
{
    let p = find_rel(&store.rels, name);
    if p >= store.rels.len() {
        Err(err_on(ErrKind::RelationNotFound, name.as_str()))
    } else if !permits(store.rels.get(p), Access::Normal) {
        Err(err_on(ErrKind::AccessLevel, name.as_str()))
    } else {
        Ok(p)
    }
}

/// Makes an index.
pub open spec fn index_created(
    store: StoreV,
    name: Seq<char>,
    ix: Seq<char>,
    cols: Seq<Seq<char>>,
) -> Result<DoneV, Fault> {
    match governed_place(store, name) {
        Err(f) => Err(f),
        Ok(p) => {
            let rel = store.rels[p as int];
            let full = full_name(name, ix);
            let all = names_of(columns_of(rel));
            let bad = foreign_from(cols, all, 0);
            if has_tt(rel.keys) {
                Err(fault_on(ErrKind::TtUnsupported, name))
            } else if bad < cols.len() {
                Err(fault_on(ErrKind::ColumnNotFound, cols[bad]))
            } else if index_from(rel.indices, full, 0) < rel.indices.len() {
                Err(fault_on(ErrKind::IndexExists, full))
            } else {
                let indices = rel.indices.push(
                    (IndexV { name: full, places: places_from(cols, all, 0, Seq::empty()) }),
                );
                Ok(DoneV {
                    store: StoreV {
                        rels: store.rels.update(p as int, RelationV { indices, ..rel }),
                        ..store
                    },
                    out: all_right(),
                })
            }
        }
    }
}

fn index_create(
    store: Store,
    name: &String,
    ix: &String,
    cols: &List<String>,
) -> (r: Result<Done, DbError>)
    ensures
        outcome(r) == index_created(store@, name@, ix@, cols@),
{
    match governed(&store, name) {
        Err(e) => Err(e),
        Ok(p) => {
            let rel = store.rels.get(p).dup();
            let full = name_of_index(name, ix);
            let all = names(&columns(&rel));
            let bad = find_foreign(cols, &all);
            if stamps(&rel.keys) {
                Err(err_on(ErrKind::TtUnsupported, name.as_str()))
            } else if bad < cols.len() {
                Err(err_on(ErrKind::ColumnNotFound, cols.get(bad).as_str()))
            } else if find_index(&rel.indices, &full) < rel.indices.len() {
                Err(err_on(ErrKind::IndexExists, full.as_str()))
            } else {
                let indices = pushed(rel.indices, Index { name: full, places: places(cols, &all) });
                Ok(Done {
                    store: Store {
                        rels: with_rel_at(store.rels, p, Relation { indices, ..rel }),
                        ..store
                    },
                    out: ok_source(),
                })
            }
        }
    }
}

/// Drops an index.
pub open spec fn index_dropped(
    store: StoreV,
    name: Seq<char>,
    ix: Seq<char>,
) -> Result<DoneV, Fault> {
    match governed_place(store, name) {
        Err(f) => Err(f),
        Ok(p) => {
            let rel = store.rels[p as int];
            let full = full_name(name, ix);
            let k = index_from(rel.indices, full, 0);
            if k >= rel.indices.len() {
                Err(fault_on(ErrKind::IndexNotFound, full))
            } else {
                let indices = rel.indices.remove(k);
                Ok(DoneV {
                    store: StoreV {
                        rels: store.rels.update(p as int, RelationV { indices, ..rel }),
                        ..store
                    },
                    out: all_right(),
                })
            }
        }
    }
}

fn index_drop(store: Store, name: &String, ix: &String) -> (r: Result<Done, DbError>)
    ensures
        outcome(r) == index_dropped(store@, name@, ix@),
{
    match governed(&store, name) {
        Err(e) => Err(e),
        Ok(p) => {
            let rel = store.rels.get(p).dup();
            let full = name_of_index(name, ix);
            let k = find_index(&rel.indices, &full);
            if k >= rel.indices.len() {
                Err(err_on(ErrKind::IndexNotFound, full.as_str()))
            } else {
                let indices = without_at(rel.indices, k);
                Ok(Done {
                    store: Store {
                        rels: with_rel_at(store.rels, p, Relation { indices, ..rel }),
                        ..store
                    },
                    out: ok_source(),
                })
            }
        }
    }
}

/// Makes a search index.
pub open spec fn search_created(
    store: StoreV,
    name: Seq<char>,
    ix: Seq<char>,
    kind: Lookup,
    opts: Seq<FieldV>,
) -> Result<DoneV, Fault> {
    match governed_place(store, name) {
        Err(f) => Err(f),
        Ok(p) => {
            let rel = store.rels[p as int];
            if has_tt(rel.keys) {
                Err(fault_on(ErrKind::TtUnsupported, name))
            } else if search_from(rel.searches, ix, 0) < rel.searches.len() {
                Err(fault_on(ErrKind::IndexExists, ix))
            } else {
                match configured(ix, kind, opts, names_of(columns_of(rel))) {
                    Err(f) => Err(f),
                    Ok(s) => {
                        let searches = rel.searches.push(s);
                        match refreshed(RelationV { searches, ..rel }) {
                            Err(f) => Err(f),
                            Ok(next) => Ok(
                                DoneV {
                                    store: StoreV {
                                        rels: store.rels.update(p as int, next),
                                        ..store
                                    },
                                    out: all_right(),
                                },
                            ),
                        }
                    },
                }
            }
        },
    }
}

fn search_create(
    store: Store,
    name: &String,
    ix: &String,
    kind: Lookup,
    opts: &List<Field>,
) -> (r: Result<Done, DbError>)
    ensures
        outcome(r) == search_created(store@, name@, ix@, kind, opts@),
{
    match governed(&store, name) {
        Err(e) => Err(e),
        Ok(p) => {
            let rel = store.rels.get(p).dup();
            if stamps(&rel.keys) {
                Err(err_on(ErrKind::TtUnsupported, name.as_str()))
            } else if find_search(&rel.searches, ix) < rel.searches.len() {
                Err(err_on(ErrKind::IndexExists, ix.as_str()))
            } else {
                match configure(ix, kind, opts, &names(&columns(&rel))) {
                    Err(e) => Err(e),
                    Ok(s) => {
                        let searches = pushed(rel.searches, s);
                        match refresh(Relation { searches, ..rel }) {
                            Err(e) => Err(e),
                            Ok(next) => Ok(
                                Done {
                                    store: Store {
                                        rels: with_rel_at(store.rels, p, next),
                                        ..store
                                    },
                                    out: ok_source(),
                                },
                            ),
                        }
                    },
                }
            }
        },
    }
}

/// Drops a search index.
pub open spec fn search_dropped(
    store: StoreV,
    name: Seq<char>,
    ix: Seq<char>,
    kind: Lookup,
) -> Result<DoneV, Fault> {
    match governed_place(store, name) {
        Err(f) => Err(f),
        Ok(p) => {
            let rel = store.rels[p as int];
            let k = search_from(rel.searches, ix, 0);
            if k >= rel.searches.len() || rel.searches[k].kind != kind {
                Err(fault_on(ErrKind::IndexNotFound, ix))
            } else {
                let searches = rel.searches.remove(k);
                Ok(DoneV {
                    store: StoreV {
                        rels: store.rels.update(p as int, RelationV { searches, ..rel }),
                        ..store
                    },
                    out: all_right(),
                })
            }
        }
    }
}

fn search_drop(store: Store, name: &String, ix: &String, kind: Lookup) -> (r: Result<Done, DbError>)
    ensures
        outcome(r) == search_dropped(store@, name@, ix@, kind),
{
    match governed(&store, name) {
        Err(e) => Err(e),
        Ok(p) => {
            let rel = store.rels.get(p).dup();
            let k = find_search(&rel.searches, ix);
            if k >= rel.searches.len() || rel.searches.get(k).kind != kind {
                Err(err_on(ErrKind::IndexNotFound, ix.as_str()))
            } else {
                let searches = without_at(rel.searches, k);
                Ok(Done {
                    store: Store {
                        rels: with_rel_at(store.rels, p, Relation { searches, ..rel }),
                        ..store
                    },
                    out: ok_source(),
                })
            }
        }
    }
}

/// Whether the queries of triggers, from place `i` on, use known aggregations
/// alone: those that are registered do not count.
pub open spec fn check_triggers_from(ts: Seq<TriggerV>, i: int, ok: bool) -> Result<bool, Fault>
    decreases ts.len() - i,
{
    if i < 0 || i >= ts.len() {
        Ok(ok)
    } else {
        let step = match units_from(ts[i].prog.rules, Seq::empty(), 0, Seq::empty()) {
            Err(f) => Err(f),
            Ok(_) => Ok(ok),
        };
        match step {
            Err(f) => Err(f),
            Ok(next) => check_triggers_from(ts, i + 1, next),
        }
    }
}

fn check_triggers(ts: &List<Trigger>, ok: bool) -> (r: Result<bool, DbError>)
    ensures
        outcome(r) == check_triggers_from(ts@, 0, ok),
{
    let ghost goal = check_triggers_from(ts@, 0, ok);
    let mut state: bool = ok;
    let mut i: usize = 0;
    while i < ts.len()
        invariant
            i <= ts@.len(),
            goal == check_triggers_from(ts@, 0, ok),
            goal == check_triggers_from(ts@, i as int, state),
        decreases ts@.len() - i,
    {
        let step = match make_units(&ts.get(i).prog.rules, &List::new()) {
            Err(e) => Err(e),
            Ok(_) => Ok(state),
        };
        match step {
            Err(e) => {
                return Err(e);
            },
            Ok(next) => {
                state = next;
            },
        }
        i = i + 1;
    }
    Ok(state)
}

/// Gives a relation triggers in place of those it has.
pub open spec fn triggers_set(
    store: StoreV,
    name: Seq<char>,
    ts: Seq<TriggerV>,
) -> Result<DoneV, Fault> {
    match governed_place(store, name) {
        Err(f) => Err(f),
        Ok(p) => {
            let rel = store.rels[p as int];
            if has_tt(rel.keys) {
                Err(fault_on(ErrKind::TtUnsupported, name))
            } else {
                match check_triggers_from(ts, 0, true) {
                    Err(f) => Err(f),
                    Ok(_ok) => {
                        Ok(DoneV {
                            store: StoreV {
                                rels: store.rels.update(
                                    p as int,
                                    RelationV { triggers: ts, ..rel },
                                ),
                                ..store
                            },
                            out: all_right(),
                        })
                    }
                }
            }
        }
    }
}

fn set_triggers(store: Store, name: &String, ts: &List<Trigger>) -> (r: Result<Done, DbError>)
    ensures
        outcome(r) == triggers_set(store@, name@, ts@),
{
    match governed(&store, name) {
        Err(e) => Err(e),
        Ok(p) => {
            let rel = store.rels.get(p).dup();
            if stamps(&rel.keys) {
                Err(err_on(ErrKind::TtUnsupported, name.as_str()))
            } else {
                match check_triggers(ts, true) {
                    Err(e) => Err(e),
                    Ok(_ok) => {
                        Ok(Done {
                            store: Store {
                                rels: with_rel_at(
                                    store.rels,
                                    p,
                                    Relation { triggers: ts.dup(), ..rel },
                                ),
                                ..store
                            },
                            out: ok_source(),
                        })
                    }
                }
            }
        }
    }
}

/// A store after an operation, and the rows that the operation shows.
#[verifier::opaque]
pub open spec fn op_done(
    store: StoreV,
    op: SysOpV,
    customs: Seq<CustomV>,
    now: i64,
    ro: bool,
) -> Result<DoneV, Fault> {
    match op {
        SysOpV::Relations => Ok(DoneV {
            out: SourceV {
                cols: seq!["name"@, "arity"@, "access_level"@],
                rows: sorted_of(rel_entries(store.rels, 0, Seq::empty())),
            },
            store,
        }),
        SysOpV::Columns(n) => match column_rows_of(store.rels, n) {
            Err(f) => Err(f),
            Ok(rows) => {
                Ok(
                    DoneV {
                        store,
                        out: SourceV { cols: seq!["column"@, "is_key"@, "type"@], rows },
                    },
                )
            }
        },
        SysOpV::Indices(n) => match indices_listed(store.rels, n) {
            Err(f) => Err(f),
            Ok(out) => Ok(DoneV { store, out }),
        },
        SysOpV::History(n, e, l, o) => history_done(store, n, e, l, o, now),
        SysOpV::Explain(p) => match explained(store.rels, p, customs) {
            Err(f) => Err(f),
            Ok(out) => {
                Ok(DoneV { store, out })
            }
        },
        _ => if ro {
            Err(fault(ErrKind::ReadOnly))
        } else {
            match op {
                SysOpV::SetAccess(a, ns) => match set_levels_from(ns, a, 0, store) {
                    Err(f) => Err(f),
                    Ok(s) => {
                        Ok(DoneV { store: s, out: all_right() })
                    }
                },
                SysOpV::IndexCreate(n, x, cs) => index_created(store, n, x, cs),
                SysOpV::IndexDrop(n, x) => index_dropped(store, n, x),
                SysOpV::SetTriggers(n, ts) => triggers_set(store, n, ts),
                SysOpV::Remove(ns) => match remove_all_from(ns, 0, store) {
                    Err(f) => Err(f),
                    Ok(s) => {
                        Ok(DoneV { store: s, out: all_right() })
                    }
                },
                SysOpV::HistoryGc(n, e) => gc_done(store, n, e, now, ro),
                SysOpV::Evict(n, e, plain) => evict_done(store, n, e, plain, now, ro),
                SysOpV::Repair(n) => repair_done(store, n, ro),
                SysOpV::SearchCreate(n, x, k, opts) => search_created(store, n, x, k, opts),
                SysOpV::SearchDrop(n, x, k) => search_dropped(store, n, x, k),
                _ => Err(fault(ErrKind::ReadOnly)),
            }
        },
    }
}

/// A store after an operation, and the rows that the operation shows.
pub fn run_op(
    store: Store,
    op: &SysOp,
    customs: &List<Custom>,
    now: i64,
    ro: bool,
) -> (r: Result<Done, DbError>)
    ensures
        outcome(r) == op_done(store@, op@, customs@, now, ro),
{
    reveal(op_done);
    match op {
        SysOp::Relations => Ok(Done {
            out: Source {
                cols: cols3("name", "arity", "access_level"),
                rows: sorted(&list_relations(&store.rels)),
            },
            store,
        }),
        SysOp::Columns(n) => match column_rows(&store.rels, n) {
            Err(e) => Err(e),
            Ok(rows) => {
                Ok(Done { store, out: Source { cols: cols3("column", "is_key", "type"), rows } })
            }
        },
        SysOp::Indices(n) => match list_indices(&store.rels, n) {
            Err(e) => Err(e),
            Ok(out) => Ok(Done { store, out }),
        },
        SysOp::History(n, e, l, o) => history(store, n, e, *l, *o, now),
        SysOp::Explain(p) => match explain(&store.rels, p, customs) {
            Err(e) => Err(e),
            Ok(out) => {
                Ok(Done { store, out })
            }
        },
        _ => if ro {
            Err(err(ErrKind::ReadOnly))
        } else {
            match op {
                SysOp::SetAccess(a, ns) => match set_levels(ns, *a, store) {
                    Err(e) => Err(e),
                    Ok(s) => {
                        Ok(Done { store: s, out: ok_source() })
                    }
                },
                SysOp::IndexCreate(n, x, cs) => index_create(store, n, x, cs),
                SysOp::IndexDrop(n, x) => index_drop(store, n, x),
                SysOp::SetTriggers(n, ts) => set_triggers(store, n, ts),
                SysOp::Remove(ns) => match remove_all(ns, store) {
                    Err(e) => Err(e),
                    Ok(s) => {
                        Ok(Done { store: s, out: ok_source() })
                    }
                },
                SysOp::HistoryGc(n, e) => gc(store, n, e, now, ro),
                SysOp::Evict(n, e, plain) => evict(store, n, e, *plain, now, ro),
                SysOp::Repair(n) => repair(store, n, ro),
                SysOp::SearchCreate(n, x, k, opts) => search_create(store, n, x, *k, opts),
                SysOp::SearchDrop(n, x, k) => search_drop(store, n, x, *k),
                _ => Err(err(ErrKind::ReadOnly)),
            }
        },
    }
}

} // verus!
