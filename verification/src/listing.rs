//! Lists of relations, columns and indices.
use vstd::prelude::*;

use crate::content::{
    columns_of_content, content_columns, content_from, find_content, find_holder, full_name,
    holder_from, name_of_index,
};
use crate::error::{DbError, ErrKind, Fault, err_on, fault_on, outcome};
use crate::list::{Dup, List};
use crate::scan::{
    Source, SourceV, all_places, all_places_from, columns_of_index, find_index, find_owner,
    index_columns, index_from, owner_from,
};
use crate::schema::{Column, ColumnV, kind};
use crate::store::{
    Access, Lookup, Relation, RelationV, columns, columns_of, find_rel, names, names_of, rel_place,
};
use crate::sysop::cols3;
use crate::table::Rows;
use crate::text::{show_type, type_text};
use crate::value::{DataValue, Tuple, Value, list_value};

verus! {

/// A level of access as text.
pub open spec fn access_text(a: Access) -> Seq<char> {
    match a {
        Access::Hidden => "hidden"@,
        Access::ReadOnly => "read_only"@,
        Access::Protected => "protected"@,
        Access::Normal => "normal"@,
    }
}

fn show_access(a: Access) -> (r: String)
    ensures
        r@ == access_text(a),
{
    match a {
        Access::Hidden => "hidden".to_owned(),
        Access::ReadOnly => "read_only".to_owned(),
        Access::Protected => "protected".to_owned(),
        Access::Normal => "normal".to_owned(),
    }
}

/// How a relation or index is listed: its name, how many columns it has, and
/// its level of access.
pub open spec fn listed(name: Seq<char>, arity: int, how: Seq<char>) -> Seq<Value> {
    seq![Value::Str(name), Value::Int(arity as i64), Value::Str(how)]
}

fn list_entry(name: &String, arity: usize, how: String) -> (r: Tuple)
    ensures
        r@ == listed(name@, arity as int, how@),
{
    let mut r: Tuple = List::new();
    r.push(DataValue::Str(name.clone()));
    r.push(DataValue::Int(arity as i64));
    r.push(DataValue::Str(how));
    assert(r@ =~= listed(name@, arity as int, how@));
    r
}

/// The entries of the indices of a relation, from place `i` on.
pub open spec fn index_entries(rel: RelationV, i: int, acc: Seq<Seq<Value>>) -> Seq<Seq<Value>>
    decreases rel.indices.len() - i,
{
    if i < 0 || i >= rel.indices.len() {
        acc
    } else {
        index_entries(
            rel,
            i + 1,
            acc.push(
                listed(
                    rel.indices[i].name,
                    index_columns(rel, rel.indices[i]).len() as int,
                    "index"@,
                ),
            ),
        )
    }
}

/// The entries of the relations from place `i` on.
pub open spec fn rel_entries(rels: Seq<RelationV>, i: int, acc: Seq<Seq<Value>>) -> Seq<Seq<Value>>
    decreases rels.len() - i,
{
    if i < 0 || i >= rels.len() {
        acc
    } else {
        rel_entries(
            rels,
            i + 1,
            index_entries(
                rels[i],
                0,
                acc.push(
                    listed(
                        rels[i].name,
                        columns_of(rels[i]).len() as int,
                        access_text(rels[i].access),
                    ),
                ),
            ),
        )
    }
}

pub fn list_relations(rels: &List<Relation>) -> (r: Rows)
    ensures
        r@ == rel_entries(rels@, 0, Seq::empty()),
{
    let mut acc: Rows = List::new();
    let mut i: usize = 0;
    while i < rels.len()
        invariant
            i <= rels@.len(),
            rel_entries(rels@, 0, Seq::empty()) == rel_entries(rels@, i as int, acc@),
        decreases rels@.len() - i,
    {
        let rel = rels.get(i);
        acc.push(list_entry(&rel.name, columns(rel).len(), show_access(rel.access)));
        let ghost first = acc@;
        let mut j: usize = 0;
        while j < rel.indices.len()
            invariant
                j <= rel@.indices.len(),
                index_entries(rel@, 0, first) == index_entries(rel@, j as int, acc@),
            decreases rel@.indices.len() - j,
        {
            let ix = rel.indices.get(j);
            acc.push(list_entry(&ix.name, columns_of_index(rel, ix).len(), "index".to_owned()));
            j = j + 1;
        }
        i = i + 1;
    }
    acc
}

/// A kind of index by content as text.
pub open spec fn lookup_text(k: Lookup) -> Seq<char> {
    match k {
        Lookup::Words => "fts"@,
        Lookup::Vectors => "hnsw"@,
        Lookup::Similar => "lsh"@,
    }
}

fn show_lookup(k: Lookup) -> (r: String)
    ensures
        r@ == lookup_text(k),
{
    match k {
        Lookup::Words => "fts".to_owned(),
        Lookup::Vectors => "hnsw".to_owned(),
        Lookup::Similar => "lsh".to_owned(),
    }
}

/// How an index of a relation is listed: its name, its kind, and the columns
/// that it looks into.
pub open spec fn index_entry(name: Seq<char>, kind: Seq<char>, cols: Seq<Seq<char>>) -> Seq<Value> {
    seq![
        Value::Str(name),
        Value::Str(kind),
        Value::List(Seq::new(cols.len(), |i: int| Value::Str(cols[i]))),
    ]
}

fn entry_of_index(name: &String, kind: String, cols: &List<String>) -> (r: Tuple)
    ensures
        r@ == index_entry(name@, kind@, cols@),
{
    let ghost all = Seq::new(cols@.len(), |i: int| Value::Str(cols@[i]));
    let mut l: Tuple = List::new();
    let mut i: usize = 0;
    while i < cols.len()
        invariant
            i <= cols@.len(),
            all == Seq::new(cols@.len(), |i: int| Value::Str(cols@[i])),
            l@ =~= all.take(i as int),
        decreases cols@.len() - i,
    {
        l.push(DataValue::Str(cols.get(i).clone()));
        i = i + 1;
    }
    assert(all.take(i as int) =~= all);
    let mut r: Tuple = List::new();
    r.push(DataValue::Str(name.clone()));
    r.push(DataValue::Str(kind));
    r.push(list_value(l));
    assert(r@ =~= index_entry(name@, kind@, cols@));
    r
}

/// The names at places, from place `i` on.
pub open spec fn names_at(all: Seq<Seq<char>>, ps: Seq<usize>, i: int, acc: Seq<Seq<char>>) -> Seq<
    Seq<char>,
>
    decreases ps.len() - i,
{
    if i < 0 || i >= ps.len() {
        acc
    } else if ps[i] < all.len() {
        names_at(all, ps, i + 1, acc.push(all[ps[i] as int]))
    } else {
        names_at(all, ps, i + 1, acc)
    }
}

fn pick_names(all: &List<String>, ps: &List<usize>) -> (r: List<String>)
    ensures
        r@ == names_at(all@, ps@, 0, Seq::empty()),
{
    let mut acc: List<String> = List::new();
    let mut i: usize = 0;
    while i < ps.len()
        invariant
            i <= ps@.len(),
            names_at(all@, ps@, 0, Seq::empty()) == names_at(all@, ps@, i as int, acc@),
        decreases ps@.len() - i,
    {
        if *ps.get(i) < all.len() {
            acc.push(all.get(*ps.get(i)).clone());
        }
        i = i + 1;
    }
    acc
}

/// The entries of the indices of a relation by columns, from place `i` on.
pub open spec fn plain_indices(rel: RelationV, i: int, acc: Seq<Seq<Value>>) -> Seq<Seq<Value>>
    decreases rel.indices.len() - i,
{
    if i < 0 || i >= rel.indices.len() {
        acc
    } else {
        plain_indices(
            rel,
            i + 1,
            acc.push(
                index_entry(
                    rel.indices[i].name,
                    "normal"@,
                    names_at(
                        names_of(columns_of(rel)),
                        rel.indices[i].places,
                        0,
                        Seq::empty(),
                    ),
                ),
            ),
        )
    }
}

/// The entries of the indices of a relation by content, from place `i` on.
pub open spec fn content_indices(rel: RelationV, i: int, acc: Seq<Seq<Value>>) -> Seq<Seq<Value>>
    decreases rel.searches.len() - i,
{
    if i < 0 || i >= rel.searches.len() {
        acc
    } else {
        content_indices(
            rel,
            i + 1,
            acc.push(
                index_entry(
                    full_name(rel.name, rel.searches[i].name),
                    lookup_text(rel.searches[i].kind),
                    names_at(
                        names_of(columns_of(rel)),
                        rel.searches[i].fields,
                        0,
                        Seq::empty(),
                    ),
                ),
            ),
        )
    }
}

/// How the indices of a relation are listed.
pub open spec fn indices_listed(rels: Seq<RelationV>, name: Seq<char>) -> Result<SourceV, Fault> {
    let p = rel_place(rels, name);
    if p < rels.len() {
        Ok(
            SourceV {
                cols: seq!["name"@, "type"@, "columns"@],
                rows: content_indices(rels[p], 0, plain_indices(rels[p], 0, Seq::empty())),
            },
        )
    } else {
        Err(fault_on(ErrKind::RelationNotFound, name))
    }
}

pub fn list_indices(rels: &List<Relation>, name: &String) -> (r: Result<Source, DbError>)
    ensures
        outcome(r) == indices_listed(rels@, name@),
{
    let p = find_rel(rels, name);
    if p >= rels.len() {
        return Err(err_on(ErrKind::RelationNotFound, name.as_str()));
    }
    let rel = rels.get(p);
    let all = names(&columns(rel));
    let mut acc: Rows = List::new();
    let mut i: usize = 0;
    while i < rel.indices.len()
        invariant
            i <= rel@.indices.len(),
            all@ == names_of(columns_of(rel@)),
            plain_indices(rel@, 0, Seq::empty()) == plain_indices(rel@, i as int, acc@),
        decreases rel@.indices.len() - i,
    {
        let ix = rel.indices.get(i);
        acc.push(entry_of_index(&ix.name, "normal".to_owned(), &pick_names(&all, &ix.places)));
        i = i + 1;
    }
    let ghost first = acc@;
    let mut j: usize = 0;
    while j < rel.searches.len()
        invariant
            j <= rel@.searches.len(),
            all@ == names_of(columns_of(rel@)),
            content_indices(rel@, 0, first) == content_indices(rel@, j as int, acc@),
        decreases rel@.searches.len() - j,
    {
        let s = rel.searches.get(j);
        acc.push(
            entry_of_index(
                &name_of_index(&rel.name, &s.name),
                show_lookup(s.kind),
                &pick_names(&all, &s.fields),
            ),
        );
        j = j + 1;
    }
    Ok(Source { cols: cols3("name", "type", "columns"), rows: acc })
}

/// How a column is listed: its name, whether it is a key, and its type.
pub open spec fn column_entry(c: ColumnV, key: bool) -> Seq<Value> {
    seq![Value::Str(c.name), Value::Bool(key), Value::Str(type_text(c.typ))]
}

fn entry_of_column(c: &Column, key: bool) -> (r: Tuple)
    ensures
        r@ == column_entry(c@, key),
{
    let mut r: Tuple = List::new();
    r.push(DataValue::Str(c.name.clone()));
    r.push(DataValue::Bool(key));
    r.push(DataValue::Str(show_type(&c.typ)));
    assert(r@ =~= column_entry(c@, key));
    r
}

/// The entries of columns from place `i` on.
pub open spec fn column_entries(
    cols: Seq<ColumnV>,
    key: bool,
    i: int,
    acc: Seq<Seq<Value>>,
) -> Seq<Seq<Value>>
    decreases cols.len() - i,
{
    if i < 0 || i >= cols.len() {
        acc
    } else {
        column_entries(cols, key, i + 1, acc.push(column_entry(cols[i], key)))
    }
}

fn list_columns(cols: &List<Column>, key: bool, acc: Rows) -> (r: Rows)
    ensures
        r@ == column_entries(cols@, key, 0, acc@),
{
    let ghost goal = column_entries(cols@, key, 0, acc@);
    let mut out = acc;
    let mut i: usize = 0;
    while i < cols.len()
        invariant
            i <= cols@.len(),
            goal == column_entries(cols@, key, i as int, out@),
        decreases cols@.len() - i,
    {
        out.push(entry_of_column(cols.get(i), key));
        i = i + 1;
    }
    out
}

/// The columns at places, from place `i` on.
pub open spec fn cols_at(
    cols: Seq<ColumnV>,
    ps: Seq<usize>,
    i: int,
    acc: Seq<ColumnV>,
) -> Seq<ColumnV>
    decreases ps.len() - i,
{
    if i < 0 || i >= ps.len() {
        acc
    } else if ps[i] < cols.len() {
        cols_at(cols, ps, i + 1, acc.push(cols[ps[i] as int]))
    } else {
        cols_at(cols, ps, i + 1, acc)
    }
}

fn columns_at(cols: &List<Column>, ps: &List<usize>) -> (r: List<Column>)
    ensures
        r@ == cols_at(cols@, ps@, 0, Seq::empty()),
{
    let mut acc: List<Column> = List::new();
    let mut i: usize = 0;
    while i < ps.len()
        invariant
            i <= ps@.len(),
            cols_at(cols@, ps@, 0, Seq::empty()) == cols_at(cols@, ps@, i as int, acc@),
        decreases ps@.len() - i,
    {
        if *ps.get(i) < cols.len() {
            acc.push(cols.get(*ps.get(i)).dup());
        }
        i = i + 1;
    }
    acc
}

/// How columns of any type are listed.
pub open spec fn any_columns(ns: Seq<Seq<char>>) -> Seq<Seq<Value>> {
    Seq::new(
        ns.len(),
        |i: int| seq![Value::Str(ns[i]), Value::Bool(true), Value::Str("Any?"@)],
    )
}

fn list_any(ns: &List<String>) -> (r: Rows)
    ensures
        r@ == any_columns(ns@),
{
    let mut acc: Rows = List::new();
    let mut i: usize = 0;
    while i < ns.len()
        invariant
            i <= ns@.len(),
            acc@ =~= any_columns(ns@).take(i as int),
        decreases ns@.len() - i,
    {
        let mut row: Tuple = List::new();
        row.push(DataValue::Str(ns.get(i).clone()));
        row.push(DataValue::Bool(true));
        row.push(DataValue::Str("Any?".to_owned()));
        assert(row@ =~= any_columns(ns@)[i as int]);
        acc.push(row);
        i = i + 1;
    }
    assert(any_columns(ns@).take(i as int) =~= any_columns(ns@));
    acc
}

/// How the columns of a relation or index are listed.
pub open spec fn column_rows_of(
    rels: Seq<RelationV>,
    name: Seq<char>,
) -> Result<Seq<Seq<Value>>, Fault> {
    let p = rel_place(rels, name);
    if p < rels.len() {
        Ok(
            column_entries(
                rels[p].vals,
                false,
                0,
                column_entries(rels[p].keys, true, 0, Seq::empty()),
            ),
        )
    } else {
        let q = owner_from(rels, name, 0);
        if q < rels.len() {
            let rel = rels[q];
            let k = index_from(rel.indices, name, 0);
            if k >= rel.indices.len() {
                Err(fault_on(ErrKind::RelationNotFound, name))
            } else {
                let ps = all_places_from(
                    rel.indices[k].places,
                    rel.keys.len() as int,
                    0,
                    rel.indices[k].places,
                );
                Ok(
                    column_entries(
                        cols_at(columns_of(rel), ps, 0, Seq::empty()),
                        true,
                        0,
                        Seq::empty(),
                    ),
                )
            }
        } else {
            let h = holder_from(rels, name, 0);
            if h < rels.len() {
                let (k, inv) = content_from(rels[h], name, 0)->0;
                Ok(any_columns(content_columns(rels[h], rels[h].searches[k as int].kind, inv)))
            } else {
                Err(fault_on(ErrKind::RelationNotFound, name))
            }
        }
    }
}

pub fn column_rows(rels: &List<Relation>, name: &String) -> (r: Result<List<Tuple>, DbError>)
    ensures
        outcome(r) == column_rows_of(rels@, name@),
{
    let p = find_rel(rels, name);
    if p < rels.len() {
        Ok(
            list_columns(
                &rels.get(p).vals,
                false,
                list_columns(&rels.get(p).keys, true, List::new()),
            ),
        )
    } else {
        let q = find_owner(rels, name);
        if q < rels.len() {
            let rel = rels.get(q);
            let k = find_index(&rel.indices, name);
            if k >= rel.indices.len() {
                Err(err_on(ErrKind::RelationNotFound, name.as_str()))
            } else {
                let ps = all_places(&rel.indices.get(k).places, rel.keys.len());
                Ok(list_columns(&columns_at(&columns(rel), &ps), true, List::new()))
            }
        } else {
            let h = find_holder(rels, name);
            if h >= rels.len() {
                return Err(err_on(ErrKind::RelationNotFound, name.as_str()));
            }
            let rel = rels.get(h);
            match find_content(rel, name) {
                Some((k, inv)) => Ok(
                    list_any(&columns_of_content(rel, rel.searches.get(k).kind, inv)),
                ),
                None => Err(err_on(ErrKind::RelationNotFound, name.as_str())),
            }
        }
    }
}

} // verus!
