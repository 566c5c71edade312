//! Indices by content, read as relations.
use vstd::prelude::*;

use crate::error::{DbError, ErrKind, Fault, err, fault, outcome};
use crate::list::{Dup, List};
use crate::parse::pushed;
use crate::parse_query::join_names;
use crate::scan::{Source, SourceV};
use crate::store::{
    Lookup, Relation, RelationV, Search, SearchV, decode_all, decoded_from, names, names_of,
};
use crate::table::{Rows, joined, prefix, sorted, sorted_of};
use crate::value::{DataValue, Tuple, Value, values_of};
use crate::vector::{Metric, distance, distance_of};

verus! {

/// The full name of an index.
pub open spec fn full_name(rel: Seq<char>, ix: Seq<char>) -> Seq<char> {
    rel + ":"@ + ix
}

/// The full name of an index.
pub fn name_of_index(rel: &String, ix: &String) -> (r: String)
    ensures
        r@ == full_name(rel@, ix@),
{
    join_names(rel.clone(), ":", ix)
}

/// Names behind a prefix.
pub open spec fn prefixed(p: Seq<char>, ns: Seq<Seq<char>>) -> Seq<Seq<char>> {
    Seq::new(ns.len(), |i: int| p + ns[i])
}

fn put_prefixed(acc: List<String>, p: &str, ns: &List<String>) -> (r: List<String>)
    ensures
        r@ == acc@ + prefixed(p@, ns@),
{
    let ghost first = acc@;
    let mut out = acc;
    let mut i: usize = 0;
    while i < ns.len()
        invariant
            i <= ns@.len(),
            out@ =~= first + prefixed(p@, ns@).take(i as int),
        decreases ns@.len() - i,
    {
        out.push(p.to_owned().concat(ns.get(i).as_str()));
        i = i + 1;
    }
    assert(prefixed(p@, ns@).take(i as int) =~= prefixed(p@, ns@));
    out
}

/// The columns of an index by content; of one of similar texts, also those of
/// its inverse.
pub open spec fn content_columns(rel: RelationV, kind: Lookup, inv: bool) -> Seq<Seq<char>> {
    let ks = names_of(rel.keys);
    match kind {
        Lookup::Words => seq!["word"@] + prefixed("src_"@, ks) + seq![
            "offset_from"@,
            "offset_to"@,
            "position"@,
            "total_length"@,
        ],
        Lookup::Vectors => seq!["layer"@] + prefixed("fr_"@, ks) + seq!["fr__field"@, "fr__sub_idx"@]
            + prefixed("to_"@, ks) + seq![
            "to__field"@,
            "to__sub_idx"@,
            "dist"@,
            "hash"@,
            "ignore_link"@,
        ],
        Lookup::Similar => if inv {
            ks.push("minhash"@)
        } else {
            seq!["hash"@] + prefixed("src_"@, ks)
        },
    }
}

/// The columns of an index by content.
pub fn columns_of_content(rel: &Relation, kind: Lookup, inv: bool) -> (r: List<String>)
    ensures
        r@ == content_columns(rel@, kind, inv),
{
    let ks = names(&rel.keys);
    let mut r: List<String> = List::new();
    match kind {
        Lookup::Words => {
            r.push("word".to_owned());
            r = put_prefixed(r, "src_", &ks);
            r.push("offset_from".to_owned());
            r.push("offset_to".to_owned());
            r.push("position".to_owned());
            r.push("total_length".to_owned());
        },
        Lookup::Vectors => {
            r.push("layer".to_owned());
            r = put_prefixed(r, "fr_", &ks);
            r.push("fr__field".to_owned());
            r.push("fr__sub_idx".to_owned());
            r = put_prefixed(r, "to_", &ks);
            r.push("to__field".to_owned());
            r.push("to__sub_idx".to_owned());
            r.push("dist".to_owned());
            r.push("hash".to_owned());
            r.push("ignore_link".to_owned());
        },
        Lookup::Similar => {
            if inv {
                r = ks;
                r.push("minhash".to_owned());
            } else {
                r.push("hash".to_owned());
                r = put_prefixed(r, "src_", &ks);
            }
        },
    }
    assert(r@ =~= content_columns(rel@, kind, inv));
    r
}

/// The last value of a row of a certain width, where it is a list.
pub open spec fn list_at_end(row: Seq<Value>, width: int) -> Option<Seq<Value>> {
    if width > 0 && row.len() == width {
        match row[width - 1] {
            Value::List(l) => Some(l),
            _ => None,
        }
    } else {
        None
    }
}

/// One row for each value of a list from place `j` on: the value and a key.
pub open spec fn hashes_from(l: Seq<Value>, key: Seq<Value>, j: int, acc: Seq<Seq<Value>>) -> Seq<
    Seq<Value>,
>
    decreases l.len() - j,
{
    if j < 0 || j >= l.len() {
        acc
    } else {
        hashes_from(l, key, j + 1, acc.push(seq![l[j]] + key))
    }
}

/// The rows of an index of similar texts, of what it keeps from place `i` on.
pub open spec fn hash_rows(d: Seq<Seq<Value>>, nk: int, i: int, acc: Seq<Seq<Value>>) -> Result<
    Seq<Seq<Value>>,
    Fault,
>
    decreases d.len() - i,
{
    if i < 0 || i >= d.len() {
        Ok(sorted_of(acc))
    } else {
        match list_at_end(d[i], nk + 1) {
            None => Err(fault(ErrKind::CorruptBlob)),
            Some(l) => hash_rows(d, nk, i + 1, hashes_from(l, d[i].take(nk), 0, acc)),
        }
    }
}

fn make_hash_rows(d: &Rows, nk: usize) -> (r: Result<Rows, DbError>)
    ensures
        outcome(r) == hash_rows(d@, nk as int, 0, Seq::empty()),
{
    let mut acc: Rows = List::new();
    let mut i: usize = 0;
    while i < d.len()
        invariant
            i <= d@.len(),
            hash_rows(d@, nk as int, 0, Seq::empty()) == hash_rows(d@, nk as int, i as int, acc@),
        decreases d@.len() - i,
    {
        let row = d.get(i);
        if row.len() == 0 || row.len() - 1 != nk {
            return Err(err(ErrKind::CorruptBlob));
        }
        match row.get(nk) {
            DataValue::List(l) => {
                let key = prefix(row, nk);
                let ghost all = values_of(l@);
                let ghost first = acc@;
                let mut j: usize = 0;
                while j < l.len()
                    invariant
                        j <= l@.len(),
                        all == values_of(l@),
                        hashes_from(all, key@, 0, first) == hashes_from(all, key@, j as int, acc@),
                    decreases l@.len() - j,
                {
                    let mut head: Tuple = List::new();
                    head.push(l[j].dup());
                    assert(head@ =~= seq![all[j as int]]);
                    acc.push(joined(&head, &key));
                    j = j + 1;
                }
            },
            _ => {
                return Err(err(ErrKind::CorruptBlob));
            },
        }
        i = i + 1;
    }
    Ok(sorted(&acc))
}

/// The vectors from place `j` on, but for that at `a`, each behind its distance
/// from that one.
pub open spec fn others_from(
    m: Metric,
    d: Seq<Seq<Value>>,
    nk: int,
    from: Seq<Value>,
    a: int,
    j: int,
    acc: Seq<Seq<Value>>,
) -> Result<Seq<Seq<Value>>, Fault>
    decreases d.len() - j,
{
    if j < 0 || j >= d.len() {
        Ok(acc)
    } else if j == a {
        others_from(m, d, nk, from, a, j + 1, acc)
    } else {
        match list_at_end(d[j], nk + 2) {
            None => Err(fault(ErrKind::CorruptBlob)),
            Some(l) => match distance_of(m, from, l) {
                Err(f) => Err(f),
                Ok(x) => others_from(
                    m,
                    d,
                    nk,
                    from,
                    a,
                    j + 1,
                    acc.push(seq![x] + d[j].take(nk + 1)),
                ),
            },
        }
    }
}

/// The link from a vector to another, or to itself, at a distance.
pub open spec fn link_row(from: Seq<Value>, to: Seq<Value>, x: Value) -> Seq<Value> {
    seq![Value::Int(0)] + from + seq![Value::Int((-1) as i64)] + to + seq![
        Value::Int((-1) as i64),
        x,
        Value::Null,
        Value::Bool(false),
    ]
}

fn make_link(from: &Tuple, to: &Tuple, x: DataValue) -> (r: Tuple)
    ensures
        r@ == link_row(from@, to@, x@),
{
    let ghost goal = link_row(from@, to@, x@);
    let mut head: Tuple = List::new();
    head.push(DataValue::Int(0));
    assert(head@ =~= seq![Value::Int(0)]);
    let first = pushed(joined(&head, from), DataValue::Int(-1));
    let mut r = joined(&first, to);
    r.push(DataValue::Int(-1));
    r.push(x);
    r.push(DataValue::Null);
    r.push(DataValue::Bool(false));
    assert(r@ =~= goal);
    r
}

/// The links to the first `most` of other vectors, from place `j` on.
pub open spec fn nearest_from(
    from: Seq<Value>,
    others: Seq<Seq<Value>>,
    most: int,
    j: int,
    acc: Seq<Seq<Value>>,
) -> Seq<Seq<Value>>
    decreases others.len() - j,
{
    if j < 0 || j >= others.len() || j >= most {
        acc
    } else if others[j].len() == 0 {
        nearest_from(from, others, most, j + 1, acc)
    } else {
        nearest_from(
            from,
            others,
            most,
            j + 1,
            acc.push(link_row(from, others[j].remove(0), others[j][0])),
        )
    }
}

/// The links of the vectors from place `a` on: each to itself and to the ones
/// nearest to it.
pub open spec fn links_from(
    m: Metric,
    most: int,
    d: Seq<Seq<Value>>,
    nk: int,
    a: int,
    acc: Seq<Seq<Value>>,
) -> Result<Seq<Seq<Value>>, Fault>
    decreases d.len() - a,
{
    if a < 0 || a >= d.len() {
        Ok(sorted_of(acc))
    } else {
        match list_at_end(d[a], nk + 2) {
            None => Err(fault(ErrKind::CorruptBlob)),
            Some(l) => match distance_of(m, l, l) {
                Err(f) => Err(f),
                Ok(x) => match others_from(m, d, nk, l, a, 0, Seq::empty()) {
                    Err(f) => Err(f),
                    Ok(others) => {
                        let me = d[a].take(nk + 1);
                        links_from(
                            m,
                            most,
                            d,
                            nk,
                            a + 1,
                            nearest_from(
                                me,
                                sorted_of(others),
                                most,
                                0,
                                acc.push(link_row(me, me, x)),
                            ),
                        )
                    },
                },
            },
        }
    }
}

fn others(m: Metric, d: &Rows, nk: usize, from: &Vec<DataValue>, a: usize) -> (r: Result<
    Rows,
    DbError,
>)
    ensures
        outcome(r) == others_from(m, d@, nk as int, values_of(from@), a as int, 0, Seq::empty()),
{
    let ghost x = values_of(from@);
    let ghost goal = others_from(m, d@, nk as int, x, a as int, 0, Seq::empty());
    let mut acc: Rows = List::new();
    let mut j: usize = 0;
    while j < d.len()
        invariant
            j <= d@.len(),
            x == values_of(from@),
            goal == others_from(m, d@, nk as int, x, a as int, 0, Seq::empty()),
            goal == others_from(m, d@, nk as int, x, a as int, j as int, acc@),
        decreases d@.len() - j,
    {
        if j != a {
            let row = d.get(j);
            if row.len() < 2 || row.len() - 2 != nk {
                return Err(err(ErrKind::CorruptBlob));
            }
            match row.get(row.len() - 1) {
                DataValue::List(l) => match distance(m, from, l) {
                    Err(e) => {
                        return Err(e);
                    },
                    Ok(far) => {
                        let ghost w = far@;
                        let mut head: Tuple = List::new();
                        head.push(far);
                        assert(head@ =~= seq![w]);
                        acc.push(joined(&head, &prefix(row, nk + 1)));
                    },
                },
                _ => {
                    return Err(err(ErrKind::CorruptBlob));
                },
            }
        }
        j = j + 1;
    }
    Ok(acc)
}

fn nearest(from: &Tuple, others: &Rows, most: u64, acc: Rows) -> (r: Rows)
    ensures
        r@ == nearest_from(from@, others@, most as int, 0, acc@),
{
    let ghost goal = nearest_from(from@, others@, most as int, 0, acc@);
    let mut out = acc;
    let mut j: usize = 0;
    while j < others.len() && (j as u64) < most
        invariant
            j <= others@.len(),
            goal == nearest_from(from@, others@, most as int, j as int, out@),
        decreases others@.len() - j,
    {
        let mut to = others.get(j).dup();
        if to.len() > 0 {
            let far = to.remove(0);
            out.push(make_link(from, &to, far));
        }
        j = j + 1;
    }
    out
}

fn links(m: Metric, most: u64, d: &Rows, nk: usize) -> (r: Result<Rows, DbError>)
    ensures
        outcome(r) == links_from(m, most as int, d@, nk as int, 0, Seq::empty()),
{
    let ghost goal = links_from(m, most as int, d@, nk as int, 0, Seq::empty());
    let mut acc: Rows = List::new();
    let mut a: usize = 0;
    while a < d.len()
        invariant
            a <= d@.len(),
            goal == links_from(m, most as int, d@, nk as int, 0, Seq::empty()),
            goal == links_from(m, most as int, d@, nk as int, a as int, acc@),
        decreases d@.len() - a,
    {
        let row = d.get(a);
        if row.len() < 2 || row.len() - 2 != nk {
            return Err(err(ErrKind::CorruptBlob));
        }
        match row.get(row.len() - 1) {
            DataValue::List(l) => match distance(m, l, l) {
                Err(e) => {
                    return Err(e);
                },
                Ok(far) => match others(m, d, nk, l, a) {
                    Err(e) => {
                        return Err(e);
                    },
                    Ok(rest) => {
                        let me = prefix(row, nk + 1);
                        acc.push(make_link(&me, &me, far));
                        acc = nearest(&me, &sorted(&rest), most, acc);
                    },
                },
            },
            _ => {
                return Err(err(ErrKind::CorruptBlob));
            },
        }
        a = a + 1;
    }
    Ok(sorted(&acc))
}

/// What reading an index by content gives.
pub open spec fn contents(rel: RelationV, s: SearchV, inv: bool) -> Result<SourceV, Fault> {
    let nk = rel.keys.len() as int;
    match decoded_from(s.recs, 0, Seq::empty()) {
        Err(f) => Err(f),
        Ok(d) => {
            let rows = match s.kind {
                Lookup::Words => Ok(d),
                Lookup::Vectors => links_from(s.metric, s.most as int, d, nk, 0, Seq::empty()),
                Lookup::Similar => if inv {
                    Ok(d)
                } else {
                    hash_rows(d, nk, 0, Seq::empty())
                },
            };
            match rows {
                Err(f) => Err(f),
                Ok(r) => Ok(SourceV { cols: content_columns(rel, s.kind, inv), rows: r }),
            }
        },
    }
}

/// What reading an index by content gives.
pub fn read_contents(rel: &Relation, s: &Search, inv: bool) -> (r: Result<Source, DbError>)
    ensures
        outcome(r) == contents(rel@, s@, inv),
{
    match decode_all(&s.recs) {
        Err(e) => Err(e),
        Ok(d) => {
            let rows = match s.kind {
                Lookup::Words => Ok(d),
                Lookup::Vectors => links(s.metric, s.most, &d, rel.keys.len()),
                Lookup::Similar => if inv {
                    Ok(d)
                } else {
                    make_hash_rows(&d, rel.keys.len())
                },
            };
            match rows {
                Err(e) => Err(e),
                Ok(r) => Ok(Source { cols: columns_of_content(rel, s.kind, inv), rows: r }),
            }
        },
    }
}

/// Which index by content of a relation has a name, from place `k` on, and
/// whether it is its inverse that has it.
pub open spec fn content_from(rel: RelationV, name: Seq<char>, k: int) -> Option<(usize, bool)>
    decreases rel.searches.len() - k,
{
    if k < 0 || k >= rel.searches.len() {
        None
    } else {
        let full = full_name(rel.name, rel.searches[k].name);
        if full == name {
            Some((k as usize, false))
        } else if rel.searches[k].kind == Lookup::Similar && full_name(full, "inv"@) == name {
            Some((k as usize, true))
        } else {
            content_from(rel, name, k + 1)
        }
    }
}

/// Which index by content of a relation has a name.
pub fn find_content(rel: &Relation, name: &String) -> (r: Option<(usize, bool)>)
    ensures
        r == content_from(rel@, name@, 0),
        r matches Some(c) ==> c.0 < rel@.searches.len(),
{
    let mut k: usize = 0;
    while k < rel.searches.len()
        invariant
            k <= rel@.searches.len(),
            content_from(rel@, name@, 0) == content_from(rel@, name@, k as int),
        decreases rel@.searches.len() - k,
    {
        let s = rel.searches.get(k);
        let full = name_of_index(&rel.name, &s.name);
        if full == *name {
            return Some((k, false));
        }
        if s.kind == Lookup::Similar && name_of_index(&full, &"inv".to_owned()) == *name {
            return Some((k, true));
        }
        k = k + 1;
    }
    None
}

/// The relation from place `i` on with an index by content of a name, and the
/// length where there is none.
pub open spec fn holder_from(rels: Seq<RelationV>, name: Seq<char>, i: int) -> int
    decreases rels.len() - i,
{
    if i < 0 || i >= rels.len() {
        rels.len() as int
    } else if content_from(rels[i], name, 0) is Some {
        i
    } else {
        holder_from(rels, name, i + 1)
    }
}

/// The relation with an index by content of a name.
pub fn find_holder(rels: &List<Relation>, name: &String) -> (r: usize)
    ensures
        r == holder_from(rels@, name@, 0),
        r <= rels@.len(),
        r < rels@.len() ==> content_from(rels@[r as int], name@, 0) is Some,
{
    let mut i: usize = 0;
    while i < rels.len()
        invariant
            i <= rels@.len(),
            holder_from(rels@, name@, 0) == holder_from(rels@, name@, i as int),
        decreases rels@.len() - i,
    {
        if find_content(rels.get(i), name).is_some() {
            return i;
        }
        i = i + 1;
    }
    i
}

} // verus!
