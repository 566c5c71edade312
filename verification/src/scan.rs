//! Reading stored relations and their indices, in the present or the past.
use vstd::prelude::*;

use crate::content::{content_from, contents, find_content, find_holder, holder_from, read_contents};
use crate::error::{DbError, ErrKind, Fault, err_on, fault_on, outcome};
use crate::list::{Dup, List};
use crate::schema::{RelKind, kind, kind_of};
use crate::store::{
    Access, Index, IndexV, Relation, RelationV, columns, columns_of, decode_all, decoded_from,
    find_rel, names, names_of, permits, permitted, rel_place,
};
use crate::table::{Rows, sorted, sorted_of};
use crate::temporal::{LATEST, cell, visible, visible_from};
use crate::value::{DataValue, Tuple, Value, chars_of, code};

verus! {

/// Rows with the names of their columns.
pub struct Source {
    pub cols: List<String>,
    pub rows: List<Tuple>,
}

/// The mathematical counterpart of [`Source`].
#[verifier::ext_equal]
pub struct SourceV {
    pub cols: Seq<Seq<char>>,
    pub rows: Seq<Seq<Value>>,
}

impl View for Source {
    type V = SourceV;

    open spec fn view(&self) -> SourceV {
        SourceV {
            cols: self.cols@,
            rows: self.rows@,
        }
    }
}

impl Dup for Source {
    fn dup(&self) -> (r: Self) {
        Source {
            cols: self.cols.dup(),
            rows: self.rows.dup(),
        }
    }
}

/// The digit that a character is.
pub open spec fn digit_of(c: char) -> Option<int> {
    if '0' <= c && c <= '9' {
        Some(c as int - 48)
    } else {
        None
    }
}

/// The digit that a character is.
pub fn digit(c: char) -> (r: Option<u64>)
    ensures
        r is Some == digit_of(c) is Some,
        r is Some ==> r->0 == digit_of(c)->0 && r->0 <= 9,
{
    if '0' <= c && c <= '9' {
        Some((code(c) - 48) as u64)
    } else {
        None
    }
}

/// The number that the digits from place `i` up to `end` write, after `acc`.
pub open spec fn number_from(s: Seq<char>, i: int, end: int, acc: int) -> Option<int>
    decreases end - i,
{
    if i >= end || i < 0 {
        Some(acc)
    } else if i >= s.len() {
        None
    } else {
        match digit_of(s[i]) {
            Some(d) => number_from(s, i + 1, end, acc * 10 + d),
            None => None,
        }
    }
}

fn small_number(s: &Vec<char>, start: usize, end: usize) -> (r: Option<u64>)
    requires
        start <= end <= s@.len(),
        end - start <= 4,
    ensures
        r is Some == number_from(s@, start as int, end as int, 0) is Some,
        r is Some ==> r->0 == number_from(s@, start as int, end as int, 0)->0,
        r is Some ==> r->0 <= 9999,
{
    let mut acc: u64 = 0;
    let mut i: usize = start;
    while i < end
        invariant
            start <= i <= end <= s@.len(),
            end - start <= 4,
            i == start ==> acc < 1,
            i == start + 1 ==> acc < 10,
            i == start + 2 ==> acc < 100,
            i == start + 3 ==> acc < 1000,
            i == start + 4 ==> acc < 10000,
            number_from(s@, start as int, end as int, 0) == number_from(
                s@,
                i as int,
                end as int,
                acc as int,
            ),
        decreases end - i,
    {
        match digit(s[i]) {
            Some(d) => {
                acc = acc * 10 + d;
            },
            None => {
                return None;
            },
        }
        i = i + 1;
    }
    Some(acc)
}

pub open spec fn is_leap(y: int) -> bool {
    y % 4 == 0 && (y % 100 != 0 || y % 400 == 0)
}

/// The days of a year before a month.
pub open spec fn days_before(m: int, leap: bool) -> int {
    let extra = if leap { 1int } else { 0 };
    if m <= 1 {
        0
    } else if m == 2 {
        31
    } else if m == 3 {
        59 + extra
    } else if m == 4 {
        90 + extra
    } else if m == 5 {
        120 + extra
    } else if m == 6 {
        151 + extra
    } else if m == 7 {
        181 + extra
    } else if m == 8 {
        212 + extra
    } else if m == 9 {
        243 + extra
    } else if m == 10 {
        273 + extra
    } else if m == 11 {
        304 + extra
    } else if m == 12 {
        334 + extra
    } else {
        365 + extra
    }
}

/// Midnight of a day, in microseconds since the start of 1970.
pub open spec fn midnight(y: int, m: int, d: int) -> Option<i64> {
    let leap = is_leap(y);
    if y < 1 || m < 1 || m > 12 || d < 1 || d > days_before(m + 1, leap) - days_before(m, leap) {
        None
    } else {
        let p = y - 1;
        let days = 365 * p + p / 4 - p / 100 + p / 400 + days_before(m, leap) + d - 1 - 719162;
        Some((days * 86_400_000_000) as i64)
    }
}

fn month_start(m: u64, leap: bool) -> (r: i64)
    requires
        m <= 13,
    ensures
        r == days_before(m as int, leap),
        0 <= r <= 366,
{
    let extra: i64 = if leap {
        1
    } else {
        0
    };
    if m <= 1 {
        0
    } else if m == 2 {
        31
    } else if m == 3 {
        59 + extra
    } else if m == 4 {
        90 + extra
    } else if m == 5 {
        120 + extra
    } else if m == 6 {
        151 + extra
    } else if m == 7 {
        181 + extra
    } else if m == 8 {
        212 + extra
    } else if m == 9 {
        243 + extra
    } else if m == 10 {
        273 + extra
    } else if m == 11 {
        304 + extra
    } else if m == 12 {
        334 + extra
    } else {
        365 + extra
    }
}

fn day_start(y: u64, m: u64, d: u64) -> (r: Option<i64>)
    requires
        y <= 9999,
        d <= 9999,
    ensures
        r == midnight(y as int, m as int, d as int),
{
    let leap = y % 4 == 0 && (y % 100 != 0 || y % 400 == 0);
    if y < 1 || m < 1 || m > 12 || d < 1 {
        return None;
    }
    let start = month_start(m, leap);
    let next = month_start(m + 1, leap);
    if d as i64 > next - start {
        return None;
    }
    let p: u64 = y - 1;
    let days: i64 = (365 * p + p / 4) as i64 - (p / 100) as i64 + (p / 400) as i64 + start
        + d as i64 - 1 - 719162;
    Some(days * 86_400_000_000)
}

/// The instant that a date stands for.
pub open spec fn date_of(s: Seq<char>) -> Option<i64> {
    if s.len() != 10 || s[4] != '-' || s[7] != '-' {
        None
    } else {
        match (number_from(s, 0, 4, 0), number_from(s, 5, 7, 0), number_from(s, 8, 10, 0)) {
            (Some(y), Some(m), Some(d)) => midnight(y, m, d),
            _ => None,
        }
    }
}

fn date(s: &String) -> (r: Option<i64>)
    ensures
        r == date_of(s@),
{
    let c = chars_of(s.as_str());
    if c.len() != 10 || c[4] != '-' || c[7] != '-' {
        return None;
    }
    match (small_number(&c, 0, 4), small_number(&c, 5, 7), small_number(&c, 8, 10)) {
        (Some(y), Some(m), Some(d)) => day_start(y, m, d),
        _ => None,
    }
}

/// The point in time that a value stands for, on the axis of transactions
/// where `tt`.
pub open spec fn point_of(v: Value, now: i64, tt: bool) -> Option<i64> {
    match v {
        Value::Int(t) => Some(t),
        Value::Str(s) => if s == "NOW"@ {
            Some(
                if tt {
                    LATEST
                } else {
                    now
                },
            )
        } else if s == "END"@ {
            Some(LATEST)
        } else {
            date_of(s)
        },
        _ => None,
    }
}

/// The point in time that a value stands for.
pub fn point(v: &DataValue, now: i64, tt: bool) -> (r: Option<i64>)
    ensures
        r == point_of(v@, now, tt),
{
    match v {
        DataValue::Int(t) => Some(*t),
        DataValue::Str(s) => {
            if *s == "NOW".to_owned() {
                Some(
                    if tt {
                        LATEST
                    } else {
                        now
                    },
                )
            } else if *s == "END".to_owned() {
                Some(LATEST)
            } else {
                date(s)
            }
        },
        _ => None,
    }
}

/// The place of an index from place `i` on, and the length where there is none
/// of the name.
pub open spec fn index_from(indices: Seq<IndexV>, name: Seq<char>, i: int) -> int
    decreases indices.len() - i,
{
    if i < 0 || i >= indices.len() {
        indices.len() as int
    } else if indices[i].name == name {
        i
    } else {
        index_from(indices, name, i + 1)
    }
}

/// The place of an index.
pub fn find_index(indices: &List<Index>, name: &String) -> (r: usize)
    ensures
        r == index_from(indices@, name@, 0),
        r <= indices@.len(),
{
    let mut i: usize = 0;
    while i < indices.len()
        invariant
            i <= indices@.len(),
            index_from(indices@, name@, 0) == index_from(indices@, name@, i as int),
        decreases indices@.len() - i,
    {
        if indices.get(i).name == *name {
            return i;
        }
        i = i + 1;
    }
    i
}

/// The first relation from place `i` on with an index of the name, and the
/// length where there is none.
pub open spec fn owner_from(rels: Seq<RelationV>, name: Seq<char>, i: int) -> int
    decreases rels.len() - i,
{
    if i < 0 || i >= rels.len() {
        rels.len() as int
    } else if index_from(rels[i].indices, name, 0) < rels[i].indices.len() {
        i
    } else {
        owner_from(rels, name, i + 1)
    }
}

/// The relation with an index of the name.
pub fn find_owner(rels: &List<Relation>, name: &String) -> (r: usize)
    ensures
        r == owner_from(rels@, name@, 0),
        r <= rels@.len(),
{
    let mut i: usize = 0;
    while i < rels.len()
        invariant
            i <= rels@.len(),
            owner_from(rels@, name@, 0) == owner_from(rels@, name@, i as int),
        decreases rels@.len() - i,
    {
        let rel = rels.get(i);
        if find_index(&rel.indices, name) < rel.indices.len() {
            return i;
        }
        i = i + 1;
    }
    i
}

pub open spec fn has_place(places: Seq<usize>, k: int, i: int) -> bool
    decreases places.len() - i,
{
    if i < 0 || i >= places.len() {
        false
    } else {
        places[i] == k || has_place(places, k, i + 1)
    }
}

fn contains_place(places: &List<usize>, k: usize) -> (r: bool)
    ensures
        r == has_place(places@, k as int, 0),
{
    let mut i: usize = 0;
    while i < places.len()
        invariant
            i <= places@.len(),
            has_place(places@, k as int, 0) == has_place(places@, k as int, i as int),
        decreases places@.len() - i,
    {
        if *places.get(i) == k {
            return true;
        }
        i = i + 1;
    }
    false
}

/// The places of an index and then the key places from `k` on that it lacks.
pub open spec fn all_places_from(places: Seq<usize>, nk: int, k: int, acc: Seq<usize>) -> Seq<usize>
    decreases nk - k,
{
    if k < 0 || k >= nk {
        acc
    } else if has_place(places, k, 0) {
        all_places_from(places, nk, k + 1, acc)
    } else {
        all_places_from(places, nk, k + 1, acc.push(k as usize))
    }
}

/// The places of the columns that reading an index gives: its own, then the
/// other keys of the relation.
pub fn all_places(places: &List<usize>, nk: usize) -> (r: List<usize>)
    ensures
        r@ == all_places_from(places@, nk as int, 0, places@),
{
    let mut acc: List<usize> = places.dup();
    let mut k: usize = 0;
    while k < nk
        invariant
            k <= nk,
            all_places_from(places@, nk as int, 0, places@) == all_places_from(
                places@,
                nk as int,
                k as int,
                acc@,
            ),
        decreases nk - k,
    {
        if !contains_place(places, k) {
            acc.push(k);
        }
        k = k + 1;
    }
    acc
}

/// The values of a row at these places.
pub open spec fn picked(row: Seq<Value>, places: Seq<usize>) -> Seq<Value> {
    Seq::new(places.len(), |i: int| cell(row, places[i] as int))
}

/// The values of a row at these places.
pub fn pick(row: &Tuple, places: &List<usize>) -> (r: Tuple)
    ensures
        r@ == picked(row@, places@),
{
    let mut r: Tuple = List::new();
    let mut i: usize = 0;
    while i < places.len()
        invariant
            i <= places@.len(),
            r@ =~= picked(row@, places@).take(i as int),
        decreases places@.len() - i,
    {
        let k = *places.get(i);
        if k < row.len() {
            r.push(row.get(k).dup());
        } else {
            r.push(DataValue::Null);
        }
        i = i + 1;
    }
    assert(picked(row@, places@).take(i as int) =~= picked(row@, places@));
    r
}

/// Every row at these places.
pub open spec fn all_picked(rows: Seq<Seq<Value>>, places: Seq<usize>) -> Seq<Seq<Value>> {
    Seq::new(rows.len(), |i: int| picked(rows[i], places))
}

/// Every row at these places.
pub fn pick_all(rows: &Rows, places: &List<usize>) -> (r: Rows)
    ensures
        r@ == all_picked(rows@, places@),
{
    let mut r: Rows = List::new();
    let mut i: usize = 0;
    while i < rows.len()
        invariant
            i <= rows@.len(),
            r@ =~= all_picked(rows@, places@).take(i as int),
        decreases rows@.len() - i,
    {
        r.push(pick(rows.get(i), places));
        i = i + 1;
    }
    assert(all_picked(rows@, places@).take(i as int) =~= all_picked(rows@, places@));
    r
}

/// The names at these places.
pub open spec fn picked_names(names: Seq<Seq<char>>, places: Seq<usize>) -> Seq<Seq<char>> {
    Seq::new(
        places.len(),
        |i: int|
            if places[i] < names.len() {
                names[places[i] as int]
            } else {
                ""@
            },
    )
}

fn pick_names(names: &List<String>, places: &List<usize>) -> (r: List<String>)
    ensures
        r@ == picked_names(names@, places@),
{
    let mut r: List<String> = List::new();
    let mut i: usize = 0;
    while i < places.len()
        invariant
            i <= places@.len(),
            r@ =~= picked_names(names@, places@).take(i as int),
        decreases places@.len() - i,
    {
        let k = *places.get(i);
        if k < names.len() {
            r.push(names.get(k).clone());
        } else {
            r.push("".to_owned());
        }
        i = i + 1;
    }
    assert(picked_names(names@, places@).take(i as int) =~= picked_names(names@, places@));
    r
}

/// The names of the columns that reading an index gives.
pub open spec fn index_columns(rel: RelationV, ix: IndexV) -> Seq<Seq<char>> {
    picked_names(
        names_of(columns_of(rel)),
        all_places_from(ix.places, rel.keys.len() as int, 0, ix.places),
    )
}

/// The names of the columns that reading an index gives.
pub fn columns_of_index(rel: &Relation, ix: &Index) -> (r: List<String>)
    ensures
        r@ == index_columns(rel@, ix@),
{
    let places = all_places(&ix.places, rel.keys.len());
    pick_names(&names(&columns(rel)), &places)
}

/// The rows that an index shows of the rows of its relation.
pub open spec fn index_rows(rel: RelationV, ix: IndexV, rows: Seq<Seq<Value>>) -> Seq<Seq<Value>> {
    sorted_of(all_picked(rows, all_places_from(ix.places, rel.keys.len() as int, 0, ix.places)))
}

/// The transaction at which a relation is read.
pub open spec fn read_tt(tt: Option<i64>, as_of: Option<i64>) -> i64 {
    match tt {
        Some(t) => t,
        None => match as_of {
            Some(t) => t,
            None => LATEST,
        },
    }
}

/// What reading a relation gives: at the instant `vt` and the transaction `tt`
/// where they are given, else at the transaction `as_of`, else in the present.
pub open spec fn rel_rows(
    rel: RelationV,
    vt: Option<i64>,
    tt: Option<i64>,
    as_of: Option<i64>,
) -> Result<Seq<Seq<Value>>, Fault> {
    let k = kind_of(rel.keys);
    let at = read_tt(tt, as_of);
    if !permitted(rel, Access::ReadOnly) {
        Err(fault_on(ErrKind::AccessLevel, rel.name))
    } else if tt is Some && (k == RelKind::Plain || k == RelKind::Valid) {
        Err(fault_on(ErrKind::NoTtAxis, rel.name))
    } else if vt is Some && (k == RelKind::Plain || k == RelKind::Tx) {
        Err(fault_on(ErrKind::NoValidAxis, rel.name))
    } else if rel.floor is Some && at < rel.floor->0 && (k == RelKind::Tx || k == RelKind::Bi) {
        Err(fault_on(ErrKind::BelowFloor, rel.name))
    } else {
        match decoded_from(rel.recs, 0, Seq::empty()) {
            Ok(rows) => Ok(
                visible_from(
                    rows,
                    0,
                    k,
                    rel.keys.len() as int,
                    vt,
                    if k == RelKind::Valid {
                        LATEST
                    } else {
                        at
                    },
                    Seq::empty(),
                ),
            ),
            Err(f) => Err(f),
        }
    }
}

fn is_below(floor: Option<i64>, at: i64) -> (r: bool)
    ensures
        r == (floor is Some && at < floor->0),
{
    match floor {
        Some(f) => at < f,
        None => false,
    }
}

/// What reading a relation gives.
pub fn read_rel(rel: &Relation, vt: Option<i64>, tt: Option<i64>, as_of: Option<i64>) -> (r: Result<
    Rows,
    DbError,
>)
    ensures
        outcome(r) == rel_rows(rel@, vt, tt, as_of),
{
    let k = kind(&rel.keys);
    let at = match tt {
        Some(t) => t,
        None => match as_of {
            Some(t) => t,
            None => LATEST,
        },
    };
    if !permits(rel, Access::ReadOnly) {
        return Err(err_on(ErrKind::AccessLevel, rel.name.as_str()));
    }
    if tt.is_some() && (k == RelKind::Plain || k == RelKind::Valid) {
        return Err(err_on(ErrKind::NoTtAxis, rel.name.as_str()));
    }
    if vt.is_some() && (k == RelKind::Plain || k == RelKind::Tx) {
        return Err(err_on(ErrKind::NoValidAxis, rel.name.as_str()));
    }
    if is_below(rel.floor, at) && (k == RelKind::Tx || k == RelKind::Bi) {
        return Err(err_on(ErrKind::BelowFloor, rel.name.as_str()));
    }
    match decode_all(&rel.recs) {
        Ok(rows) => Ok(
            visible(
                &rows,
                k,
                rel.keys.len(),
                vt,
                if k == RelKind::Valid {
                    LATEST
                } else {
                    at
                },
            ),
        ),
        Err(e) => Err(e),
    }
}

/// What reading a relation or an index by its name gives.
pub open spec fn scanned(
    rels: Seq<RelationV>,
    name: Seq<char>,
    vt: Option<i64>,
    tt: Option<i64>,
    as_of: Option<i64>,
) -> Result<SourceV, Fault> {
    let p = rel_place(rels, name);
    if p < rels.len() {
        match rel_rows(rels[p], vt, tt, as_of) {
            Ok(rows) => Ok(SourceV { cols: names_of(columns_of(rels[p])), rows }),
            Err(f) => Err(f),
        }
    } else {
        let q = owner_from(rels, name, 0);
        if q < rels.len() {
            let rel = rels[q];
            let ix = rel.indices[index_from(rel.indices, name, 0)];
            match rel_rows(rel, vt, tt, as_of) {
                Ok(rows) => Ok(
                    SourceV { cols: index_columns(rel, ix), rows: index_rows(rel, ix, rows) },
                ),
                Err(f) => Err(f),
            }
        } else {
            let h = holder_from(rels, name, 0);
            if h < rels.len() {
                let rel = rels[h];
                match rel_rows(rel, vt, tt, as_of) {
                    Ok(_) => {
                        let (k, inv) = content_from(rel, name, 0)->0;
                        contents(rel, rel.searches[k as int], inv)
                    },
                    Err(f) => Err(f),
                }
            } else {
                Err(fault_on(ErrKind::RelationNotFound, name))
            }
        }
    }
}

/// What reading a relation or an index by its name gives.
pub fn scan(
    rels: &List<Relation>,
    name: &String,
    vt: Option<i64>,
    tt: Option<i64>,
    as_of: Option<i64>,
) -> (r: Result<Source, DbError>)
    ensures
        outcome(r) == scanned(rels@, name@, vt, tt, as_of),
{
    let p = find_rel(rels, name);
    if p < rels.len() {
        let rel = rels.get(p);
        return match read_rel(rel, vt, tt, as_of) {
            Ok(rows) => Ok(Source { cols: names(&columns(rel)), rows }),
            Err(e) => Err(e),
        };
    }
    let q = find_owner(rels, name);
    if q < rels.len() {
        let rel = rels.get(q);
        let i = find_index(&rel.indices, name);
        proof {
            lemma_owner(rels@, name@, 0);
        }
        let ix = rel.indices.get(i);
        match read_rel(rel, vt, tt, as_of) {
            Ok(rows) => {
                let places = all_places(&ix.places, rel.keys.len());
                Ok(
                    Source {
                        cols: columns_of_index(rel, ix),
                        rows: sorted(&pick_all(&rows, &places)),
                    },
                )
            },
            Err(e) => Err(e),
        }
    } else {
        let h = find_holder(rels, name);
        if h >= rels.len() {
            return Err(err_on(ErrKind::RelationNotFound, name.as_str()));
        }
        let rel = rels.get(h);
        match read_rel(rel, vt, tt, as_of) {
            Ok(_) => match find_content(rel, name) {
                Some((k, inv)) => read_contents(rel, rel.searches.get(k), inv),
                None => Err(err_on(ErrKind::RelationNotFound, name.as_str())),
            },
            Err(e) => Err(e),
        }
    }
}

pub proof fn lemma_owner(rels: Seq<RelationV>, name: Seq<char>, i: int)
    requires
        0 <= i <= rels.len(),
    ensures
        i <= owner_from(rels, name, i) <= rels.len(),
        owner_from(rels, name, i) < rels.len() ==> index_from(
            rels[owner_from(rels, name, i)].indices,
            name,
            0,
        ) < rels[owner_from(rels, name, i)].indices.len(),
    decreases rels.len() - i,
{
    if i < rels.len() && index_from(rels[i].indices, name, 0) >= rels[i].indices.len() {
        lemma_owner(rels, name, i + 1);
    }
}

/// No read of a hidden relation succeeds, neither under its own name nor
/// through one of its indices.
pub proof fn law_hidden_stays_hidden(
    rels: Seq<RelationV>,
    name: Seq<char>,
    vt: Option<i64>,
    tt: Option<i64>,
    as_of: Option<i64>,
)
    requires
        rel_place(rels, name) < rels.len() ==> rels[rel_place(rels, name)].access == Access::Hidden,
        rel_place(rels, name) >= rels.len() && owner_from(rels, name, 0) < rels.len()
            ==> rels[owner_from(rels, name, 0)].access == Access::Hidden,
        rel_place(rels, name) >= rels.len() && owner_from(rels, name, 0) >= rels.len()
            && holder_from(rels, name, 0) < rels.len() ==> rels[holder_from(rels, name, 0)].access
            == Access::Hidden,
    ensures
        scanned(rels, name, vt, tt, as_of) is Err,
{
}

} // verus!
