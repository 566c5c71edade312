//! Stored relations and the records in them.
use vstd::prelude::*;

use crate::codec::{decode_row, decode_row_of};
use crate::error::{DbError, ErrKind, Fault, err, fault, outcome};
use crate::expr::{Expr, ExprV};
use crate::fts::Filter;
use crate::list::{Dup, List, dup_bytes, dup_opt, opt_of};
use crate::query::{Program, ProgramV};
use crate::scan::{Source, SourceV};
use crate::schema::{Column, ColumnV};
use crate::table::{Rows, joined};
use crate::value::{
    Sign, Tuple, Value, compare_rows, law_rows_chain, law_rows_flip, lemma_rows_same, order_rows,
    same_row,
};
use crate::vector::Metric;

verus! {

/// A record: its key and the bytes of its other values.
pub struct Record {
    pub key: Tuple,
    pub blob: Vec<u8>,
}

/// The mathematical counterpart of [`Record`].
#[verifier::ext_equal]
pub struct RecordV {
    pub key: Seq<Value>,
    pub blob: Seq<u8>,
}

impl View for Record {
    type V = RecordV;
    open spec fn view(&self) -> RecordV {
        RecordV {
            key: self.key@,
            blob: self.blob@,
        }
    }
}

impl Dup for Record {
    fn dup(&self) -> (r: Self) {
        Record {
            key: self.key.dup(),
            blob: dup_bytes(&self.blob),
        }
    }
}

/// An index: another order of the columns of a relation.
pub struct Index {
    /// The name of the relation, a colon and that of the index.
    pub name: String,
    /// The places of its columns among those of the relation.
    pub places: List<usize>,
}

/// The mathematical counterpart of [`Index`].
#[verifier::ext_equal]
pub struct IndexV {
    pub name: Seq<char>,
    pub places: Seq<usize>,
}

impl View for Index {
    type V = IndexV;
    open spec fn view(&self) -> IndexV {
        IndexV {
            name: self.name@,
            places: self.places@,
        }
    }
}

impl Dup for Index {
    fn dup(&self) -> (r: Self) {
        Index {
            name: self.name.clone(),
            places: self.places.dup(),
        }
    }
}

/// What an index by content finds.
#[derive(Clone, Copy, Debug, PartialEq, Eq, Structural)]
pub enum Lookup {
    /// Texts by their words.
    Words,
    /// Vectors by their distance.
    Vectors,
    /// Texts that are nearly the same.
    Similar,
}

/// An index by content.
pub struct Search {
    pub name: String,
    pub kind: Lookup,
    /// What is done with the words of texts before they are compared.
    pub filters: List<Filter>,
    /// Whether texts are compared by runs of characters (or of words).
    pub chars: bool,
    /// How long those runs are.
    pub gram: u64,
    /// Which part of the runs of two texts must be in both, in millionths.
    pub target: u32,
    pub metric: Metric,
    /// How many neighbours of a vector are listed.
    pub most: u64,
    /// The places of the columns that it looks into.
    pub fields: List<usize>,
    /// What must hold of a row that it finds.
    pub filter: Option<Expr>,
    pub recs: List<Record>,
}

/// The mathematical counterpart of [`Search`].
#[verifier::ext_equal]
pub struct SearchV {
    pub name: Seq<char>,
    pub kind: Lookup,
    pub filters: Seq<Filter>,
    pub chars: bool,
    pub gram: u64,
    pub target: u32,
    pub metric: Metric,
    pub most: u64,
    pub fields: Seq<usize>,
    pub filter: Option<ExprV>,
    pub recs: Seq<RecordV>,
}

impl View for Search {
    type V = SearchV;

    open spec fn view(&self) -> SearchV {
        SearchV {
            name: self.name@,
            kind: self.kind,
            filters: self.filters@,
            chars: self.chars,
            gram: self.gram,
            target: self.target,
            metric: self.metric,
            most: self.most,
            fields: self.fields@,
            filter: opt_of(self.filter),
            recs: self.recs@,
        }
    }
}

impl Dup for Search {
    fn dup(&self) -> (r: Self) {
        Search {
            name: self.name.clone(),
            kind: self.kind,
            filters: self.filters.dup(),
            chars: self.chars,
            gram: self.gram,
            target: self.target,
            metric: self.metric,
            most: self.most,
            fields: self.fields.dup(),
            filter: dup_opt(&self.filter),
            recs: self.recs.dup(),
        }
    }
}

/// The writes that a trigger follows.
#[derive(Clone, Copy, Debug, PartialEq, Eq, Structural)]
pub enum TrigKind {
    Put,
    Rm,
    Replace,
}

/// A query that runs after a write.
pub struct Trigger {
    pub on: TrigKind,
    pub prog: Program,
}

/// The mathematical counterpart of [`Trigger`].
#[verifier::ext_equal]
pub struct TriggerV {
    pub on: TrigKind,
    pub prog: ProgramV,
}

impl View for Trigger {
    type V = TriggerV;
    open spec fn view(&self) -> TriggerV {
        TriggerV {
            on: self.on,
            prog: self.prog@,
        }
    }
}

impl Dup for Trigger {
    fn dup(&self) -> (r: Self) {
        Trigger {
            on: self.on,
            prog: self.prog.dup(),
        }
    }
}

/// What may be done with a relation.
#[derive(Clone, Copy, Debug, PartialEq, Eq, Structural)]
pub enum Access {
    /// Nothing.
    Hidden,
    /// Reading.
    ReadOnly,
    /// Reading and writing rows.
    Protected,
    /// Everything.
    Normal,
}

/// A stored relation.
pub struct Relation {
    pub name: String,
    pub id: u64,
    pub keys: List<Column>,
    pub vals: List<Column>,
    pub recs: List<Record>,
    pub access: Access,
    pub triggers: List<Trigger>,
    pub indices: List<Index>,
    pub searches: List<Search>,
    /// The transaction before which the history is incomplete.
    pub floor: Option<i64>,
}

/// The mathematical counterpart of [`Relation`].
#[verifier::ext_equal]
pub struct RelationV {
    pub name: Seq<char>,
    pub id: u64,
    pub keys: Seq<ColumnV>,
    pub vals: Seq<ColumnV>,
    pub recs: Seq<RecordV>,
    pub access: Access,
    pub triggers: Seq<TriggerV>,
    pub indices: Seq<IndexV>,
    pub searches: Seq<SearchV>,
    pub floor: Option<i64>,
}

impl View for Relation {
    type V = RelationV;
    open spec fn view(&self) -> RelationV {
        RelationV {
            name: self.name@,
            id: self.id,
            keys: self.keys@,
            vals: self.vals@,
            recs: self.recs@,
            access: self.access,
            triggers: self.triggers@,
            indices: self.indices@,
            searches: self.searches@,
            floor: self.floor,
        }
    }
}

impl Dup for Relation {
    fn dup(&self) -> (r: Self) {
        Relation {
            name: self.name.clone(),
            id: self.id,
            keys: self.keys.dup(),
            vals: self.vals.dup(),
            recs: self.recs.dup(),
            access: self.access,
            triggers: self.triggers.dup(),
            indices: self.indices.dup(),
            searches: self.searches.dup(),
            floor: self.floor,
        }
    }
}

/// A write to a relation with transaction times, to be stamped when the
/// transaction commits.
pub struct Pending {
    pub rel: String,
    /// The key without the transaction time.
    pub key: Tuple,
    /// Whether it asserts.
    pub flag: bool,
    pub vals: Tuple,
}

/// The mathematical counterpart of [`Pending`].
#[verifier::ext_equal]
pub struct PendingV {
    pub rel: Seq<char>,
    pub key: Seq<Value>,
    pub flag: bool,
    pub vals: Seq<Value>,
}

impl View for Pending {
    type V = PendingV;
    open spec fn view(&self) -> PendingV {
        PendingV {
            rel: self.rel@,
            key: self.key@,
            flag: self.flag,
            vals: self.vals@,
        }
    }
}

impl Dup for Pending {
    fn dup(&self) -> (r: Self) {
        Pending {
            rel: self.rel.clone(),
            key: self.key.dup(),
            flag: self.flag,
            vals: self.vals.dup(),
        }
    }
}

/// A write that was made: which rows it put or removed, and which were there.
pub struct Event {
    pub rel: String,
    pub kind: TrigKind,
    pub news: Source,
    pub olds: Source,
}

/// The mathematical counterpart of [`Event`].
#[verifier::ext_equal]
pub struct EventV {
    pub rel: Seq<char>,
    pub kind: TrigKind,
    pub news: SourceV,
    pub olds: SourceV,
}

impl View for Event {
    type V = EventV;

    open spec fn view(&self) -> EventV {
        EventV { rel: self.rel@, kind: self.kind, news: self.news@, olds: self.olds@ }
    }
}

impl Dup for Event {
    fn dup(&self) -> (r: Self) {
        Event {
            rel: self.rel.clone(),
            kind: self.kind,
            news: self.news.dup(),
            olds: self.olds.dup(),
        }
    }
}

/// Everything that a database keeps.
pub struct Store {
    pub rels: List<Relation>,
    /// The identifier of the next relation.
    pub next_id: u64,
    /// The greatest transaction time in use.
    pub hwm: Option<i64>,
    pub pending: List<Pending>,
    /// The relations whose beliefs the transaction declared as a whole.
    pub declared: List<String>,
    /// A number that grows with every query.
    pub tick: u64,
    /// The writes of the transaction.
    pub events: List<Event>,
}

/// The mathematical counterpart of [`Store`].
#[verifier::ext_equal]
pub struct StoreV {
    pub rels: Seq<RelationV>,
    pub next_id: u64,
    pub hwm: Option<i64>,
    pub pending: Seq<PendingV>,
    pub declared: Seq<Seq<char>>,
    pub tick: u64,
    pub events: Seq<EventV>,
}

impl View for Store {
    type V = StoreV;
    open spec fn view(&self) -> StoreV {
        StoreV {
            rels: self.rels@,
            next_id: self.next_id,
            hwm: self.hwm,
            pending: self.pending@,
            declared: self.declared@,
            tick: self.tick,
            events: self.events@,
        }
    }
}

impl Dup for Store {
    fn dup(&self) -> (r: Self) {
        Store {
            rels: self.rels.dup(),
            next_id: self.next_id,
            hwm: self.hwm,
            pending: self.pending.dup(),
            declared: self.declared.dup(),
            tick: self.tick,
            events: self.events.dup(),
        }
    }
}

/// How much a level of access permits.
pub open spec fn rank(a: Access) -> int {
    match a {
        Access::Hidden => 0,
        Access::ReadOnly => 1,
        Access::Protected => 2,
        Access::Normal => 3,
    }
}

fn rank_of(a: Access) -> (r: u8)
    ensures
        r == rank(a),
{
    match a {
        Access::Hidden => 0,
        Access::ReadOnly => 1,
        Access::Protected => 2,
        Access::Normal => 3,
    }
}

/// Whether a relation may be used as a level demands.
pub open spec fn permitted(rel: RelationV, need: Access) -> bool {
    rank(rel.access) >= rank(need)
}

/// Whether a relation may be used as a level demands.
pub fn permits(rel: &Relation, need: Access) -> (r: bool)
    ensures
        r == permitted(rel@, need),
{
    rank_of(rel.access) >= rank_of(need)
}

/// Whether records are in ascending order of their keys, each key once.
pub open spec fn in_order(recs: Seq<RecordV>) -> bool {
    forall|i: int, j: int|
    0 <= i < j < recs.len() ==> order_rows((#[trigger] recs[i]).key, (#[trigger] recs[j]).key, 0)
    == Sign::Less
}

/// The place behind the last of the first `i` records whose key is not greater.
pub open spec fn rec_slot_from(recs: Seq<RecordV>, key: Seq<Value>, i: int) -> int
    decreases i,
{
    if i <= 0 || i > recs.len() {
        0
    } else if order_rows(recs[i - 1].key, key, 0) == Sign::More {
        rec_slot_from(recs, key, i - 1)
    } else {
        i
    }
}

pub open spec fn rec_slot(recs: Seq<RecordV>, key: Seq<Value>) -> int {
    rec_slot_from(recs, key, recs.len() as int)
}

/// The bytes that are kept under a key.
pub open spec fn lookup_of(recs: Seq<RecordV>, key: Seq<Value>) -> Option<Seq<u8>> {
    let i = rec_slot(recs, key);
    if i > 0 && recs[i - 1].key == key {
        Some(recs[i - 1].blob)
    } else {
        None
    }
}

/// Records with these bytes under a key.
pub open spec fn with_rec(recs: Seq<RecordV>, key: Seq<Value>, blob: Seq<u8>) -> Seq<RecordV> {
    let i = rec_slot(recs, key);
    if i > 0 && recs[i - 1].key == key {
        recs.update(i - 1, RecordV { key, blob })
    } else {
        recs.insert(i, RecordV { key, blob })
    }
}

/// Records without any under a key.
pub open spec fn without_rec(recs: Seq<RecordV>, key: Seq<Value>) -> Seq<RecordV> {
    let i = rec_slot(recs, key);
    if i > 0 && recs[i - 1].key == key {
        recs.remove(i - 1)
    } else {
        recs
    }
}

fn find_slot(recs: &List<Record>, key: &Tuple) -> (r: usize)
    ensures
        r == rec_slot(recs@, key@),
        r <= recs@.len(),
{
    let mut i: usize = recs.len();
    while i > 0 && compare_rows(&recs.get(i - 1).key, key) == Sign::More
        invariant
            i <= recs@.len(),
            rec_slot(recs@, key@) == rec_slot_from(recs@, key@, i as int),
        decreases i,
    {
        i = i - 1;
    }
    assert(rec_slot_from(recs@, key@, i as int) == i);
    i
}

/// The bytes that are kept under a key.
pub fn lookup(recs: &List<Record>, key: &Tuple) -> (r: Option<Vec<u8>>)
    ensures
        opt_of(r) == lookup_of(recs@, key@),
{
    let i = find_slot(recs, key);
    if i > 0 && same_row(&recs.get(i - 1).key, key) {
        Some(dup_bytes(&recs.get(i - 1).blob))
    } else {
        None
    }
}

/// Keeps these bytes under a key.
pub fn put_rec(recs: &mut List<Record>, key: Tuple, blob: Vec<u8>)
    ensures
        final(recs)@ == with_rec(old(recs)@, key@, blob@),
{
    let i = find_slot(recs, &key);
    if i > 0 && same_row(&recs.get(i - 1).key, &key) {
        recs.set(i - 1, Record { key, blob });
    } else {
        recs.insert(i, Record { key, blob });
    }
}

/// Keeps nothing under a key.
pub fn del_rec(recs: &mut List<Record>, key: &Tuple)
    ensures
        final(recs)@ == without_rec(old(recs)@, key@),
{
    let i = find_slot(recs, key);
    if i > 0 && same_row(&recs.get(i - 1).key, key) {
        recs.remove(i - 1);
    }
}

pub proof fn lemma_rec_slot(recs: Seq<RecordV>, key: Seq<Value>, i: int)
    requires
        0 <= i <= recs.len(),
    ensures
        0 <= rec_slot_from(recs, key, i) <= i,
        forall|k: int|
        rec_slot_from(recs, key, i) <= k < i ==> order_rows((#[trigger] recs[k]).key, key, 0)
        == Sign::More,
        rec_slot_from(recs, key, i) > 0 ==> order_rows(
            recs[rec_slot_from(recs, key, i) - 1].key,
            key,
            0,
        ) != Sign::More,
    decreases i,
{
    if i > 0 && order_rows(recs[i - 1].key, key, 0) == Sign::More {
        lemma_rec_slot(recs, key, i - 1);
    }
}

/// In ordered records the bytes under a key are those of the record with it.
pub proof fn law_lookup(recs: Seq<RecordV>, key: Seq<Value>)
    requires
        in_order(recs),
    ensures
        forall|i: int|
        0 <= i < recs.len() && (#[trigger] recs[i]).key == key ==> lookup_of(recs, key) == Some(
            recs[i].blob,
        ),
        lookup_of(recs, key) is Some ==> exists|i: int|
        0 <= i < recs.len() && (#[trigger] recs[i]).key == key && lookup_of(recs, key) == Some(
            recs[i].blob,
        ),
{
    let n = recs.len() as int;
    let s = rec_slot(recs, key);
    lemma_rec_slot(recs, key, n);
    lemma_rows_same(key, key);
    assert forall|i: int| 0 <= i < recs.len() && (#[trigger] recs[i]).key == key implies lookup_of(
        recs,
        key,
    ) == Some(recs[i].blob) by {
        assert(i < s);
        if i < s - 1 {
            assert(order_rows(recs[i].key, recs[s - 1].key, 0) == Sign::Less);
            law_rows_flip(key, recs[s - 1].key, 0);
        }
    }
}

/// Records stay ordered when one is put; the bytes under its key are then the
/// new ones, and those under every other key are what they were.
#[verifier::spinoff_prover]
#[verifier::rlimit(60)]
pub proof fn law_put_rec(recs: Seq<RecordV>, key: Seq<Value>, blob: Seq<u8>, other: Seq<Value>)
    requires
        in_order(recs),
    ensures
        in_order(with_rec(recs, key, blob)),
        lookup_of(with_rec(recs, key, blob), key) == Some(blob),
        other != key ==> lookup_of(with_rec(recs, key, blob), other) == lookup_of(recs, other),
{
    let n = recs.len() as int;
    let s = rec_slot(recs, key);
    let out = with_rec(recs, key, blob);
    lemma_rec_slot(recs, key, n);
    if s > 0 && recs[s - 1].key == key {
        assert(out[s - 1].key == key);
        assert forall|a: int, b: int| 0 <= a < b < out.len() implies order_rows(
            (#[trigger] out[a]).key,
            (#[trigger] out[b]).key,
            0,
        ) == Sign::Less by {
            assert(out[a].key == recs[a].key && out[b].key == recs[b].key);
            assert(order_rows(recs[a].key, recs[b].key, 0) == Sign::Less);
        }
    } else {
        assert(out[s].key == key);
        assert forall|a: int, b: int| 0 <= a < b < out.len() implies order_rows(
            (#[trigger] out[a]).key,
            (#[trigger] out[b]).key,
            0,
        ) == Sign::Less by {
            if b == s {
                lemma_rows_same(recs[s - 1].key, key);
                if a < s - 1 {
                    assert(order_rows(recs[a].key, recs[s - 1].key, 0) == Sign::Less);
                    law_rows_chain(recs[a].key, recs[s - 1].key, key, 0);
                }
            } else if a == s {
                law_rows_flip(recs[b - 1].key, key, 0);
                assert(order_rows(recs[b - 1].key, key, 0) == Sign::More);
            } else {
                let x = if a < s { a } else { a - 1 };
                let y = if b < s { b } else { b - 1 };
                assert(order_rows(recs[x].key, recs[y].key, 0) == Sign::Less);
            }
        }
    }
    law_lookup(out, key);
    law_lookup(out, other);
    law_lookup(recs, other);
    if other != key {
        if lookup_of(recs, other) is Some {
            let i = choose|i: int| 0 <= i < recs.len() && (#[trigger] recs[i]).key == other;
            let j = if s > 0 && recs[s - 1].key == key || i < s { i } else { i + 1 };
            assert(out[j] == recs[i]);
        }
        if lookup_of(out, other) is Some {
            let j = choose|j: int| 0 <= j < out.len() && (#[trigger] out[j]).key == other;
            let i = if s > 0 && recs[s - 1].key == key || j < s { j } else { j - 1 };
            assert(out[j] == recs[i]);
        }
    }
}

/// Records stay ordered when one is removed; then nothing is kept under its
/// key, and what is kept under every other key is what it was.
pub proof fn law_del_rec(recs: Seq<RecordV>, key: Seq<Value>, other: Seq<Value>)
    requires
        in_order(recs),
    ensures
        in_order(without_rec(recs, key)),
        lookup_of(without_rec(recs, key), key) is None,
        other != key ==> lookup_of(without_rec(recs, key), other) == lookup_of(recs, other),
{
    let n = recs.len() as int;
    let s = rec_slot(recs, key);
    let out = without_rec(recs, key);
    lemma_rec_slot(recs, key, n);
    law_lookup(recs, key);
    law_lookup(recs, other);
    if s > 0 && recs[s - 1].key == key {
        assert forall|a: int, b: int| 0 <= a < b < out.len() implies order_rows(
            (#[trigger] out[a]).key,
            (#[trigger] out[b]).key,
            0,
        ) == Sign::Less by {
            let x = if a < s - 1 { a } else { a + 1 };
            let y = if b < s - 1 { b } else { b + 1 };
            assert(order_rows(recs[x].key, recs[y].key, 0) == Sign::Less);
        }
        law_lookup(out, key);
        law_lookup(out, other);
        lemma_rows_same(key, key);
        if lookup_of(out, key) is Some {
            let j = choose|j: int| 0 <= j < out.len() && (#[trigger] out[j]).key == key;
            let x = if j < s - 1 { j } else { j + 1 };
            assert(out[j] == recs[x]);
            if x < s - 1 {
                assert(order_rows(recs[x].key, recs[s - 1].key, 0) == Sign::Less);
            } else {
                assert(order_rows(recs[s - 1].key, recs[x].key, 0) == Sign::Less);
            }
        }
        if other != key {
            if lookup_of(recs, other) is Some {
                let i = choose|i: int| 0 <= i < recs.len() && (#[trigger] recs[i]).key == other;
                let j = if i < s - 1 { i } else { i - 1 };
                assert(out[j] == recs[i]);
            }
            if lookup_of(out, other) is Some {
                let j = choose|j: int| 0 <= j < out.len() && (#[trigger] out[j]).key == other;
                let i = if j < s - 1 { j } else { j + 1 };
                assert(out[j] == recs[i]);
            }
        }
    }
}

/// The rows of the records from place `i` on, after `acc`.
pub open spec fn decoded_from(recs: Seq<RecordV>, i: int, acc: Seq<Seq<Value>>) -> Result<
Seq<Seq<Value>>,
Fault,
>
    decreases recs.len() - i,
{
    if i < 0 || i >= recs.len() {
        Ok(acc)
    } else {
        match decode_row_of(recs[i].blob) {
            Some(v) => decoded_from(recs, i + 1, acc.push(recs[i].key + v)),
            None => Err(fault(ErrKind::CorruptBlob)),
        }
    }
}

/// The rows of the records.
pub fn decode_all(recs: &List<Record>) -> (r: Result<Rows, DbError>)
    ensures
        outcome(r) == decoded_from(recs@, 0, Seq::empty()),
{
    let mut acc: Rows = List::new();
    let mut i: usize = 0;
    while i < recs.len()
        invariant
            i <= recs@.len(),
            decoded_from(recs@, 0, Seq::empty()) == decoded_from(recs@, i as int, acc@),
        decreases recs@.len() - i,
    {
        let rec = recs.get(i);
        match decode_row(&rec.blob) {
            Some(v) => acc.push(joined(&rec.key, &v)),
            None => {
                return Err(err(ErrKind::CorruptBlob));
            },
        }
        i = i + 1;
    }
    Ok(acc)
}

/// The place of a relation from place `i` on, and the length where there is
/// none of the name.
pub open spec fn rel_from(rels: Seq<RelationV>, name: Seq<char>, i: int) -> int
    decreases rels.len() - i,
{
    if i < 0 || i >= rels.len() {
        rels.len() as int
    } else if rels[i].name == name {
        i
    } else {
        rel_from(rels, name, i + 1)
    }
}

/// The place of a relation, and the length where there is none of the name.
pub open spec fn rel_place(rels: Seq<RelationV>, name: Seq<char>) -> int {
    rel_from(rels, name, 0)
}

/// The place of a relation.
pub fn find_rel(rels: &List<Relation>, name: &String) -> (r: usize)
    ensures
        r == rel_place(rels@, name@),
        r <= rels@.len(),
        r < rels@.len() ==> rels@[r as int].name == name@,
{
    let mut i: usize = 0;
    while i < rels.len()
        invariant
            i <= rels@.len(),
            rel_place(rels@, name@) == rel_from(rels@, name@, i as int),
        decreases rels@.len() - i,
    {
        if rels.get(i).name == *name {
            return i;
        }
        i = i + 1;
    }
    i
}

pub proof fn lemma_rel_from(rels: Seq<RelationV>, name: Seq<char>, i: int)
    requires
        0 <= i <= rels.len(),
    ensures
        i <= rel_from(rels, name, i) <= rels.len(),
        rel_from(rels, name, i) < rels.len() ==> rels[rel_from(rels, name, i)].name == name,
        forall|k: int| i <= k < rel_from(rels, name, i) ==> (#[trigger] rels[k]).name != name,
    decreases rels.len() - i,
{
    if i < rels.len() && rels[i].name != name {
        lemma_rel_from(rels, name, i + 1);
    }
}

/// The names of columns.
pub open spec fn names_of(cols: Seq<ColumnV>) -> Seq<Seq<char>> {
    Seq::new(cols.len(), |i: int| cols[i].name)
}

/// The names of columns.
pub fn names(cols: &List<Column>) -> (r: List<String>)
    ensures
        r@ == names_of(cols@),
{
    let mut r: List<String> = List::new();
    let mut i: usize = 0;
    while i < cols.len()
        invariant
            i <= cols@.len(),
            r@ =~= names_of(cols@).take(i as int),
        decreases cols@.len() - i,
    {
        r.push(cols.get(i).name.clone());
        i = i + 1;
    }
    assert(names_of(cols@).take(i as int) =~= names_of(cols@));
    r
}

/// All columns of a relation.
pub open spec fn columns_of(rel: RelationV) -> Seq<ColumnV> {
    rel.keys + rel.vals
}

/// All columns of a relation.
pub fn columns(rel: &Relation) -> (r: List<Column>)
    ensures
        r@ == columns_of(rel@),
{
    let mut r: List<Column> = rel.keys.dup();
    let mut i: usize = 0;
    assert(r@ =~= rel@.keys + rel@.vals.take(0));
    while i < rel.vals.len()
        invariant
            i <= rel@.vals.len(),
            r@ == rel@.keys + rel@.vals.take(i as int),
        decreases rel@.vals.len() - i,
    {
        r.push(rel.vals.get(i).dup());
        assert(r@ =~= rel@.keys + rel@.vals.take(i + 1));
        i = i + 1;
    }
    assert(rel@.vals.take(i as int) =~= rel@.vals);
    r
}

} // verus!
