//! Databases: clocks, registries, transactions, and what users call.
use vstd::prelude::*;

use crate::aggr::{Custom, CustomV};
use crate::error::{DbError, ErrKind, Fault, err, err_on, fault, fault_on, outcome};
use crate::list::{Dup, List};
use crate::parse::pushed;
use crate::parse_script::{parse, script_of};
use crate::scan::{Source, SourceV};
use crate::script::{run_script, script_done};
use crate::stmt::{Param, ParamV};
use crate::store::{Event, EventV, Relation, Store, StoreV, find_rel, rel_place};
use crate::table::Rows;
use crate::value::{DataValue, Tuple, Value, elements, list_value, values_of};
use crate::write_tt::{stamp, stamped_from};

verus! {

/// Wraps `SystemTime::elapsed` of the start of 1970: the present, in
/// microseconds since then. Nothing is claimed of it but that it is not
/// negative.
#[verifier::external_body]
pub(crate) fn wall_clock_micros() -> (r: i64)
    ensures
        r >= 0,
{
    match std::time::UNIX_EPOCH.elapsed() {
        Ok(d) => i64::try_from(d.as_micros()).unwrap_or(i64::MAX),
        Err(_) => 0,
    }
}

/// The clock of transactions: it gives each a time greater than the last.
pub struct TtClock {
    pub last: i64,
}

impl View for TtClock {
    type V = i64;

    open spec fn view(&self) -> i64 {
        self.last
    }
}

/// The time of the transaction after `last`, where the present is `now`.
pub open spec fn ticked_to(last: i64, now: i64) -> i64 {
    if now > last {
        now
    } else {
        (last + 1) as i64
    }
}

impl TtClock {
    /// The time of the last transaction.
    pub fn peek(&self) -> (r: i64)
        ensures
            r == self@,
    {
        self.last
    }

    /// The time of the next transaction: the present, but later than the last.
    pub fn advance_with_now(&mut self, now: i64) -> (r: i64)
        requires
            old(self)@ < i64::MAX,
        ensures
            r == ticked_to(old(self)@, now),
            final(self)@ == r,
            r > old(self)@,
            r >= now,
    {
        let t: i64 = if now > self.last {
            now
        } else {
            self.last + 1
        };
        self.last = t;
        t
    }
}

/// Rows with the names of their columns.
#[derive(Debug)]
pub struct NamedRows {
    pub headers: Vec<String>,
    pub rows: Vec<Vec<DataValue>>,
}

impl View for NamedRows {
    type V = SourceV;

    open spec fn view(&self) -> SourceV {
        SourceV {
            cols: Seq::new(self.headers@.len(), |i: int| self.headers@[i]@),
            rows: Seq::new(self.rows@.len(), |i: int| values_of(self.rows@[i]@)),
        }
    }
}

/// Makes plain vectors of rows.
pub fn named(src: Source) -> (r: NamedRows)
    ensures
        r@ == src@,
{
    let mut rows: Vec<Vec<DataValue>> = Vec::new();
    let mut i: usize = 0;
    while i < src.rows.len()
        invariant
            i <= src@.rows.len(),
            rows@.len() == i,
            forall|k: int| 0 <= k < i ==> values_of(#[trigger] rows@[k]@) == src@.rows[k],
        decreases src@.rows.len() - i,
    {
        let t = src.rows.get(i).dup();
        assert(values_of(t.items@) =~= t@);
        rows.push(t.items);
        i = i + 1;
    }
    let r = NamedRows { headers: src.cols.items, rows };
    assert(r@.cols =~= src@.cols);
    assert(r@.rows =~= src@.rows);
    r
}

/// Makes lists of plain vectors of rows.
pub fn unnamed(n: &NamedRows) -> (r: Source)
    ensures
        r@ == n@,
{
    let mut cols: List<String> = List::new();
    let mut i: usize = 0;
    while i < n.headers.len()
        invariant
            i <= n.headers@.len(),
            cols@ =~= n@.cols.take(i as int),
        decreases n.headers@.len() - i,
    {
        cols.push(n.headers[i].clone());
        i = i + 1;
    }
    let mut rows: Rows = List::new();
    let mut j: usize = 0;
    while j < n.rows.len()
        invariant
            j <= n.rows@.len(),
            rows@ =~= n@.rows.take(j as int),
        decreases n.rows@.len() - j,
    {
        rows.push(elements(&n.rows[j]));
        j = j + 1;
    }
    assert(n@.cols.take(i as int) =~= n@.cols);
    assert(n@.rows.take(j as int) =~= n@.rows);
    Source { cols, rows }
}

impl Clone for NamedRows {
    fn clone(&self) -> (r: Self)
        ensures
            r@ == self@,
    {
        named(unnamed(self))
    }
}

/// The parameters of a script.
pub struct Params {
    pub items: List<Param>,
}

impl View for Params {
    type V = Seq<ParamV>;

    open spec fn view(&self) -> Seq<ParamV> {
        self.items@
    }
}

impl Params {
    pub fn new() -> (r: Self)
        ensures
            r@ == Seq::<ParamV>::empty(),
    {
        Params { items: List::new() }
    }

    /// Adds a parameter; where a name occurs twice, the first counts.
    pub fn with(self, name: &str, value: DataValue) -> (r: Self)
        ensures
            r@ == self@.push(ParamV { name: name@, value: value@ }),
    {
        Params { items: pushed(self.items, Param { name: name.to_owned(), value }) }
    }
}

/// Whether a script may write.
#[derive(Clone, Copy, Debug, PartialEq, Eq, Structural)]
pub enum ScriptMutability {
    Mutable,
    Immutable,
}

/// Whether a script must not write.
pub open spec fn read_only(m: ScriptMutability) -> bool {
    m == ScriptMutability::Immutable
}

/// Names joined by commas, from place `i` on.
pub open spec fn joined_names(ns: Seq<Seq<char>>, i: int, acc: Seq<char>) -> Seq<char>
    decreases ns.len() - i,
{
    if i < 0 || i >= ns.len() {
        acc
    } else if i == 0 {
        joined_names(ns, i + 1, acc + ns[i])
    } else {
        joined_names(ns, i + 1, acc + ", "@ + ns[i])
    }
}

/// The rows as a list value.
pub open spec fn list_of_rows(rows: Seq<Seq<Value>>) -> Value {
    Value::List(Seq::new(rows.len(), |i: int| Value::List(rows[i])))
}

pub fn value_of_rows(rows: &Rows) -> (r: DataValue)
    ensures
        r@ == list_of_rows(rows@),
{
    let ghost all = Seq::new(rows@.len(), |i: int| Value::List(rows@[i]));
    let mut l: Tuple = List::new();
    let mut i: usize = 0;
    while i < rows.len()
        invariant
            i <= rows@.len(),
            all == Seq::new(rows@.len(), |i: int| Value::List(rows@[i])),
            l@ =~= all.take(i as int),
        decreases rows@.len() - i,
    {
        l.push(list_value(rows.get(i).dup()));
        i = i + 1;
    }
    assert(all.take(i as int) =~= all);
    list_value(l)
}

/// The script that writes rows, given as a parameter, to a relation.
pub open spec fn payload_script(
    headers: Seq<Seq<char>>,
    rel: Seq<char>,
    op: Seq<char>,
) -> Seq<char> {
    "?["@ + joined_names(headers, 0, Seq::empty()) + "] <- $data :"@ + op + " "@ + rel + " {"@
        + joined_names(headers, 0, Seq::empty()) + "}"@
}

impl NamedRows {
    /// A script, with its parameters, that writes these rows to a relation.
    pub fn into_payload(self, relation: &str, op: &str) -> (r: (String, Params))
        ensures
            r.0@ == payload_script(self@.cols, relation@, op@),
            r.1@ == seq![ParamV { name: "data"@, value: list_of_rows(self@.rows) }],
    {
        let src = unnamed(&self);
        let mut names = String::new();
        let mut i: usize = 0;
        assert(names@ =~= Seq::<char>::empty());
        while i < src.cols.len()
            invariant
                i <= src@.cols.len(),
                joined_names(src@.cols, 0, Seq::empty()) == joined_names(
                    src@.cols,
                    i as int,
                    names@,
                ),
            decreases src@.cols.len() - i,
        {
            if i > 0 {
                names = names.concat(", ");
            }
            names = names.concat(src.cols.get(i).as_str());
            i = i + 1;
        }
        let script = "?[".to_owned().concat(names.as_str()).concat("] <- $data :").concat(
            op,
        ).concat(" ").concat(relation).concat(" {").concat(names.as_str()).concat("}");
        let params = Params::new().with("data", value_of_rows(&src.rows));
        assert(params@ =~= seq![ParamV { name: "data"@, value: list_of_rows(self@.rows) }]);
        (script, params)
    }
}

/// A store without anything in it.
pub open spec fn empty_store() -> StoreV {
    StoreV {
        rels: Seq::empty(),
        next_id: 1,
        hwm: None,
        pending: Seq::empty(),
        declared: Seq::empty(),
        tick: 0,
        events: Seq::empty(),
    }
}

impl Default for Store {
    fn default() -> (r: Self)
        ensures
            r@ == empty_store(),
    {
        Store {
            rels: List::new(),
            next_id: 1,
            hwm: None,
            pending: List::new(),
            declared: List::new(),
            tick: 0,
            events: List::new(),
        }
    }
}

/// A store that is kept in memory.
pub type MemStorage = Store;

impl Store {
    /// The relation of a name.
    pub fn get_relation(&self, name: &str) -> (r: Result<Relation, DbError>)
        ensures
            outcome(r) == (if rel_place(self@.rels, name@) < self@.rels.len() {
                Ok(self@.rels[rel_place(self@.rels, name@)])
            } else {
                Err(fault_on(ErrKind::RelationNotFound, name@))
            }),
    {
        let p = find_rel(&self.rels, &name.to_owned());
        if p < self.rels.len() {
            Ok(self.rels.get(p).dup())
        } else {
            Err(err_on(ErrKind::RelationNotFound, name))
        }
    }

    /// The greatest transaction time in use.
    pub fn read_persisted_tt_hwm(&self) -> (r: Option<i64>)
        ensures
            r == self@.hwm,
    {
        self.hwm
    }
}

/// What a handle holds besides the store: the clock and the registered
/// aggregations.
pub struct Db {
    pub clock: TtClock,
    pub customs: List<Custom>,
}

/// A store and the clock after a transaction: what is pending gets one time,
/// later than every earlier one.
pub open spec fn committed(clock: i64, store: StoreV, now: i64) -> Result<(i64, StoreV), Fault> {
    if store.pending.len() == 0 {
        Ok((clock, StoreV { declared: Seq::empty(), events: Seq::empty(), ..store }))
    } else if clock == i64::MAX {
        Err(fault(ErrKind::ClockExhausted))
    } else {
        let tt = ticked_to(clock, now);
        Ok(
            (
                tt,
                StoreV {
                    rels: stamped_from(store.rels, store.pending, tt, 0),
                    hwm: Some(tt),
                    pending: Seq::empty(),
                    declared: Seq::empty(),
                    events: Seq::empty(),
                    ..store
                },
            ),
        )
    }
}

/// The clock, the store, the rows and the writes after a script.
pub open spec fn transacted(
    clock: i64,
    customs: Seq<CustomV>,
    store: StoreV,
    script: Seq<char>,
    params: Seq<ParamV>,
    ro: bool,
    now: i64,
) -> Result<(i64, StoreV, SourceV, Seq<EventV>), Fault> {
    match script_of(script, params) {
        Err(f) => Err(f),
        Ok(ss) => match script_done(store, ss, customs, now, ro) {
            Err(f) => Err(f),
            Ok(d) => match committed(clock, d.store, now) {
                Err(f) => Err(f),
                Ok((c, s)) => Ok((c, s, d.out, d.store.events)),
            },
        },
    }
}

/// Commits a store.
pub fn commit_store(clock: &mut TtClock, store: Store, now: i64) -> (r: Result<Store, DbError>)
    ensures
        match r {
            Ok(s) => committed(old(clock)@, store@, now) == Ok::<(i64, StoreV), Fault>(
                (final(clock)@, s@),
            ),
            Err(e) => committed(old(clock)@, store@, now) == Err::<(i64, StoreV), Fault>(e@)
                && final(clock)@ == old(clock)@,
        },
{
    if store.pending.len() == 0 {
        Ok(Store { declared: List::new(), events: List::new(), ..store })
    } else if clock.last == i64::MAX {
        Err(err(ErrKind::ClockExhausted))
    } else {
        let tt = clock.advance_with_now(now);
        let rels = stamp(store.rels, &store.pending, tt);
        Ok(
            Store {
                rels,
                hwm: Some(tt),
                pending: List::new(),
                declared: List::new(),
                events: List::new(),
                next_id: store.next_id,
                tick: store.tick,
            },
        )
    }
}

impl Db {
    /// A handle on a store: its clock starts behind every time in the store.
    pub fn new(storage: &Store) -> (r: Self)
        ensures
            r.clock@ == (match storage@.hwm {
                Some(t) => t,
                None => 0,
            }),
            r.customs@ == Seq::<CustomV>::empty(),
    {
        let last: i64 = match storage.hwm {
            Some(t) => t,
            None => 0,
        };
        Db { clock: TtClock { last }, customs: List::new() }
    }

    /// Runs a script at an instant, and tells what it wrote. Where it fails,
    /// nothing changes.
    pub fn transact(
        &mut self,
        storage: &mut Store,
        script: &str,
        params: &Params,
        mutability: ScriptMutability,
        now: i64,
    ) -> (r: Result<(NamedRows, List<Event>), DbError>)
        ensures
            final(self).customs@ == old(self).customs@,
            match r {
                Ok((rows, events)) => transacted(
                    old(self).clock@,
                    old(self).customs@,
                    old(storage)@,
                    script@,
                    params@,
                    read_only(mutability),
                    now,
                ) == Ok::<(i64, StoreV, SourceV, Seq<EventV>), Fault>(
                    (final(self).clock@, final(storage)@, rows@, events@),
                ),
                Err(e) => transacted(
                    old(self).clock@,
                    old(self).customs@,
                    old(storage)@,
                    script@,
                    params@,
                    read_only(mutability),
                    now,
                ) == Err::<(i64, StoreV, SourceV, Seq<EventV>), Fault>(e@)
                    && final(self).clock@ == old(self).clock@
                    && final(storage)@ == old(storage)@,
            },
    {
        let ro = mutability == ScriptMutability::Immutable;
        match parse(script, &params.items) {
            Err(e) => Err(e),
            Ok(ss) => match run_script(storage.dup(), &ss, &self.customs, now, ro) {
                Err(e) => Err(e),
                Ok(d) => {
                    let events = d.store.events.dup();
                    match commit_store(&mut self.clock, d.store, now) {
                        Err(e) => Err(e),
                        Ok(s) => {
                            *storage = s;
                            Ok((named(d.out), events))
                        },
                    }
                },
            },
        }
    }

    /// Runs a script at an instant. Where it fails, nothing changes.
    pub fn run_script_at(
        &mut self,
        storage: &mut Store,
        script: &str,
        params: &Params,
        mutability: ScriptMutability,
        now: i64,
    ) -> (r: Result<NamedRows, DbError>)
        ensures
            final(self).customs@ == old(self).customs@,
            ran_as_told(
                old(self).clock@,
                final(self).clock@,
                old(storage)@,
                final(storage)@,
                r,
                transacted(
                    old(self).clock@,
                    old(self).customs@,
                    old(storage)@,
                    script@,
                    params@,
                    read_only(mutability),
                    now,
                ),
            ),
    {
        match self.transact(storage, script, params, mutability, now) {
            Err(e) => Err(e),
            Ok((rows, _)) => Ok(rows),
        }
    }

    /// Runs a script in the present.
    pub fn run_script(
        &mut self,
        storage: &mut Store,
        script: &str,
        params: &Params,
        mutability: ScriptMutability,
    ) -> (r: Result<NamedRows, DbError>)
        ensures
            final(self).customs@ == old(self).customs@,
            exists|now: i64|
                now >= 0 && ran_as_told(
                    old(self).clock@,
                    final(self).clock@,
                    old(storage)@,
                    final(storage)@,
                    r,
                    #[trigger] transacted(
                        old(self).clock@,
                        old(self).customs@,
                        old(storage)@,
                        script@,
                        params@,
                        read_only(mutability),
                        now,
                    ),
                ),
    {
        let now = wall_clock_micros();
        self.run_script_at(storage, script, params, mutability, now)
    }
}

/// Whether a script left the clock and the store as it is told: changed where it
/// gave rows, as they were where it failed.
pub open spec fn ran_as_told(
    clock: i64,
    next_clock: i64,
    store: StoreV,
    next_store: StoreV,
    r: Result<NamedRows, DbError>,
    step: Result<(i64, StoreV, SourceV, Seq<EventV>), Fault>,
) -> bool {
    match r {
        Ok(rows) => match step {
            Ok((c, s, out, _)) => next_clock == c && next_store == s && rows@ == out,
            Err(_) => false,
        },
        Err(e) => step == Err::<(i64, StoreV, SourceV, Seq<EventV>), Fault>(e@) && next_clock
            == clock && next_store == store,
    }
}

} // verus!
