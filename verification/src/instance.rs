//! Databases as users hold them.
use vstd::prelude::*;

use crate::aggr::{Custom, CustomOp, CustomV, MeetAggrObj};
use crate::db::{
    Db, NamedRows, Params, ScriptMutability, TtClock, commit_store, committed, empty_store, named,
    read_only, ticked_to, transacted, wall_clock_micros,
};
use crate::error::{DbError, ErrKind, Fault, err, err_on, fault, fault_on, outcome};
use crate::eval::{is_own_rule, own_rule};
use crate::fold::{custom_from, find_custom, is_builtin, reserved};
use crate::list::{Dup, List};
use crate::mutate::DoneV;
use crate::parse_script::{parse, script_of};
use crate::rules::{FixedRule, find_custom_rule, rule_place};
use crate::scan::{SourceV, scan, scanned};
use crate::script::{run_script, script_done};
use crate::stmt::ParamV;
use crate::store::{Event, EventV, Relation, RelationV, Store, StoreV, TrigKind};

verus! {

/// A database: a handle and the store that it works on.
pub struct Instance {
    pub db: Db,
    pub store: Store,
    /// Counts the transactions that were committed and could write.
    pub version: u64,
    pub callbacks: List<Callback>,
}

/// The mathematical counterpart of [`Instance`].
#[verifier::ext_equal]
pub struct InstanceV {
    pub clock: i64,
    pub customs: Seq<CustomV>,
    pub store: StoreV,
    pub version: u64,
    pub callbacks: Seq<CallbackV>,
}

impl View for Instance {
    type V = InstanceV;

    open spec fn view(&self) -> InstanceV {
        InstanceV {
            clock: self.db.clock@,
            customs: self.db.customs@,
            store: self.store@,
            version: self.version,
            callbacks: self.callbacks@,
        }
    }
}

/// One who wants to be told of the writes to a relation, and those of which it
/// was not told yet.
pub struct Callback {
    pub rel: String,
    pub queue: List<Event>,
}

/// The mathematical counterpart of [`Callback`].
#[verifier::ext_equal]
pub struct CallbackV {
    pub rel: Seq<char>,
    pub queue: Seq<EventV>,
}

impl View for Callback {
    type V = CallbackV;

    open spec fn view(&self) -> CallbackV {
        CallbackV { rel: self.rel@, queue: self.queue@ }
    }
}

/// The writes to a relation from place `i` on, after `acc`.
pub open spec fn about_from(
    events: Seq<EventV>,
    rel: Seq<char>,
    i: int,
    acc: Seq<EventV>,
) -> Seq<EventV>
    decreases events.len() - i,
{
    if i < 0 || i >= events.len() {
        acc
    } else if events[i].rel == rel {
        about_from(events, rel, i + 1, acc.push(events[i]))
    } else {
        about_from(events, rel, i + 1, acc)
    }
}

/// Callbacks that have yet to be told of these writes.
pub open spec fn informed(cbs: Seq<CallbackV>, events: Seq<EventV>) -> Seq<CallbackV> {
    Seq::new(
        cbs.len(),
        |k: int|
            CallbackV { rel: cbs[k].rel, queue: about_from(events, cbs[k].rel, 0, cbs[k].queue) },
    )
}

fn inform(cbs: &mut List<Callback>, events: &List<Event>)
    ensures
        final(cbs)@ == informed(old(cbs)@, events@),
{
    let ghost first = cbs@;
    let mut k: usize = 0;
    while k < cbs.len()
        invariant
            k <= cbs@.len(),
            cbs@.len() == first.len(),
            forall|m: int| 0 <= m < k ==> #[trigger] cbs@[m] == informed(first, events@)[m],
            forall|m: int| k <= m < first.len() ==> #[trigger] cbs@[m] == first[m],
        decreases cbs@.len() - k,
    {
        let ghost before = cbs@;
        let mut queue = cbs.get(k).queue.dup();
        let rel = cbs.get(k).rel.clone();
        let mut i: usize = 0;
        while i < events.len()
            invariant
                i <= events@.len(),
                about_from(events@, rel@, 0, before[k as int].queue) == about_from(
                    events@,
                    rel@,
                    i as int,
                    queue@,
                ),
            decreases events@.len() - i,
        {
            if events.get(i).rel == rel {
                queue.push(events.get(i).dup());
            }
            i = i + 1;
        }
        cbs.set(k, Callback { rel, queue });
        k = k + 1;
    }
    assert(cbs@ =~= informed(first, events@));
}

/// The version after another one.
pub open spec fn next_version(v: u64) -> u64 {
    if v == u64::MAX {
        0
    } else {
        (v + 1) as u64
    }
}

pub fn bump(v: u64) -> (r: u64)
    ensures
        r == next_version(v),
{
    if v == u64::MAX {
        0
    } else {
        v + 1
    }
}

/// A database and the rows after a script.
pub open spec fn after_script(
    i: InstanceV,
    script: Seq<char>,
    params: Seq<ParamV>,
    ro: bool,
    now: i64,
) -> Result<(InstanceV, SourceV), Fault> {
    match transacted(i.clock, i.customs, i.store, script, params, ro, now) {
        Err(f) => Err(f),
        Ok((clock, store, out, events)) => {
            let version = if ro {
                i.version
            } else {
                next_version(i.version)
            };
            let callbacks = informed(i.callbacks, events);
            Ok((InstanceV { clock, store, version, callbacks, ..i }, out))
        },
    }
}

/// Whether a script left a database as it is told: changed where it gave rows,
/// as it was where it failed.
pub open spec fn follows(
    before: InstanceV,
    after: InstanceV,
    r: Result<NamedRows, DbError>,
    step: Result<(InstanceV, SourceV), Fault>,
) -> bool {
    match r {
        Ok(rows) => step == Ok::<(InstanceV, SourceV), Fault>((after, rows@)),
        Err(e) => step == Err::<(InstanceV, SourceV), Fault>(e@) && after == before,
    }
}

impl Instance {
    /// The clock of transactions.
    pub fn tt_clock(&self) -> (r: &TtClock)
        ensures
            r@ == self@.clock,
    {
        &self.db.clock
    }

    /// Sets the clock of transactions forward, as a transaction at `now` does.
    pub fn advance_clock(&mut self, now: i64) -> (r: i64)
        requires
            old(self)@.clock < i64::MAX,
        ensures
            r == ticked_to(old(self)@.clock, now),
            final(self)@ == (InstanceV { clock: r, ..old(self)@ }),
    {
        self.db.clock.advance_with_now(now)
    }

    /// Runs a script at an instant. Where it fails, nothing changes.
    pub fn run_script_at(
        &mut self,
        script: &str,
        params: &Params,
        mutability: ScriptMutability,
        now: i64,
    ) -> (r: Result<NamedRows, DbError>)
        ensures
            follows(
                old(self)@,
                final(self)@,
                r,
                after_script(old(self)@, script@, params@, read_only(mutability), now),
            ),
    {
        match self.db.transact(&mut self.store, script, params, mutability, now) {
            Err(e) => Err(e),
            Ok((rows, events)) => {
                if mutability == ScriptMutability::Mutable {
                    self.version = bump(self.version);
                }
                inform(&mut self.callbacks, &events);
                Ok(rows)
            },
        }
    }

    /// Runs a script in the present.
    pub fn run_script(&mut self, script: &str, params: &Params, mutability: ScriptMutability) -> (r:
        Result<NamedRows, DbError>)
        ensures
            exists|now: i64|
                now >= 0 && follows(
                    old(self)@,
                    final(self)@,
                    r,
                    #[trigger] after_script(
                        old(self)@,
                        script@,
                        params@,
                        read_only(mutability),
                        now,
                    ),
                ),
    {
        let now = wall_clock_micros();
        self.run_script_at(script, params, mutability, now)
    }
}

/// What an identifier leaves for the next one.
pub open spec fn above(id: u64) -> u64 {
    if id == u64::MAX {
        id
    } else {
        (id + 1) as u64
    }
}

/// An identifier above those of the relations from place `i` on, and no less
/// than `next`.
pub open spec fn free_from(rels: Seq<RelationV>, i: int, next: u64) -> u64
    decreases rels.len() - i,
{
    if i < 0 || i >= rels.len() {
        next
    } else if above(rels[i].id) > next {
        free_from(rels, i + 1, above(rels[i].id))
    } else {
        free_from(rels, i + 1, next)
    }
}

fn free_id(rels: &List<Relation>, start: u64) -> (r: u64)
    ensures
        r == free_from(rels@, 0, start),
{
    let mut next: u64 = start;
    let mut i: usize = 0;
    while i < rels.len()
        invariant
            i <= rels@.len(),
            free_from(rels@, 0, start) == free_from(rels@, i as int, next),
        decreases rels@.len() - i,
    {
        let id: u64 = rels.get(i).id;
        let up: u64 = if id == u64::MAX {
            id
        } else {
            id + 1
        };
        if up > next {
            next = up;
        }
        i = i + 1;
    }
    next
}

/// A store that was just opened: its next identifier is above those in use,
/// whatever it was said to be, and nothing is pending.
pub open spec fn opened(s: StoreV) -> StoreV {
    StoreV {
        next_id: free_from(s.rels, 0, s.next_id),
        pending: Seq::empty(),
        declared: Seq::empty(),
        events: Seq::empty(),
        ..s
    }
}

pub fn open_store(s: Store) -> (r: Store)
    ensures
        r@ == opened(s@),
{
    let next_id = free_id(&s.rels, s.next_id);
    Store { next_id, pending: List::new(), declared: List::new(), events: List::new(), ..s }
}

/// The greater of a clock and the greatest time in a store.
pub open spec fn seeded(clock: i64, hwm: Option<i64>) -> i64 {
    match hwm {
        Some(t) => if t > clock {
            t
        } else {
            clock
        },
        None => clock,
    }
}

pub fn seed(clock: i64, hwm: Option<i64>) -> (r: i64)
    ensures
        r == seeded(clock, hwm),
{
    match hwm {
        Some(t) => if t > clock {
            t
        } else {
            clock
        },
        None => clock,
    }
}

/// A database on a store.
pub open spec fn fresh_instance(s: StoreV) -> InstanceV {
    InstanceV {
        clock: seeded(0, s.hwm),
        customs: Seq::empty(),
        store: opened(s),
        version: 0,
        callbacks: Seq::empty(),
    }
}

impl Instance {
    /// A database on a store.
    pub fn on(store: Store) -> (r: Self)
        ensures
            r@ == fresh_instance(store@),
    {
        let last = seed(0, store.hwm);
        Instance {
            db: Db { clock: TtClock { last }, customs: List::new() },
            store: open_store(store),
            version: 0,
            callbacks: List::new(),
        }
    }
}

/// A database of one of the engines.
pub enum DbInstance {
    /// Kept in memory.
    Mem(Instance),
    /// Kept by a handle that can be closed and opened again.
    Sqlite(Instance),
    /// Kept by a handle that can also wait for the disk.
    RocksDb(Instance),
}

/// The engine of a database. What a database answers does not depend on it.
#[derive(Clone, Copy, Debug, PartialEq, Eq, Structural)]
pub enum Engine {
    Mem,
    Sqlite,
    RocksDb,
}

/// The mathematical counterpart of [`DbInstance`].
#[verifier::ext_equal]
pub struct DbV {
    pub engine: Engine,
    pub inst: InstanceV,
}

impl View for DbInstance {
    type V = DbV;

    open spec fn view(&self) -> DbV {
        match *self {
            DbInstance::Mem(i) => DbV { engine: Engine::Mem, inst: i@ },
            DbInstance::Sqlite(i) => DbV { engine: Engine::Sqlite, inst: i@ },
            DbInstance::RocksDb(i) => DbV { engine: Engine::RocksDb, inst: i@ },
        }
    }
}

/// The database that an engine makes of a store.
pub open spec fn engine_on(engine: Seq<char>, s: StoreV) -> Result<DbV, Fault> {
    if engine == "mem"@ {
        Ok(DbV { engine: Engine::Mem, inst: fresh_instance(s) })
    } else if engine == "sqlite"@ {
        Ok(DbV { engine: Engine::Sqlite, inst: fresh_instance(s) })
    } else if engine == "rocksdb"@ {
        Ok(DbV { engine: Engine::RocksDb, inst: fresh_instance(s) })
    } else {
        Err(fault_on(ErrKind::UnknownEngine, engine))
    }
}

impl Default for DbInstance {
    fn default() -> (r: Self)
        ensures
            r@ == (DbV { engine: Engine::Mem, inst: fresh_instance(empty_store()) }),
    {
        DbInstance::Mem(Instance::on(Store::default()))
    }
}

impl DbInstance {
    /// A database of an engine on a store.
    pub fn open(engine: &str, storage: Store) -> (r: Result<Self, DbError>)
        ensures
            outcome(r) == engine_on(engine@, storage@),
    {
        if engine.to_owned() == "mem".to_owned() {
            Ok(DbInstance::Mem(Instance::on(storage)))
        } else if engine.to_owned() == "sqlite".to_owned() {
            Ok(DbInstance::Sqlite(Instance::on(storage)))
        } else if engine.to_owned() == "rocksdb".to_owned() {
            Ok(DbInstance::RocksDb(Instance::on(storage)))
        } else {
            Err(err_on(ErrKind::UnknownEngine, engine))
        }
    }

    /// An empty database of an engine. No engine has options, and what
    /// stands at the path is opened with [`DbInstance::open`].
    pub fn new(engine: &str, path: &str, options: &str) -> (r: Result<Self, DbError>)
        ensures
            outcome(r) == engine_on(engine@, empty_store()),
    {
        DbInstance::open(engine, Store::default())
    }

    /// The database without its engine.
    pub fn inner(&self) -> (r: &Instance)
        ensures
            r@ == self@.inst,
    {
        match self {
            DbInstance::Mem(i) => i,
            DbInstance::Sqlite(i) => i,
            DbInstance::RocksDb(i) => i,
        }
    }

    /// The database without its engine.
    pub fn inner_mut(&mut self) -> (r: &mut Instance)
        ensures
            *r == (match *old(self) {
                DbInstance::Mem(i) => i,
                DbInstance::Sqlite(i) => i,
                DbInstance::RocksDb(i) => i,
            }),
            *final(self) == (match *old(self) {
                DbInstance::Mem(_) => DbInstance::Mem(*final(r)),
                DbInstance::Sqlite(_) => DbInstance::Sqlite(*final(r)),
                DbInstance::RocksDb(_) => DbInstance::RocksDb(*final(r)),
            }),
    {
        match self {
            DbInstance::Mem(i) => i,
            DbInstance::Sqlite(i) => i,
            DbInstance::RocksDb(i) => i,
        }
    }

    /// What the database keeps, once it is closed.
    pub fn into_storage(self) -> (r: Store)
        ensures
            r@ == self@.inst.store,
    {
        match self {
            DbInstance::Mem(i) => i.store,
            DbInstance::Sqlite(i) => i.store,
            DbInstance::RocksDb(i) => i.store,
        }
    }

    /// The clock of transactions.
    pub fn tt_clock(&self) -> (r: &TtClock)
        ensures
            r@ == self@.inst.clock,
    {
        self.inner().tt_clock()
    }

    /// Asks for every write to be on the disk before it is reported; tells
    /// whether the engine can wait for it.
    pub fn set_durable_writes(&self, on: bool) -> (r: bool)
        ensures
            r == (self@.engine == Engine::RocksDb),
    {
        match self {
            DbInstance::RocksDb(_) => true,
            _ => false,
        }
    }

    /// Runs a script at an instant. Where it fails, nothing changes.
    pub fn run_script_at(
        &mut self,
        script: &str,
        params: &Params,
        mutability: ScriptMutability,
        now: i64,
    ) -> (r: Result<NamedRows, DbError>)
        ensures
            final(self)@.engine == old(self)@.engine,
            follows(
                old(self)@.inst,
                final(self)@.inst,
                r,
                after_script(old(self)@.inst, script@, params@, read_only(mutability), now),
            ),
    {
        self.inner_mut().run_script_at(script, params, mutability, now)
    }

    /// Runs a script in the present.
    pub fn run_script(&mut self, script: &str, params: &Params, mutability: ScriptMutability) -> (r:
        Result<NamedRows, DbError>)
        ensures
            final(self)@.engine == old(self)@.engine,
            exists|now: i64|
                now >= 0 && follows(
                    old(self)@.inst,
                    final(self)@.inst,
                    r,
                    #[trigger] after_script(
                        old(self)@.inst,
                        script@,
                        params@,
                        read_only(mutability),
                        now,
                    ),
                ),
    {
        let now = wall_clock_micros();
        self.run_script_at(script, params, mutability, now)
    }

    /// Runs a script without parameters that may write, in the present.
    pub fn run_default(&mut self, script: &str) -> (r: Result<NamedRows, DbError>)
        ensures
            final(self)@.engine == old(self)@.engine,
            exists|now: i64|
                now >= 0 && follows(
                    old(self)@.inst,
                    final(self)@.inst,
                    r,
                    #[trigger] after_script(old(self)@.inst, script@, Seq::empty(), false, now),
                ),
    {
        let now = wall_clock_micros();
        self.run_script_at(script, &Params::new(), ScriptMutability::Mutable, now)
    }
}

/// A relation that was exported.
pub struct Exported {
    pub name: String,
    pub rows: NamedRows,
}

/// The mathematical counterpart of [`Exported`].
pub struct ExportedV {
    pub name: Seq<char>,
    pub rows: SourceV,
}

impl View for Exported {
    type V = ExportedV;

    open spec fn view(&self) -> ExportedV {
        ExportedV { name: self.name@, rows: self.rows@ }
    }
}

/// Relations that were exported.
pub struct Export {
    pub items: List<Exported>,
}

impl View for Export {
    type V = Seq<ExportedV>;

    open spec fn view(&self) -> Seq<ExportedV> {
        self.items@
    }
}

/// The place of an exported relation from place `i` on, and the length where
/// there is none of the name.
pub open spec fn exported_at(items: Seq<ExportedV>, name: Seq<char>, i: int) -> int
    decreases items.len() - i,
{
    if i < 0 || i >= items.len() {
        items.len() as int
    } else if items[i].name == name {
        i
    } else {
        exported_at(items, name, i + 1)
    }
}

impl Export {
    /// The rows of a relation.
    pub fn get(&self, name: &str) -> (r: Option<&NamedRows>)
        ensures
            match r {
                Some(rows) => exported_at(self@, name@, 0) < self@.len() && rows@
                    == self@[exported_at(self@, name@, 0)].rows,
                None => exported_at(self@, name@, 0) >= self@.len(),
            },
    {
        let wanted = name.to_owned();
        let mut i: usize = 0;
        while i < self.items.len()
            invariant
                i <= self@.len(),
                wanted@ == name@,
                exported_at(self@, name@, 0) == exported_at(self@, name@, i as int),
            decreases self@.len() - i,
        {
            let e = self.items.get(i);
            if e.name == wanted {
                return Some(&e.rows);
            }
            i = i + 1;
        }
        None
    }
}

/// What exporting the relations of names from place `i` on gives.
pub open spec fn exported_from(
    rels: Seq<RelationV>,
    names: Seq<&str>,
    i: int,
    acc: Seq<ExportedV>,
) -> Result<Seq<ExportedV>, Fault>
    decreases names.len() - i,
{
    if i < 0 || i >= names.len() {
        Ok(acc)
    } else {
        match scanned(rels, names[i]@, None, None, None) {
            Err(f) => Err(f),
            Ok(rows) => exported_from(
                rels,
                names,
                i + 1,
                acc.push(ExportedV { name: names[i]@, rows }),
            ),
        }
    }
}

/// A registry with one more aggregation: refused where its name is reserved or
/// taken.
pub open spec fn registered(customs: Seq<CustomV>, c: CustomV) -> Result<Seq<CustomV>, Fault> {
    if is_builtin(c.name) {
        Err(fault_on(ErrKind::AggregateReserved, c.name))
    } else if custom_from(customs, c.name, 0) < customs.len() {
        Err(fault_on(ErrKind::AggregateRegistered, c.name))
    } else {
        Ok(customs.push(c))
    }
}

/// A registry with one more rule: refused where its name is reserved or taken.
pub open spec fn rule_registered(customs: Seq<CustomV>, c: CustomV) -> Result<Seq<CustomV>, Fault> {
    if is_own_rule(c.name) || rule_place(customs, c.name, 0) < customs.len() {
        Err(fault_on(ErrKind::FixedRuleExists, c.name))
    } else {
        Ok(customs.push(c))
    }
}

impl DbInstance {
    /// The rows of relations or indices.
    pub fn export_relations(&self, names: &[&str]) -> (r: Result<Export, DbError>)
        ensures
            outcome(r) == exported_from(self@.inst.store.rels, names@, 0, Seq::empty()),
    {
        let store = &self.inner().store;
        let mut items: List<Exported> = List::new();
        let mut i: usize = 0;
        while i < names.len()
            invariant
                i <= names@.len(),
                store@ == self@.inst.store,
                exported_from(self@.inst.store.rels, names@, 0, Seq::empty()) == exported_from(
                    self@.inst.store.rels,
                    names@,
                    i as int,
                    items@,
                ),
            decreases names@.len() - i,
        {
            let name = names[i].to_owned();
            match scan(&store.rels, &name, None, None, None) {
                Err(e) => {
                    return Err(e);
                },
                Ok(src) => {
                    items.push(Exported { name, rows: named(src) });
                },
            }
            i = i + 1;
        }
        Ok(Export { items })
    }

    /// Registers an aggregation under a name that is neither reserved nor
    /// taken. One that is registered as a meet may be used in recursion.
    pub fn register_custom_aggr(
        &mut self,
        name: String,
        is_meet: bool,
        op: Box<dyn MeetAggrObj>,
    ) -> (r: Result<(), DbError>)
        ensures
            match registered(
                old(self)@.inst.customs,
                (Custom { name, is_meet, op: CustomOp::Aggr(op) })@,
            ) {
                Ok(customs) => r is Ok && final(self)@ == (DbV {
                    inst: InstanceV { customs, ..old(self)@.inst },
                    ..old(self)@
                }),
                Err(f) => outcome(r) == Err::<(), Fault>(f) && final(self)@ == old(self)@,
            },
    {
        if reserved(&name) {
            return Err(err_on(ErrKind::AggregateReserved, name.as_str()));
        }
        let inst = self.inner_mut();
        if find_custom(&inst.db.customs, &name) < inst.db.customs.len() {
            return Err(err_on(ErrKind::AggregateRegistered, name.as_str()));
        }
        inst.db.customs.push(Custom { name, is_meet, op: CustomOp::Aggr(op) });
        Ok(())
    }

    /// Registers a rule under a name that is neither reserved nor taken.
    pub fn register_fixed_rule(&mut self, name: String, rule: Box<dyn FixedRule>) -> (r: Result<
        (),
        DbError,
    >)
        ensures
            match rule_registered(
                old(self)@.inst.customs,
                (Custom { name, is_meet: false, op: CustomOp::Rule(rule) })@,
            ) {
                Ok(customs) => r is Ok && final(self)@ == (DbV {
                    inst: InstanceV { customs, ..old(self)@.inst },
                    ..old(self)@
                }),
                Err(f) => outcome(r) == Err::<(), Fault>(f) && final(self)@ == old(self)@,
            },
    {
        let inst = self.inner_mut();
        if own_rule(&name) || find_custom_rule(&inst.db.customs, &name) < inst.db.customs.len() {
            return Err(err_on(ErrKind::FixedRuleExists, name.as_str()));
        }
        inst.db.customs.push(Custom { name, is_meet: false, op: CustomOp::Rule(rule) });
        Ok(())
    }

    /// Drops a registered aggregation; tells whether there was one.
    pub fn unregister_custom_aggr(&mut self, name: &str) -> (r: Result<bool, DbError>)
        ensures
            r is Ok,
            r->Ok_0 == (custom_from(old(self)@.inst.customs, name@, 0)
                < old(self)@.inst.customs.len()),
            final(self)@ == (if r->Ok_0 {
                DbV {
                    inst: InstanceV {
                        customs: old(self)@.inst.customs.remove(
                            custom_from(old(self)@.inst.customs, name@, 0),
                        ),
                        ..old(self)@.inst
                    },
                    ..old(self)@
                }
            } else {
                old(self)@
            }),
    {
        let inst = self.inner_mut();
        let k = find_custom(&inst.db.customs, &name.to_owned());
        if k < inst.db.customs.len() {
            let gone = inst.db.customs.remove(k);
            Ok(true)
        } else {
            Ok(false)
        }
    }
}

/// A transaction of several scripts, on a copy of the store.
pub struct MultiTx {
    pub store: Store,
    pub base: u64,
    pub write: bool,
}

/// The mathematical counterpart of [`MultiTx`].
#[verifier::ext_equal]
pub struct MultiTxV {
    pub store: StoreV,
    pub base: u64,
    pub write: bool,
}

impl View for MultiTx {
    type V = MultiTxV;

    open spec fn view(&self) -> MultiTxV {
        MultiTxV { store: self.store@, base: self.base, write: self.write }
    }
}

/// A store and the rows after a script inside a transaction.
pub open spec fn inside(
    store: StoreV,
    customs: Seq<CustomV>,
    script: Seq<char>,
    params: Seq<ParamV>,
    write: bool,
    now: i64,
) -> Result<DoneV, Fault> {
    match script_of(script, params) {
        Err(f) => Err(f),
        Ok(ss) => script_done(store, ss, customs, now, !write),
    }
}

impl DbInstance {
    /// Begins a transaction of several scripts.
    pub fn multi_transaction(&self, write: bool) -> (r: MultiTx)
        ensures
            r@ == (MultiTxV {
                store: self@.inst.store,
                base: self@.inst.version,
                write,
            }),
    {
        let i = self.inner();
        MultiTx { store: i.store.dup(), base: i.version, write }
    }
}

impl MultiTx {
    /// Runs a script inside the transaction, at an instant. Where it fails,
    /// nothing changes.
    pub fn run_script_at(&mut self, db: &DbInstance, script: &str, params: &Params, now: i64) -> (r:
        Result<NamedRows, DbError>)
        ensures
            match r {
                Ok(rows) => inside(
                    old(self)@.store,
                    db@.inst.customs,
                    script@,
                    params@,
                    old(self)@.write,
                    now,
                ) == Ok::<DoneV, Fault>(DoneV { store: final(self)@.store, out: rows@ }),
                Err(e) => inside(
                    old(self)@.store,
                    db@.inst.customs,
                    script@,
                    params@,
                    old(self)@.write,
                    now,
                ) == Err::<DoneV, Fault>(e@) && final(self)@.store == old(self)@.store,
            },
            final(self)@.base == old(self)@.base,
            final(self)@.write == old(self)@.write,
    {
        match parse(script, &params.items) {
            Err(e) => Err(e),
            Ok(ss) => match run_script(
                self.store.dup(),
                &ss,
                &db.inner().db.customs,
                now,
                !self.write,
            ) {
                Err(e) => Err(e),
                Ok(d) => {
                    self.store = d.store;
                    Ok(named(d.out))
                },
            },
        }
    }

    /// Runs a script inside the transaction, in the present.
    pub fn run_script(&mut self, db: &DbInstance, script: &str, params: &Params) -> (r: Result<
        NamedRows,
        DbError,
    >)
        ensures
            exists|now: i64|
                now >= 0 && {
                    let t = #[trigger] inside(
                        old(self)@.store,
                        db@.inst.customs,
                        script@,
                        params@,
                        old(self)@.write,
                        now,
                    );
                    match r {
                        Ok(rows) => t == Ok::<DoneV, Fault>(
                            DoneV { store: final(self)@.store, out: rows@ },
                        ),
                        Err(e) => t == Err::<DoneV, Fault>(e@) && final(self)@.store
                            == old(self)@.store,
                    }
                },
            final(self)@.base == old(self)@.base,
            final(self)@.write == old(self)@.write,
    {
        let now = wall_clock_micros();
        self.run_script_at(db, script, params, now)
    }

    /// Commits the transaction at an instant. One that could write is refused
    /// where another such was committed since it began.
    pub fn commit_at(self, db: &mut DbInstance, now: i64) -> (r: Result<(), DbError>)
        ensures
            final(db)@.engine == old(db)@.engine,
            match commit_result(self@, old(db)@.inst, now) {
                Ok(i) => r is Ok && final(db)@.inst == i,
                Err(f) => outcome(r) == Err::<(), Fault>(f) && final(db)@ == old(db)@,
            },
    {
        let inst = db.inner_mut();
        if !self.write {
            return Ok(());
        }
        if inst.version != self.base {
            return Err(err(ErrKind::Conflict));
        }
        let events = self.store.events.dup();
        match commit_store(&mut inst.db.clock, self.store, now) {
            Err(e) => Err(e),
            Ok(s) => {
                inst.store = s;
                inst.version = bump(inst.version);
                inform(&mut inst.callbacks, &events);
                Ok(())
            },
        }
    }

    /// Commits the transaction in the present.
    pub fn commit(self, db: &mut DbInstance) -> (r: Result<(), DbError>)
        ensures
            final(db)@.engine == old(db)@.engine,
            exists|now: i64|
                now >= 0 && match #[trigger] commit_result(self@, old(db)@.inst, now) {
                    Ok(i) => r is Ok && final(db)@.inst == i,
                    Err(f) => outcome(r) == Err::<(), Fault>(f) && final(db)@ == old(db)@,
                },
    {
        let now = wall_clock_micros();
        self.commit_at(db, now)
    }

    /// Drops the transaction: nothing of it remains.
    pub fn abort(self) -> (r: Result<(), DbError>)
        ensures
            r is Ok,
    {
        Ok(())
    }
}

/// A database after a transaction was committed.
pub open spec fn commit_result(t: MultiTxV, i: InstanceV, now: i64) -> Result<InstanceV, Fault> {
    if !t.write {
        Ok(i)
    } else if i.version != t.base {
        Err(fault(ErrKind::Conflict))
    } else {
        match committed(i.clock, t.store, now) {
            Err(f) => Err(f),
            Ok((clock, store)) => Ok(
                InstanceV {
                    clock,
                    store,
                    version: next_version(i.version),
                    callbacks: informed(i.callbacks, t.store.events),
                    ..i
                },
            ),
        }
    }
}

/// What a callback is told of.
#[derive(Clone, Copy, Debug, PartialEq, Eq, Structural)]
pub enum CallbackOp {
    /// Rows that were put.
    Put,
    /// Rows that were removed, by their keys.
    Rm,
}

/// What a callback is told of, by the kind of the write.
pub open spec fn callback_op(k: TrigKind) -> CallbackOp {
    match k {
        TrigKind::Rm => CallbackOp::Rm,
        _ => CallbackOp::Put,
    }
}

impl DbInstance {
    /// Asks to be told of the writes to a relation from now on; gives the number
    /// under which to ask for them.
    pub fn register_callback(&mut self, relation: &str) -> (r: usize)
        ensures
            r == old(self)@.inst.callbacks.len(),
            final(self)@ == (DbV {
                inst: InstanceV {
                    callbacks: old(self)@.inst.callbacks.push(
                        CallbackV { rel: relation@, queue: Seq::empty() },
                    ),
                    ..old(self)@.inst
                },
                ..old(self)@
            }),
    {
        let inst = self.inner_mut();
        let id = inst.callbacks.len();
        inst.callbacks.push(Callback { rel: relation.to_owned(), queue: List::new() });
        id
    }

    /// The next write that a callback is to be told of: what was done, with which
    /// rows, and which rows were there before. Nothing where there is none.
    pub fn try_recv(&mut self, id: usize) -> (r: Option<(CallbackOp, NamedRows, NamedRows)>)
        ensures
            ({
                let cbs = old(self)@.inst.callbacks;
                if id < cbs.len() && cbs[id as int].queue.len() > 0 {
                    let e = cbs[id as int].queue[0];
                    let rest = cbs[id as int].queue.remove(0);
                    let left = CallbackV { queue: rest, ..cbs[id as int] };
                    r matches Some((op, news, olds)) && op == callback_op(e.kind) && news@
                        == e.news && olds@ == e.olds && final(self)@ == (DbV {
                        inst: InstanceV {
                            callbacks: cbs.update(id as int, left),
                            ..old(self)@.inst
                        },
                        ..old(self)@
                    })
                } else {
                    r is None && final(self)@ == old(self)@
                }
            }),
    {
        let inst = self.inner_mut();
        if id >= inst.callbacks.len() || inst.callbacks.get(id).queue.len() == 0 {
            return None;
        }
        let rel = inst.callbacks.get(id).rel.clone();
        let mut queue = inst.callbacks.get(id).queue.dup();
        let e = queue.remove(0);
        inst.callbacks.set(id, Callback { rel, queue });
        let op = match e.kind {
            TrigKind::Rm => CallbackOp::Rm,
            _ => CallbackOp::Put,
        };
        Some((op, named(e.news), named(e.olds)))
    }
}

} // verus!
