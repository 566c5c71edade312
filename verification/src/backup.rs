//! Imports, backups, and writes of raw bytes.
use vstd::prelude::*;

use crate::aggr::{Custom, CustomV};
use crate::db::{
    NamedRows, commit_store, committed, list_of_rows, unnamed, value_of_rows, wall_clock_micros,
};
use crate::error::{DbError, ErrKind, Fault, err_on, fault_on, outcome};
use crate::expr::{Expr, ExprV};
use crate::instance::{
    DbInstance, DbV, InstanceV, bump, next_version, open_store, opened, seed, seeded,
};
use crate::lex::slice;
use crate::list::{Dup, List};
use crate::mutate::{
    columns_from_names, has_tt, loose_columns, ran, run_program, stamps, with_rel_at,
};
use crate::query::{
    Body, BodyV, HeadItem, HeadItemV, Program, ProgramV, Rule, RuleV, Write, WriteKind, WriteV,
};
use crate::scan::{Source, SourceV};
use crate::store::{
    Record, RecordV, Relation, RelationV, Store, StoreV, find_rel, rel_place, with_rec,
};
use crate::value::{Tuple, chars_of};
use crate::write::stored;

verus! {

/// Rows for a relation. A name behind a hyphen asks for them to be removed.
pub struct Import {
    pub name: String,
    pub rows: NamedRows,
}

/// The mathematical counterpart of [`Import`].
pub struct ImportV {
    pub name: Seq<char>,
    pub rows: SourceV,
}

impl View for Import {
    type V = ImportV;

    open spec fn view(&self) -> ImportV {
        ImportV { name: self.name@, rows: self.rows@ }
    }
}

/// Whether an import removes rows.
pub open spec fn removing(name: Seq<char>) -> bool {
    name.len() > 0 && name[0] == '-'
}

/// The relation that an import is for.
pub open spec fn target(name: Seq<char>) -> Seq<char> {
    if removing(name) {
        name.subrange(1, name.len() as int)
    } else {
        name
    }
}

fn target_of(name: &String) -> (r: (bool, String))
    ensures
        r.0 == removing(name@),
        r.1@ == target(name@),
{
    let c = chars_of(name.as_str());
    if c.len() > 0 && c[0] == '-' {
        (true, slice(&c, 1, c.len()))
    } else {
        (false, name.clone())
    }
}

/// Columns of a head with these names.
pub open spec fn plain_head(ns: Seq<Seq<char>>) -> Seq<HeadItemV> {
    Seq::new(ns.len(), |i: int| HeadItemV { var: ns[i], aggr: None })
}

fn head_of_names(ns: &List<String>) -> (r: List<HeadItem>)
    ensures
        r@ == plain_head(ns@),
{
    let mut r: List<HeadItem> = List::new();
    let mut i: usize = 0;
    while i < ns.len()
        invariant
            i <= ns@.len(),
            r@ =~= plain_head(ns@).take(i as int),
        decreases ns@.len() - i,
    {
        r.push(HeadItem { var: ns.get(i).clone(), aggr: None });
        i = i + 1;
    }
    assert(plain_head(ns@).take(i as int) =~= plain_head(ns@));
    r
}

/// The query that writes (or removes) rows.
pub open spec fn import_query(rel: Seq<char>, rm: bool, src: SourceV) -> ProgramV {
    ProgramV {
        rules: seq![
            RuleV {
                name: "?"@,
                head: plain_head(src.cols),
                body: BodyV::Rows(ExprV::Const(list_of_rows(src.rows))),
            },
        ],
        limit: None,
        offset: 0,
        sort: Seq::empty(),
        as_of: None,
        returning: false,
        write: Some(
            WriteV {
                kind: if rm {
                    WriteKind::Rm
                } else {
                    WriteKind::Put
                },
                rel,
                keys: loose_columns(src.cols),
                vals: Seq::empty(),
            },
        ),
    }
}

fn query_of_import(rel: String, rm: bool, src: &Source) -> (r: Program)
    ensures
        r@ == import_query(rel@, rm, src@),
{
    let mut rules: List<Rule> = List::new();
    rules.push(
        Rule {
            name: "?".to_owned(),
            head: head_of_names(&src.cols),
            body: Body::Rows(Expr::Const(value_of_rows(&src.rows))),
        },
    );
    let p = Program {
        rules,
        limit: None,
        offset: 0,
        sort: List::new(),
        as_of: None,
        returning: false,
        write: Some(
            Write {
                kind: if rm {
                    WriteKind::Rm
                } else {
                    WriteKind::Put
                },
                rel,
                keys: columns_from_names(&src.cols),
                vals: List::new(),
            },
        ),
    };
    assert(p@.rules =~= import_query(rel@, rm, src@).rules);
    p
}

/// A store after the imports from place `i` on.
pub open spec fn imported_from(
    store: StoreV,
    items: Seq<ImportV>,
    customs: Seq<CustomV>,
    now: i64,
    i: int,
) -> Result<StoreV, Fault>
    decreases items.len() - i,
{
    if i < 0 || i >= items.len() {
        Ok(store)
    } else {
        let rel = target(items[i].name);
        let rm = removing(items[i].name);
        let p = rel_place(store.rels, rel);
        if rm && p < store.rels.len() && has_tt(store.rels[p].keys) {
            Err(fault_on(ErrKind::DeleteImport, rel))
        } else {
            match ran(store, import_query(rel, rm, items[i].rows), customs, now, false) {
                Err(f) => Err(f),
                Ok(d) => imported_from(d.store, items, customs, now, i + 1),
            }
        }
    }
}

fn import_all(store: Store, items: &List<Import>, customs: &List<Custom>, now: i64) -> (r: Result<
    Store,
    DbError,
>)
    ensures
        outcome(r) == imported_from(store@, items@, customs@, now, 0),
{
    let ghost goal = imported_from(store@, items@, customs@, now, 0);
    let mut cur = store;
    let mut i: usize = 0;
    while i < items.len()
        invariant
            i <= items@.len(),
            goal == imported_from(store@, items@, customs@, now, 0),
            goal == imported_from(cur@, items@, customs@, now, i as int),
        decreases items@.len() - i,
    {
        let item = items.get(i);
        let (rm, rel) = target_of(&item.name);
        let p = find_rel(&cur.rels, &rel);
        if rm && p < cur.rels.len() && stamps(&cur.rels.get(p).keys) {
            return Err(err_on(ErrKind::DeleteImport, rel.as_str()));
        }
        let src = unnamed(&item.rows);
        let q = query_of_import(rel, rm, &src);
        match run_program(cur, &q, customs, now, false) {
            Err(e) => {
                return Err(e);
            },
            Ok(d) => {
                cur = d.store;
            },
        }
        i = i + 1;
    }
    Ok(cur)
}

/// A database after an import: all of it is one transaction.
pub open spec fn after_import(
    i: InstanceV,
    items: Seq<ImportV>,
    now: i64,
) -> Result<InstanceV, Fault> {
    match imported_from(i.store, items, i.customs, now, 0) {
        Err(f) => Err(f),
        Ok(s) => match committed(i.clock, s, now) {
            Err(f) => Err(f),
            Ok((clock, store)) => Ok(
                InstanceV { clock, store, version: next_version(i.version), ..i },
            ),
        },
    }
}

impl DbInstance {
    /// Imports rows at an instant, all in one transaction.
    pub fn import_relations_at(
        &mut self,
        items: &List<Import>,
        now: i64,
    ) -> (r: Result<(), DbError>)
        ensures
            final(self)@.engine == old(self)@.engine,
            match after_import(old(self)@.inst, items@, now) {
                Ok(i) => r is Ok && final(self)@.inst == i,
                Err(f) => outcome(r) == Err::<(), Fault>(f) && final(self)@ == old(self)@,
            },
    {
        let inst = self.inner_mut();
        match import_all(inst.store.dup(), items, &inst.db.customs, now) {
            Err(e) => Err(e),
            Ok(s) => match commit_store(&mut inst.db.clock, s, now) {
                Err(e) => Err(e),
                Ok(done) => {
                    inst.store = done;
                    inst.version = bump(inst.version);
                    Ok(())
                },
            },
        }
    }

    /// Imports rows in the present.
    pub fn import_relations(&mut self, items: &List<Import>) -> (r: Result<(), DbError>)
        ensures
            final(self)@.engine == old(self)@.engine,
            exists|now: i64|
                now >= 0 && match #[trigger] after_import(old(self)@.inst, items@, now) {
                    Ok(i) => r is Ok && final(self)@.inst == i,
                    Err(f) => outcome(r) == Err::<(), Fault>(f) && final(self)@ == old(self)@,
                },
    {
        let now = wall_clock_micros();
        self.import_relations_at(items, now)
    }

    /// A copy of everything that the database keeps.
    pub fn backup_db(&self) -> (r: Store)
        ensures
            r@ == self@.inst.store,
    {
        self.inner().store.dup()
    }

    /// Puts a backup in place of everything that the database keeps. The clock
    /// goes on behind every time in the backup.
    pub fn restore_backup(&mut self, backup: &Store) -> (r: Result<(), DbError>)
        ensures
            r is Ok,
            final(self)@ == (DbV {
                inst: InstanceV {
                    clock: seeded(old(self)@.inst.clock, backup@.hwm),
                    store: opened(backup@),
                    version: next_version(old(self)@.inst.version),
                    ..old(self)@.inst
                },
                ..old(self)@
            }),
    {
        let inst = self.inner_mut();
        inst.db.clock.last = seed(inst.db.clock.last, backup.hwm);
        inst.store = open_store(backup.dup());
        inst.version = bump(inst.version);
        Ok(())
    }
}

/// Records with those of others, from place `i` on, among them.
pub open spec fn merged_from(recs: Seq<RecordV>, more: Seq<RecordV>, i: int) -> Seq<RecordV>
    decreases more.len() - i,
{
    if i < 0 || i >= more.len() {
        recs
    } else {
        merged_from(with_rec(recs, more[i].key, more[i].blob), more, i + 1)
    }
}

fn merge_recs(recs: List<Record>, more: &List<Record>) -> (r: List<Record>)
    ensures
        r@ == merged_from(recs@, more@, 0),
{
    let ghost goal = merged_from(recs@, more@, 0);
    let mut out = recs;
    let mut i: usize = 0;
    while i < more.len()
        invariant
            i <= more@.len(),
            goal == merged_from(out@, more@, i as int),
        decreases more@.len() - i,
    {
        let m = more.get(i).dup();
        out = stored(out, m.key, m.blob);
        i = i + 1;
    }
    out
}

/// A store with the records of relations of a backup, from place `i` on.
pub open spec fn taken_from(store: StoreV, backup: StoreV, names: Seq<&str>, i: int) -> Result<
    StoreV,
    Fault,
>
    decreases names.len() - i,
{
    if i < 0 || i >= names.len() {
        Ok(store)
    } else {
        let p = rel_place(store.rels, names[i]@);
        let q = rel_place(backup.rels, names[i]@);
        if q >= backup.rels.len() || p >= store.rels.len() {
            Err(fault_on(ErrKind::RelationNotFound, names[i]@))
        } else if has_tt(backup.rels[q].keys) || has_tt(store.rels[p].keys) {
            Err(fault_on(ErrKind::ImportTt, names[i]@))
        } else if backup.rels[q].keys.len() != store.rels[p].keys.len()
            || backup.rels[q].vals.len() != store.rels[p].vals.len() {
            Err(fault_on(ErrKind::ArityMismatch, names[i]@))
        } else {
            match crate::mutate::refreshed(
                RelationV {
                    recs: merged_from(store.rels[p].recs, backup.rels[q].recs, 0),
                    ..store.rels[p]
                },
            ) {
                Err(f) => Err(f),
                Ok(rel) => taken_from(
                    StoreV { rels: store.rels.update(p, rel), ..store },
                    backup,
                    names,
                    i + 1,
                ),
            }
        }
    }
}

fn take_relations(store: Store, backup: &Store, names: &[&str]) -> (r: Result<Store, DbError>)
    ensures
        outcome(r) == taken_from(store@, backup@, names@, 0),
{
    let ghost goal = taken_from(store@, backup@, names@, 0);
    let mut cur = store;
    let mut i: usize = 0;
    while i < names.len()
        invariant
            i <= names@.len(),
            goal == taken_from(store@, backup@, names@, 0),
            goal == taken_from(cur@, backup@, names@, i as int),
        decreases names@.len() - i,
    {
        let name = names[i].to_owned();
        let p = find_rel(&cur.rels, &name);
        let q = find_rel(&backup.rels, &name);
        if q >= backup.rels.len() || p >= cur.rels.len() {
            return Err(err_on(ErrKind::RelationNotFound, names[i]));
        }
        if stamps(&backup.rels.get(q).keys) || stamps(&cur.rels.get(p).keys) {
            return Err(err_on(ErrKind::ImportTt, names[i]));
        }
        if backup.rels.get(q).keys.len() != cur.rels.get(p).keys.len() || backup.rels.get(
            q,
        ).vals.len() != cur.rels.get(p).vals.len() {
            return Err(err_on(ErrKind::ArityMismatch, names[i]));
        }
        let rel = cur.rels.get(p).dup();
        let recs = merge_recs(rel.recs.dup(), &backup.rels.get(q).recs);
        match crate::mutate::refresh(Relation { recs, ..rel }) {
            Err(e) => {
                return Err(e);
            },
            Ok(next) => {
                cur = Store { rels: with_rel_at(cur.rels, p, next), ..cur };
            },
        }
        i = i + 1;
    }
    Ok(cur)
}

impl DbInstance {
    /// Takes the records of relations from a backup; those with transaction
    /// times are refused.
    pub fn import_from_backup(&mut self, backup: &Store, names: &[&str]) -> (r: Result<(), DbError>)
        ensures
            match taken_from(old(self)@.inst.store, backup@, names@, 0) {
                Ok(store) => r is Ok && final(self)@ == (DbV {
                    inst: InstanceV {
                        store,
                        version: next_version(old(self)@.inst.version),
                        ..old(self)@.inst
                    },
                    ..old(self)@
                }),
                Err(f) => outcome(r) == Err::<(), Fault>(f) && final(self)@ == old(self)@,
            },
    {
        let inst = self.inner_mut();
        match take_relations(inst.store.dup(), backup, names) {
            Err(e) => Err(e),
            Ok(s) => {
                inst.store = s;
                inst.version = bump(inst.version);
                Ok(())
            },
        }
    }

    /// Keeps bytes under a key of a relation, whatever they are.
    pub fn put_raw(&mut self, relation: &str, key: Tuple, blob: Vec<u8>) -> (r: Result<(), DbError>)
        ensures
            ({
                let store = old(self)@.inst.store;
                let p = rel_place(store.rels, relation@);
                if p < store.rels.len() {
                    r is Ok && final(self)@ == (DbV {
                        inst: InstanceV {
                            store: StoreV {
                                rels: store.rels.update(
                                    p,
                                    RelationV {
                                        recs: with_rec(store.rels[p].recs, key@, blob@),
                                        ..store.rels[p]
                                    },
                                ),
                                ..store
                            },
                            version: next_version(old(self)@.inst.version),
                            ..old(self)@.inst
                        },
                        ..old(self)@
                    })
                } else {
                    outcome(r) == Err::<(), Fault>(
                        fault_on(ErrKind::RelationNotFound, relation@),
                    ) && final(self)@ == old(self)@
                }
            }),
    {
        let inst = self.inner_mut();
        let p = find_rel(&inst.store.rels, &relation.to_owned());
        if p >= inst.store.rels.len() {
            return Err(err_on(ErrKind::RelationNotFound, relation));
        }
        let rel = inst.store.rels.get(p).dup();
        let recs = stored(rel.recs, key, blob);
        inst.store.rels.set(
            p,
            Relation {
                recs,
                name: rel.name,
                id: rel.id,
                keys: rel.keys,
                vals: rel.vals,
                access: rel.access,
                triggers: rel.triggers,
                indices: rel.indices,
                searches: rel.searches,
                floor: rel.floor,
            },
        );
        inst.version = bump(inst.version);
        Ok(())
    }
}

} // verus!
