//! Databases in states that are worth having at hand.
use vstd::prelude::*;

use crate::codec::decode_row_of;
use crate::db::{Params, ScriptMutability, empty_store, wall_clock_micros};
use crate::error::{DbError, ErrKind, Fault, fault, fault_on};
use crate::history_run::lemma_create_refused;
use crate::instance::{
    DbInstance, DbV, Engine, InstanceV, after_script, bump, engine_on, next_version,
};
use crate::law_history::{in_time, is_engine, is_history, law_history_is_made, lemma_create_script};
use crate::list::{Dup, List};
use crate::scan::SourceV;
use crate::search::{find_search, listed_in, search_from};
use crate::store::{
    Lookup, Record, RecordV, RelationV, Search, SearchV, StoreV, find_rel, rel_place,
};
use crate::value::Value;

verus! {

/// Bytes that are not those of a row.
pub open spec fn garbage() -> Seq<u8> {
    seq![0x91u8, 0x01u8, 0x02u8]
}

/// Those bytes cannot be read, neither as a row nor as what an index keeps.
pub proof fn law_garbage_cannot_be_read()
    ensures
        decode_row_of(garbage()) is None,
        listed_in(garbage()) == Err::<Seq<Value>, Fault>(fault(ErrKind::CorruptBlob)),
{
}

/// Records with those bytes under every key.
pub open spec fn garbled(recs: Seq<RecordV>) -> Seq<RecordV> {
    Seq::new(recs.len(), |i: int| RecordV { key: recs[i].key, blob: garbage() })
}

fn garble(recs: &List<Record>) -> (r: List<Record>)
    ensures
        r@ == garbled(recs@),
{
    let mut r: List<Record> = List::new();
    let mut i: usize = 0;
    while i < recs.len()
        invariant
            i <= recs@.len(),
            r@ =~= garbled(recs@).take(i as int),
        decreases recs@.len() - i,
    {
        let mut blob: Vec<u8> = Vec::new();
        blob.push(0x91);
        blob.push(0x01);
        blob.push(0x02);
        assert(blob@ =~= garbage());
        r.push(Record { key: recs.get(i).key.dup(), blob });
        i = i + 1;
    }
    assert(garbled(recs@).take(i as int) =~= garbled(recs@));
    r
}

/// A relation with garbled records in one of its search indices.
pub open spec fn with_garbled(rel: RelationV, k: int) -> RelationV {
    RelationV {
        searches: rel.searches.update(
            k,
            SearchV { recs: garbled(rel.searches[k].recs), ..rel.searches[k] },
        ),
        ..rel
    }
}

/// Makes every record of a search index unreadable, keeping its keys. The
/// relation and the index are there, the index is of the kind that is told, and
/// it holds records.
pub fn corrupt_all_index_values(db: &mut DbInstance, relation: &str, index: &str, hnsw: bool)
    requires
        old(db)@.engine == Engine::Sqlite,
        rel_place(old(db)@.inst.store.rels, relation@) < old(db)@.inst.store.rels.len(),
        ({
            let rel = old(db)@.inst.store.rels[rel_place(
                old(db)@.inst.store.rels,
                relation@,
            )];
            let k = search_from(rel.searches, index@, 0);
            k < rel.searches.len() && rel.searches[k].kind == (if hnsw {
                Lookup::Vectors
            } else {
                Lookup::Words
            }) && rel.searches[k].recs.len() > 0
        }),
    ensures
        ({
            let store = old(db)@.inst.store;
            let p = rel_place(store.rels, relation@);
            final(db)@ == (DbV {
                inst: InstanceV {
                    store: StoreV {
                        rels: store.rels.update(
                            p,
                            with_garbled(
                                store.rels[p],
                                search_from(store.rels[p].searches, index@, 0),
                            ),
                        ),
                        ..store
                    },
                    version: next_version(old(db)@.inst.version),
                    ..old(db)@.inst
                },
                ..old(db)@
            })
        }),
{
    let inst = db.inner_mut();
    let p = find_rel(&inst.store.rels, &relation.to_owned());
    let mut rel = inst.store.rels.get(p).dup();
    let ghost before = rel@;
    let k = find_search(&rel.searches, &index.to_owned());
    let s = rel.searches.get(k).dup();
    let recs = garble(&s.recs);
    rel.searches.set(k, Search { recs, ..s });
    assert(rel@ =~= with_garbled(before, k as int));
    inst.store.rels.set(p, rel);
    inst.version = bump(inst.version);
}

/// The scripts that make a history of one fact: it is 1 from instant 100, 2 from
/// instant 200, corrected to 3 from there, and ceases at instant 300.
pub open spec fn history_script(i: int) -> Seq<char> {
    if i == 0 {
        ":create hist {k, v: Validity, tt: TxTime => x: Int}"@
    } else if i == 1 {
        "?[k, v, x] <- [[1, [100, true], 1]] :put hist {k, v => x}"@
    } else if i == 2 {
        "?[k, v, x] <- [[1, [200, true], 2]] :put hist {k, v => x}"@
    } else if i == 3 {
        "?[k, v, x] <- [[1, [200, true], 3]] :put hist {k, v => x}"@
    } else {
        "?[k, v, x] <- [[1, [300, false], 0]] :put hist {k, v => x}"@
    }
}

fn script_of_history(i: usize) -> (r: &'static str)
    ensures
        r@ == history_script(i as int),
{
    if i == 0 {
        ":create hist {k, v: Validity, tt: TxTime => x: Int}"
    } else if i == 1 {
        "?[k, v, x] <- [[1, [100, true], 1]] :put hist {k, v => x}"
    } else if i == 2 {
        "?[k, v, x] <- [[1, [200, true], 2]] :put hist {k, v => x}"
    } else if i == 3 {
        "?[k, v, x] <- [[1, [200, true], 3]] :put hist {k, v => x}"
    } else {
        "?[k, v, x] <- [[1, [300, false], 0]] :put hist {k, v => x}"
    }
}

/// The database after the first `n` scripts, run at these instants.
pub open spec fn history_after(start: InstanceV, nows: Seq<i64>, n: nat) -> Result<InstanceV, Fault>
    decreases n,
{
    if n == 0 {
        Ok(start)
    } else {
        match history_after(start, nows, (n - 1) as nat) {
            Err(f) => Err(f),
            Ok(i) => match after_script(i, history_script(n - 1), Seq::empty(), false, nows[n - 1]) {
                Err(f) => Err(f),
                Ok((j, _)) => Ok(j),
            },
        }
    }
}

/// The time of the write that script `i` makes, its scripts run at these
/// instants.
pub open spec fn history_time(start: InstanceV, nows: Seq<i64>, i: int) -> i64 {
    match history_after(start, nows, (i + 1) as nat) {
        Ok(j) => j.clock,
        Err(_) => 0,
    }
}

/// The database of the history and the times of its four writes, its scripts
/// run at these instants.
pub open spec fn history_of(engine: Seq<char>, nows: Seq<i64>) -> Result<(DbV, Seq<i64>), Fault> {
    match engine_on(engine, empty_store()) {
        Err(f) => Err(f),
        Ok(start) => match history_after(start.inst, nows, 5) {
            Err(f) => Err(f),
            Ok(inst) => Ok(
                (
                    DbV { engine: start.engine, inst },
                    Seq::new(4, |i: int| history_time(start.inst, nows, i + 1)),
                ),
            ),
        },
    }
}

/// What making the history gave.
pub open spec fn history_outcome(r: Result<(DbInstance, [i64; 4]), DbError>) -> Result<
    (DbV, Seq<i64>),
    Fault,
> {
    match r {
        Ok((db, tts)) => Ok((db@, tts@)),
        Err(e) => Err(e@),
    }
}

/// Runs one script of the history in the present.
fn run_history(db: &mut DbInstance, i: usize) -> (r: Result<Ghost<i64>, DbError>)
    ensures
        final(db)@.engine == old(db)@.engine,
        match r {
            Ok(now) => now@ >= 0 && (after_script(
                old(db)@.inst,
                history_script(i as int),
                Seq::empty(),
                false,
                now@,
            ) matches Ok((inst, _)) && inst == final(db)@.inst),
            Err(e) => exists|now: i64|
                now >= 0 && #[trigger] after_script(
                    old(db)@.inst,
                    history_script(i as int),
                    Seq::empty(),
                    false,
                    now,
                ) == Err::<(InstanceV, SourceV), Fault>(e@),
        },
{
    let now = wall_clock_micros();
    match db.run_script_at(
        script_of_history(i),
        &Params::new(),
        ScriptMutability::Mutable,
        now,
    ) {
        Ok(_) => Ok(Ghost(now)),
        Err(e) => {
            assert(after_script(
                old(db)@.inst,
                history_script(i as int),
                Seq::empty(),
                false,
                now,
            ) == Err::<(InstanceV, SourceV), Fault>(e@));
            Err(e)
        },
    }
}

/// A database with a history of one fact, and the transaction times of the four
/// writes that made it. The engine is one that there is.
pub fn bitemporal_fixture(engine: &str, path: &str) -> (r: Result<(DbInstance, [i64; 4]), DbError>)
    requires
        is_engine(engine@),
    ensures
        exists|nows: Seq<i64>| #[trigger]
            history_of(engine@, nows) == history_outcome(r) && nows.len() == 5 && forall|k: int|
                0 <= k < 5 ==> #[trigger] nows[k] >= 0,
        r matches Ok((db, times)) ==> is_history(db@, times@),
        r matches Err(e) ==> e@ == fault(ErrKind::ClockExhausted),
{
    let mut db = match DbInstance::new(engine, path, "") {
        Ok(d) => d,
        Err(e) => {
            let ghost any = Seq::new(5, |i: int| 0i64);
            assert(history_of(engine@, any) == Err::<(DbV, Seq<i64>), Fault>(e@));
            proof {
                law_history_is_made(engine@, any);
            }
            return Err(e);
        },
    };
    let ghost start = db@;
    let ghost mut nows: Seq<i64> = Seq::empty();
    let mut tts: Vec<i64> = Vec::new();
    let mut i: usize = 0;
    while i < 5
        invariant
            i <= 5,
            engine_on(engine@, empty_store()) == Ok::<DbV, Fault>(start),
            nows.len() == i,
            forall|k: int| 0 <= k < i ==> #[trigger] nows[k] >= 0,
            db@.engine == start.engine,
            history_after(start.inst, nows, i as nat) == Ok::<InstanceV, Fault>(db@.inst),
            tts@.len() == i,
            forall|k: int|
                0 <= k < i ==> #[trigger] tts@[k] == history_time(start.inst, nows, k),
        decreases 5 - i,
    {
        let ghost earlier = nows;
        let ghost was = db@.inst;
        match run_history(&mut db, i) {
            Err(e) => {
                proof {
                    let now = choose|now: i64|
                        now >= 0 && #[trigger] after_script(
                            was,
                            history_script(i as int),
                            Seq::empty(),
                            false,
                            now,
                        ) == Err::<(InstanceV, SourceV), Fault>(e@);
                    let all = earlier + Seq::new((5 - i) as nat, |j: int| now);
                    lemma_history_prefix(start.inst, earlier, all, i as nat);
                    assert(all[i as int] == now);
                    assert(history_after(start.inst, all, (i + 1) as nat) == Err::<
                        InstanceV,
                        Fault,
                    >(e@));
                    lemma_history_fails(start.inst, all, (i + 1) as nat, 5);
                    assert(history_of(engine@, all) == Err::<(DbV, Seq<i64>), Fault>(e@));
                    assert(all.len() == 5);
                    law_history_is_made(engine@, all);
                }
                return Err(e);
            },
            Ok(now) => {
                proof {
                    nows = earlier.push(now@);
                    lemma_history_prefix(start.inst, earlier, nows, i as nat);
                    assert(nows[i as int] == now@);
                    assert(history_after(start.inst, nows, (i + 1) as nat) == Ok::<
                        InstanceV,
                        Fault,
                    >(db@.inst));
                }
            },
        }
        let t: i64 = db.tt_clock().peek();
        tts.push(t);
        assert forall|k: int| 0 <= k < i + 1 implies #[trigger] tts@[k] == history_time(
            start.inst,
            nows,
            k,
        ) by {
            if k < i {
                lemma_history_prefix(start.inst, earlier, nows, (k + 1) as nat);
            }
        }
        i = i + 1;
    }
    let times: [i64; 4] = [tts[1], tts[2], tts[3], tts[4]];
    assert(times@ =~= Seq::new(4, |i: int| history_time(start.inst, nows, i + 1)));
    let r: Result<(DbInstance, [i64; 4]), DbError> = Ok((db, times));
    assert(history_of(engine@, nows) == history_outcome(r));
    proof {
        law_history_is_made(engine@, nows);
    }
    r
}

/// The database that the first `n` scripts lead to, run at these instants up to
/// the first that fails.
pub open spec fn history_reached(start: InstanceV, nows: Seq<i64>, n: nat) -> InstanceV
    decreases n,
{
    match history_after(start, nows, n) {
        Ok(i) => i,
        Err(_) => if n == 0 {
            start
        } else {
            history_reached(start, nows, (n - 1) as nat)
        },
    }
}

/// Whether the relation of the history is in a database.
pub open spec fn has_history(i: InstanceV) -> bool {
    rel_place(i.store.rels, "hist"@) < i.store.rels.len()
}

/// How such a database refuses another history.
pub open spec fn history_refusal(i: InstanceV) -> Fault {
    if i.store.tick == u64::MAX {
        fault(ErrKind::IdsExhausted)
    } else {
        fault_on(ErrKind::RelationExists, "hist"@)
    }
}

/// Makes the history in a database, its scripts run at given instants, and gives
/// the times of its four writes. It fails where the relation is there already:
/// then nothing changes.
pub fn record_history(db: &mut DbInstance, nows: &[i64; 5]) -> (r: Result<[i64; 4], DbError>)
    ensures
        final(db)@.engine == old(db)@.engine,
        final(db)@.inst == history_reached(old(db)@.inst, nows@, 5),
        match r {
            Ok(times) => history_after(old(db)@.inst, nows@, 5) is Ok && times@ == Seq::new(
                4,
                |i: int| history_time(old(db)@.inst, nows@, i + 1),
            ),
            Err(e) => history_after(old(db)@.inst, nows@, 5) == Err::<InstanceV, Fault>(e@),
        },
        has_history(old(db)@.inst) ==> final(db)@ == old(db)@ && (r matches Err(e) && e@
            == history_refusal(old(db)@.inst)),
{
    let ghost start = db@;
    let mut tts: Vec<i64> = Vec::new();
    let mut i: usize = 0;
    proof {
        lemma_history_exists(start.inst, nows@);
    }
    while i < 5
        invariant
            i <= 5,
            db@.engine == start.engine,
            start == old(db)@,
            history_after(start.inst, nows@, i as nat) == Ok::<InstanceV, Fault>(db@.inst),
            tts@.len() == i,
            forall|k: int|
                0 <= k < i ==> #[trigger] tts@[k] == history_time(start.inst, nows@, k),
            has_history(start.inst) ==> i == 0 && after_script(
                start.inst,
                history_script(0),
                Seq::empty(),
                false,
                nows@[0],
            ) == Err::<(InstanceV, SourceV), Fault>(history_refusal(start.inst)),
        decreases 5 - i,
    {
        match db.run_script_at(
            script_of_history(i),
            &Params::new(),
            ScriptMutability::Mutable,
            nows[i],
        ) {
            Err(e) => {
                proof {
                    assert(history_after(start.inst, nows@, (i + 1) as nat) == Err::<
                        InstanceV,
                        Fault,
                    >(e@));
                    lemma_history_fails(start.inst, nows@, (i + 1) as nat, 5);
                    lemma_history_stops(start.inst, nows@, i as nat, 5);
                }
                return Err(e);
            },
            Ok(_) => {
                assert(history_after(start.inst, nows@, (i + 1) as nat) == Ok::<InstanceV, Fault>(
                    db@.inst,
                ));
            },
        }
        let t: i64 = db.tt_clock().peek();
        tts.push(t);
        i = i + 1;
    }
    let times: [i64; 4] = [tts[1], tts[2], tts[3], tts[4]];
    assert(times@ =~= Seq::new(4, |i: int| history_time(start.inst, nows@, i + 1)));
    Ok(times)
}

/// The database of [`bitemporal_fixture`] with the scripts of its history run at
/// given instants.
pub fn bitemporal_fixture_at(engine: &str, path: &str, nows: &[i64; 5]) -> (r: Result<
    (DbInstance, [i64; 4]),
    DbError,
>)
    requires
        is_engine(engine@),
    ensures
        history_outcome(r) == history_of(engine@, nows@),
        in_time(nows@) ==> r is Ok,
        r matches Ok((db, times)) ==> is_history(db@, times@),
        r matches Err(e) ==> e@ == fault(ErrKind::ClockExhausted),
{
    proof {
        law_history_is_made(engine@, nows@);
    }
    match DbInstance::new(engine, path, "") {
        Ok(d) => {
            let mut db = d;
            let ghost start = db@;
            match record_history(&mut db, nows) {
                Ok(times) => {
                    assert(history_after(start.inst, nows@, 5) == Ok::<InstanceV, Fault>(db@.inst));
                    Ok((db, times))
                },
                Err(e) => Err(e),
            }
        },
        Err(e) => Err(e),
    }
}

proof fn lemma_history_exists(start: InstanceV, nows: Seq<i64>)
    ensures
        has_history(start) ==> after_script(
            start,
            history_script(0),
            Seq::empty(),
            false,
            nows[0],
        ) == Err::<(InstanceV, SourceV), Fault>(history_refusal(start)),
{
    if has_history(start) {
        lemma_create_script();
        lemma_create_refused(start, history_script(0), nows[0]);
    }
}

proof fn lemma_history_stops(start: InstanceV, nows: Seq<i64>, m: nat, n: nat)
    requires
        m < n,
        history_after(start, nows, m) is Ok,
        history_after(start, nows, m + 1) is Err,
    ensures
        history_reached(start, nows, n) == history_after(start, nows, m)->Ok_0,
    decreases n,
{
    lemma_history_fails(start, nows, m + 1, n);
    if m + 1 < n {
        lemma_history_stops(start, nows, m, (n - 1) as nat);
    }
}

proof fn lemma_history_fails(start: InstanceV, nows: Seq<i64>, m: nat, n: nat)
    requires
        m <= n,
        history_after(start, nows, m) is Err,
    ensures
        history_after(start, nows, n) == history_after(start, nows, m),
    decreases n,
{
    if m < n {
        lemma_history_fails(start, nows, m, (n - 1) as nat);
    }
}

proof fn lemma_history_prefix(start: InstanceV, a: Seq<i64>, b: Seq<i64>, n: nat)
    requires
        n <= a.len() <= b.len(),
        forall|k: int| 0 <= k < a.len() ==> a[k] == b[k],
    ensures
        history_after(start, a, n) == history_after(start, b, n),
    decreases n,
{
    if n > 0 {
        lemma_history_prefix(start, a, b, (n - 1) as nat);
    }
}

} // verus!
