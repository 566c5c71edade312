//! What comes back from a backup and out of an export, and what callbacks hear.
use vstd::prelude::*;

use crate::backup::{merged_from, removing, target};
use crate::error::Fault;
use crate::instance::{CallbackV, ExportedV, about_from, exported_from, informed};
use crate::scan::{SourceV, scanned};
use crate::schema::RelKind;
use crate::store::{
    EventV, RecordV, RelationV, in_order, law_lookup, law_put_rec, lookup_of, with_rec,
};
use crate::sysop::{fact_history, history_row};
use crate::temporal::id_of;
use crate::value::{Sign, Value, lemma_rows_same, order_rows};

verus! {

proof fn lemma_merged(recs: Seq<RecordV>, more: Seq<RecordV>, i: int, key: Seq<Value>)
    requires
        in_order(recs),
        0 <= i <= more.len(),
    ensures
        in_order(merged_from(recs, more, i)),
        (forall|k: int| i <= k < more.len() ==> (#[trigger] more[k]).key != key) ==> lookup_of(
            merged_from(recs, more, i),
            key,
        ) == lookup_of(recs, key),
        forall|k: int|
            i <= k < more.len() && (#[trigger] more[k]).key == key && (forall|j: int|
                k < j < more.len() ==> (#[trigger] more[j]).key != key) ==> lookup_of(
                merged_from(recs, more, i),
                key,
            ) == Some(more[k].blob),
    decreases more.len() - i,
{
    if i < more.len() {
        let m = more[i];
        law_put_rec(recs, m.key, m.blob, key);
        lemma_merged(with_rec(recs, m.key, m.blob), more, i + 1, key);
    }
}

/// After records of a backup were taken over, every key of the backup holds what
/// the backup has under it, and every other key what it held before.
pub proof fn law_backup_comes_back(
    recs: Seq<RecordV>,
    backup: Seq<RecordV>,
    key: Seq<Value>,
)
    requires
        in_order(recs),
        in_order(backup),
    ensures
        in_order(merged_from(recs, backup, 0)),
        lookup_of(merged_from(recs, backup, 0), key) == match lookup_of(backup, key) {
            Some(blob) => Some(blob),
            None => lookup_of(recs, key),
        },
{
    lemma_merged(recs, backup, 0, key);
    law_lookup(backup, key);
    if let Some(blob) = lookup_of(backup, key) {
        let k = choose|k: int|
            0 <= k < backup.len() && (#[trigger] backup[k]).key == key && lookup_of(backup, key)
                == Some(backup[k].blob);
        assert forall|j: int| k < j < backup.len() implies (#[trigger] backup[j]).key != key by {
            lemma_rows_same(backup[k].key, backup[j].key);
            assert(order_rows(backup[k].key, backup[j].key, 0)
                == Sign::Less);
        }
    }
}

/// A name with a hyphen before it asks for rows to be removed from the relation
/// whose name follows; every other name is that of the relation that takes rows.
pub proof fn law_hyphen_removes(name: Seq<char>)
    ensures
        removing(seq!['-'] + name),
        target(seq!['-'] + name) == name,
        name.len() > 0 && name[0] != '-' ==> !removing(name) && target(name) == name,
{
    let n = seq!['-'] + name;
    assert(n[0] == '-');
    assert(n.subrange(1, n.len() as int) =~= name);
}

proof fn lemma_exported(
    rels: Seq<RelationV>,
    names: Seq<&str>,
    i: int,
    acc: Seq<ExportedV>,
)
    requires
        0 <= i <= names.len(),
        acc.len() == i,
        forall|k: int|
            0 <= k < i ==> (#[trigger] acc[k]).name == names[k]@ && scanned(
                rels,
                names[k]@,
                None,
                None,
                None,
            ) == Ok::<SourceV, Fault>(acc[k].rows),
    ensures
        exported_from(rels, names, i, acc) matches Ok(r) ==> r.len() == names.len()
            && forall|k: int|
            0 <= k < names.len() ==> (#[trigger] r[k]).name == names[k]@ && scanned(
                rels,
                names[k]@,
                None,
                None,
                None,
            ) == Ok::<SourceV, Fault>(r[k].rows),
    decreases names.len() - i,
{
    if i < names.len() {
        match scanned(rels, names[i]@, None, None, None) {
            Err(_) => {},
            Ok(rows) => {
                lemma_exported(
                    rels,
                    names,
                    i + 1,
                    acc.push(ExportedV { name: names[i]@, rows }),
                );
            },
        }
    }
}

/// An export holds, for each name in its place, the rows that the relation of that
/// name shows.
pub proof fn law_export_is_what_is_shown(rels: Seq<RelationV>, names: Seq<&str>, k: int)
    requires
        0 <= k < names.len(),
    ensures
        exported_from(rels, names, 0, Seq::empty()) matches Ok(r) ==> r.len() == names.len()
            && r[k].name == names[k]@ && scanned(rels, names[k]@, None, None, None) == Ok::<
            SourceV,
            Fault,
        >(r[k].rows),
{
    lemma_exported(rels, names, 0, Seq::empty());
}

proof fn lemma_about(events: Seq<EventV>, rel: Seq<char>, i: int, acc: Seq<EventV>)
    requires
        0 <= i <= events.len(),
    ensures
        ({
            let r = about_from(events, rel, i, acc);
            &&& acc.is_prefix_of(r)
            &&& forall|k: int| acc.len() <= k < r.len() ==> (#[trigger] r[k]).rel == rel
            &&& forall|k: int|
                i <= k < events.len() && (#[trigger] events[k]).rel == rel ==> r.skip(
                    acc.len() as int,
                ).contains(events[k])
        }),
    decreases events.len() - i,
{
    let r = about_from(events, rel, i, acc);
    if i < events.len() {
        if events[i].rel == rel {
            let more = acc.push(events[i]);
            lemma_about(events, rel, i + 1, more);
            assert(more[acc.len() as int] == events[i]);
            assert(r[acc.len() as int] == events[i]);
            let tail = r.skip(acc.len() as int);
            let less = r.skip(more.len() as int);
            assert(tail[0] == events[i]);
            assert forall|k: int| i <= k < events.len() && (#[trigger] events[k]).rel == rel implies
                tail.contains(events[k]) by {
                if k > i {
                    let n = choose|n: int| 0 <= n < less.len() && less[n] == events[k];
                    assert(tail[n + 1] == events[k]);
                }
            }
            assert(acc.is_prefix_of(r));
            assert forall|k: int| acc.len() <= k < r.len() implies (#[trigger] r[k]).rel == rel by {
                if k == acc.len() {
                    assert(r[k] == events[i]);
                }
            }
        } else {
            lemma_about(events, rel, i + 1, acc);
        }
    }
}

/// A callback hears of every write to its relation, of no other, and after what
/// it has yet to hear.
pub proof fn law_callbacks_hear(cbs: Seq<CallbackV>, events: Seq<EventV>, k: int, e: int)
    requires
        0 <= k < cbs.len(),
    ensures
        ({
            let r = informed(cbs, events);
            let n = cbs[k].queue.len() as int;
            &&& r.len() == cbs.len() && r[k].rel == cbs[k].rel
            &&& cbs[k].queue.is_prefix_of(r[k].queue)
            &&& forall|j: int|
                n <= j < r[k].queue.len() ==> (#[trigger] r[k].queue[j]).rel == cbs[k].rel
            &&& 0 <= e < events.len() && events[e].rel == cbs[k].rel ==> r[k].queue.skip(
                n,
            ).contains(events[e])
        }),
{
    lemma_about(events, cbs[k].rel, 0, cbs[k].queue);
}

proof fn lemma_fact(
    rows: Seq<Seq<Value>>,
    fact: Seq<Value>,
    k: RelKind,
    nk: int,
    i: int,
    acc: Seq<Seq<Value>>,
    e: int,
)
    requires
        0 <= i <= rows.len(),
    ensures
        ({
            let r = fact_history(rows, fact, k, nk, i, acc);
            &&& acc.is_prefix_of(r)
            &&& i <= e < rows.len() && id_of(rows[e], k, nk) == fact ==> r.contains(
                history_row(rows[e], k, nk),
            )
        }),
    decreases rows.len() - i,
{
    let r = fact_history(rows, fact, k, nk, i, acc);
    if i < rows.len() {
        if id_of(rows[i], k, nk) == fact {
            let more = acc.push(history_row(rows[i], k, nk));
            lemma_fact(rows, fact, k, nk, i + 1, more, e);
            assert(more[acc.len() as int] == history_row(rows[i], k, nk));
            assert(r[acc.len() as int] == history_row(rows[i], k, nk));
            assert(acc.is_prefix_of(r));
        } else {
            lemma_fact(rows, fact, k, nk, i + 1, acc, e);
        }
    }
}

/// The history of a fact tells every record of it.
pub proof fn law_history_tells_records(
    rows: Seq<Seq<Value>>,
    fact: Seq<Value>,
    k: RelKind,
    nk: int,
    e: int,
)
    requires
        0 <= e < rows.len(),
        id_of(rows[e], k, nk) == fact,
    ensures
        fact_history(rows, fact, k, nk, 0, Seq::empty()).contains(history_row(rows[e], k, nk)),
{
    lemma_fact(rows, fact, k, nk, 0, Seq::empty(), e);
}

} // verus!
