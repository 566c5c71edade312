//! What triggers and callbacks are told of a write.
use vstd::prelude::*;

use crate::eval::rows_named;
use crate::mutate::{is_temp, noted, trigger_tables};
use crate::parse_query::write_kind_of;
use crate::query::WriteV;
use crate::store::{StoreV, rel_place};
use crate::value::Value;

verus! {

/// The rules of a trigger find the new rows and the old ones under their names.
pub proof fn law_triggers_see_rows(news: Seq<Seq<Value>>, olds: Seq<Seq<Value>>)
    ensures
        rows_named(trigger_tables(news, olds), "_new"@) == news,
        rows_named(trigger_tables(news, olds), "_old"@) == olds,
{
    reveal_strlit("_new");
    reveal_strlit("_old");
    assert("_new"@[1] == 'n' && "_old"@[1] == 'o');
    reveal_with_fuel(crate::bind::table_from, 3);
    let ts = trigger_tables(news, olds);
    assert(ts.len() == 2 && ts[0].name == "_new"@ && ts[1].name == "_old"@);
}

/// A write to a lasting relation that wrote or removed rows is noted as one event
/// more, behind those there were, with all the new rows and all the old ones: of a
/// write that removes only the keys are told, one for each row. Nothing else of
/// the store changes, and writes to temporary relations are not noted.
pub proof fn law_writes_are_noted(
    store: StoreV,
    w: WriteV,
    news: Seq<Seq<Value>>,
    olds: Seq<Seq<Value>>,
    k: int,
)
    requires
        rel_place(store.rels, w.rel) < store.rels.len(),
        news.len() > 0,
        Some(w.kind) == write_kind_of("put"@) || Some(w.kind) == write_kind_of("rm"@),
    ensures
        ({
            let after = noted(store, w, news, olds);
            let nk = store.rels[rel_place(store.rels, w.rel)].keys.len();
            &&& after == (StoreV { events: after.events, ..store })
            &&& is_temp(w.rel) ==> after.events == store.events
            &&& !is_temp(w.rel) ==> after.events.len() == store.events.len() + 1
                && after.events.drop_last() == store.events && after.events.last().rel == w.rel
                && after.events.last().olds.rows == olds && after.events.last().news.rows.len()
                == news.len()
            &&& !is_temp(w.rel) && Some(w.kind) == write_kind_of("put"@)
                ==> after.events.last().news.rows == news
            &&& !is_temp(w.rel) && Some(w.kind) == write_kind_of("rm"@) && 0 <= k < news.len()
                && nk <= news[k].len() ==> after.events.last().news.rows[k] == news[k].take(
                nk as int,
            )
        }),
{
    reveal_strlit("create");
    reveal_strlit("replace");
    reveal_strlit("put");
    reveal_strlit("insert");
    reveal_strlit("update");
    reveal_strlit("rm");
    assert("create"@.len() == 6 && "replace"@.len() == 7 && "put"@.len() == 3 && "insert"@.len()
        == 6 && "update"@.len() == 6 && "rm"@.len() == 2);
    let after = noted(store, w, news, olds);
    if !is_temp(w.rel) {
        assert(after.events.drop_last() =~= store.events);
    }
}

} // verus!
