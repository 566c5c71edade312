//! What holds of the history of one fact: its records, and what reads at any
//! instant show as of each of the writes that made it.
use vstd::prelude::*;

use crate::codec::{all_sized_from, law_row_round_trip, sized};
use crate::db::{empty_store, ticked_to};
use crate::error::{ErrKind, Fault, fault, fault_on};
use crate::fixtures::{history_after, history_of, history_script, history_time};
use crate::history_parse::{create_program, lemma_create_parsed, lemma_put_parsed, put_program};
use crate::history_run::{
    history_record, history_relation, holds_history, lemma_create_done, lemma_put_done,
    lemma_put_fails, with_write,
};
use crate::history_text::{
    lemma_create_tokens, lemma_first_tokens, lemma_fourth_tokens, lemma_second_tokens,
    lemma_third_tokens,
};
use crate::instance::{DbV, InstanceV, engine_on, fresh_instance};
use crate::parse_script::script_of;
use crate::scan::rel_rows;
use crate::schema::RelKind;
use crate::stmt::StmtV;
use crate::store::{RecordV, decoded_from, rec_slot_from};
use crate::temporal::{
    believed, decides, displayed, flag_of, id_of, overrides, supersedes, tt_of, visible_from, vt_of,
};
use crate::value::{Sign, Value, order, order_rows};

verus! {

/// From which instant the fact is what write `n` says.
pub open spec fn write_from(n: int) -> i64 {
    if n == 0 {
        100
    } else if n == 3 {
        300
    } else {
        200
    }
}

/// Whether write `n` says what the fact is; if not, it says that the fact ceases.
pub open spec fn write_asserts(n: int) -> bool {
    n != 3
}

/// What write `n` says the fact is.
pub open spec fn write_value(n: int) -> i64 {
    if n == 3 {
        0
    } else {
        (n + 1) as i64
    }
}

pub proof fn lemma_create_script()
    ensures
        script_of(history_script(0), Seq::empty()) == Ok::<Seq<StmtV>, Fault>(
            seq![StmtV::Query(create_program(), None, false)],
        ),
{
    lemma_create_tokens();
    lemma_create_parsed(Seq::empty());
}

proof fn lemma_put_script(n: int)
    requires
        0 <= n < 4,
    ensures
        script_of(history_script(n + 1), Seq::empty()) == Ok::<Seq<StmtV>, Fault>(
            seq![
                StmtV::Query(
                    put_program(write_from(n), write_asserts(n), write_value(n)),
                    None,
                    false,
                ),
            ],
        ),
{
    lemma_put_parsed(Seq::empty(), write_from(n), write_asserts(n), write_value(n));
    if n == 0 {
        lemma_first_tokens();
    } else if n == 1 {
        lemma_second_tokens();
    } else if n == 2 {
        lemma_third_tokens();
    } else {
        lemma_fourth_tokens();
    }
}

/// The record of write `n`, where the writes have these times.
pub open spec fn record_of(times: Seq<i64>, n: int) -> RecordV {
    history_record(write_from(n), write_asserts(n), times[n], write_value(n))
}

/// The records of the first `n` writes, in their order: the latest comes first.
pub open spec fn records_of(times: Seq<i64>, n: nat) -> Seq<RecordV> {
    Seq::new(n, |i: int| record_of(times, n - 1 - i))
}

/// Whether times increase.
pub open spec fn increasing(times: Seq<i64>) -> bool {
    forall|i: int, j: int|
        0 <= i < j < times.len() ==> #[trigger] times[i] < #[trigger] times[j]
}

proof fn lemma_key_order(times: Seq<i64>, m: int, n: int)
    requires
        0 <= m < n < 4,
        times[m] < times[n],
    ensures
        order_rows(record_of(times, m).key, record_of(times, n).key, 0) == Sign::More,
{
    let a = record_of(times, m).key;
    let b = record_of(times, n).key;
    assert(a.len() == 3 && b.len() == 3);
    assert(order(a[0], b[0]) == Sign::Same);
    reveal_with_fuel(order_rows, 4);
}

proof fn lemma_slot_zero(recs: Seq<RecordV>, key: Seq<Value>, i: int)
    requires
        0 <= i <= recs.len(),
        forall|k: int|
            0 <= k < recs.len() ==> order_rows((#[trigger] recs[k]).key, key, 0) == Sign::More,
    ensures
        rec_slot_from(recs, key, i) == 0,
    decreases i,
{
    if i > 0 {
        lemma_slot_zero(recs, key, i - 1);
    }
}

proof fn lemma_one_more(times: Seq<i64>, n: nat)
    requires
        n < 4,
        n < times.len(),
        forall|m: int| 0 <= m < n ==> #[trigger] times[m] < times[n as int],
    ensures
        with_write(
            records_of(times, n),
            write_from(n as int),
            write_asserts(n as int),
            times[n as int],
            write_value(n as int),
        ) == records_of(times, n + 1),
{
    let recs = records_of(times, n);
    let r = record_of(times, n as int);
    assert forall|k: int| 0 <= k < recs.len() implies order_rows((#[trigger] recs[k]).key, r.key, 0)
        == Sign::More by {
        assert(times[n - 1 - k] < times[n as int]);
        lemma_key_order(times, n - 1 - k, n as int);
    }
    lemma_slot_zero(recs, r.key, recs.len() as int);
    assert(recs.insert(0, r) =~= records_of(times, n + 1));
}

/// The row of a record.
pub open spec fn row_of(times: Seq<i64>, n: int) -> Seq<Value> {
    seq![
        Value::Int(1),
        Value::Validity(write_from(n), write_asserts(n)),
        Value::Validity(times[n], true),
        Value::Int(write_value(n)),
    ]
}

/// The rows of the first `n` writes.
spec fn rows_of(times: Seq<i64>, n: nat) -> Seq<Seq<Value>> {
    Seq::new(n, |i: int| row_of(times, n - 1 - i))
}

proof fn lemma_decoded(times: Seq<i64>, n: nat, i: int)
    requires
        0 <= i <= n,
    ensures
        decoded_from(records_of(times, n), i, rows_of(times, n).take(i)) == Ok::<
            Seq<Seq<Value>>,
            Fault,
        >(rows_of(times, n)),
    decreases n - i,
{
    let recs = records_of(times, n);
    let rows = rows_of(times, n);
    if i < n {
        let k = n - 1 - i;
        let v = seq![Value::Int(write_value(k))];
        assert(v.len() == 1 && v[0] == Value::Int(write_value(k)));
        assert(sized(v[0]));
        assert(all_sized_from(v, 1));
        assert(all_sized_from(v, 0));
        law_row_round_trip(v);
        assert(recs[i].key + v =~= row_of(times, k));
        assert(rows.take(i).push(rows[i]) =~= rows.take(i + 1));
        lemma_decoded(times, n, i + 1);
    } else {
        assert(rows.take(i) =~= rows);
    }
}

/// Whether a database holds the first `n` writes of the history.
spec fn grown(i: InstanceV, times: Seq<i64>, n: nat) -> bool {
    &&& holds_history(i.store, records_of(times, n))
    &&& i.customs.len() == 0
    &&& i.store.tick == n + 1
    &&& n > 0 ==> i.clock == times[n - 1]
    &&& n == 0 ==> i.clock == 0
}

/// Whether the four writes are not so late that the clock runs out.
pub open spec fn in_time(nows: Seq<i64>) -> bool {
    forall|k: int| 1 <= k < 5 ==> #[trigger] nows[k] <= i64::MAX - 3
}

proof fn lemma_grows(start: InstanceV, nows: Seq<i64>, times: Seq<i64>, n: nat)
    requires
        n <= 4,
        nows.len() == 5,
        start == fresh_instance(empty_store()),
        in_time(nows) || history_after(start, nows, n + 1) is Ok,
        times.len() == 4,
        forall|k: int|
            0 <= k < n ==> #[trigger] times[k] == history_time(start, nows, k + 1),
    ensures
        history_after(start, nows, n + 1) matches Ok(i) && grown(i, times, n),
        forall|j: int, k: int| 0 <= j < k < n ==> #[trigger] times[j] < #[trigger] times[k],
        n > 0 ==> times[0] > 0,
        in_time(nows) && n > 0 ==> times[n - 1] <= i64::MAX - 4 + n,
    decreases n,
{
    let none = Seq::<Seq<Value>>::empty();
    if n == 0 {
        lemma_create_script();
        lemma_create_done(start, history_script(0), nows[0]);
        assert(history_after(start, nows, 0) == Ok::<InstanceV, Fault>(start));
        assert(records_of(times, 0) =~= Seq::empty());
    } else {
        let m = (n - 1) as nat;
        lemma_grows(start, nows, times, m);
        let i = history_after(start, nows, n)->Ok_0;
        let recs = records_of(times, m);
        lemma_put_script(m as int);
        if i.clock == i64::MAX {
            lemma_put_fails(
                i,
                recs,
                history_script(n as int),
                write_from(m as int),
                write_asserts(m as int),
                write_value(m as int),
                nows[n as int],
            );
        }
        lemma_put_done(
            i,
            recs,
            history_script(n as int),
            write_from(m as int),
            write_asserts(m as int),
            write_value(m as int),
            nows[n as int],
        );
        let j = history_after(start, nows, n + 1)->Ok_0;
        assert(in_time(nows) ==> nows[n as int] <= i64::MAX - 3);
        assert(times[m as int] == history_time(start, nows, n as int));
        assert(j.clock == times[m as int]);
        assert(times[m as int] == ticked_to(i.clock, nows[n as int]));
        assert forall|k: int| 0 <= k < m implies #[trigger] times[k] < times[m as int] by {
            if k < m - 1 {
                assert(times[k] < times[m - 1]);
            }
        }
        lemma_one_more(times, m);
        assert(rows_of(times, n).take(0) =~= none);
        lemma_decoded(times, n, 0);
    }
}

proof fn lemma_only_clock_fails(start: InstanceV, nows: Seq<i64>, times: Seq<i64>, n: nat)
    requires
        n <= 4,
        nows.len() == 5,
        start == fresh_instance(empty_store()),
        times.len() == 4,
        forall|k: int|
            0 <= k < 4 ==> #[trigger] times[k] == history_time(start, nows, k + 1),
    ensures
        history_after(start, nows, n + 1) matches Err(f) ==> f == fault(ErrKind::ClockExhausted),
    decreases n,
{
    if n == 0 {
        lemma_create_script();
        lemma_create_done(start, history_script(0), nows[0]);
        assert(history_after(start, nows, 0) == Ok::<InstanceV, Fault>(start));
    } else {
        let m = (n - 1) as nat;
        lemma_only_clock_fails(start, nows, times, m);
        if history_after(start, nows, n) is Ok {
            lemma_grows(start, nows, times, m);
            let i = history_after(start, nows, n)->Ok_0;
            lemma_put_script(m as int);
            let s = history_script(n as int);
            let recs = records_of(times, m);
            let a = write_from(m as int);
            let b = write_asserts(m as int);
            let c = write_value(m as int);
            if i.clock == i64::MAX {
                lemma_put_fails(i, recs, s, a, b, c, nows[n as int]);
            } else {
                lemma_put_done(i, recs, s, a, b, c, nows[n as int]);
            }
        }
    }
}

/// Whether a database can be kept in an engine of this name.
pub open spec fn is_engine(engine: Seq<char>) -> bool {
    engine == "mem"@ || engine == "sqlite"@ || engine == "rocksdb"@
}

/// Whether a database holds the history, made at these times: its only relation
/// holds the four records of the writes and nothing else, and these times
/// increase up to that of the clock.
pub open spec fn is_history(db: DbV, times: Seq<i64>) -> bool {
    &&& holds_history(db.inst.store, records_of(times, 4))
    &&& times.len() == 4
    &&& increasing(times)
    &&& times[0] > 0
    &&& db.inst.clock == times[3]
    &&& db.inst.store.tick == 5
    &&& db.inst.customs.len() == 0
}

/// The history is made in every engine whose name is known, unless the clock
/// runs out, which it does not where the writes are in time: what is made is the
/// history.
pub proof fn law_history_is_made(engine: Seq<char>, nows: Seq<i64>)
    requires
        nows.len() == 5,
    ensures
        is_engine(engine) && in_time(nows) ==> history_of(engine, nows) is Ok,
        !is_engine(engine) <==> history_of(engine, nows) == Err::<(DbV, Seq<i64>), Fault>(
            fault_on(ErrKind::UnknownEngine, engine),
        ),
        is_engine(engine) ==> (history_of(engine, nows) matches Err(f) ==> f == fault(
            ErrKind::ClockExhausted,
        )),
        history_of(engine, nows) matches Ok((db, times)) ==> is_history(db, times),
{
    if is_engine(engine) {
        let start = engine_on(engine, empty_store())->Ok_0.inst;
        let times = Seq::new(4, |i: int| history_time(start, nows, i + 1));
        lemma_only_clock_fails(start, nows, times, 4);
        if in_time(nows) || history_after(start, nows, 5) is Ok {
            lemma_grows(start, nows, times, 4);
        }
    }
}

/// What a read at the instant `vt` shows the fact to be, as of write `i`: it is
/// 1 from instant 100 on; from instant 200 on it is 2 as of the second write, and
/// 3 as of those that follow; and as of the last it ceases at instant 300.
pub open spec fn timeline(vt: i64, i: int) -> Option<i64> {
    if vt < 100 {
        None
    } else if vt < 200 || i == 0 {
        Some(1)
    } else if i == 1 {
        Some(2)
    } else if i == 2 || vt < 300 {
        Some(3)
    } else {
        None
    }
}

/// A row of the history as a query sees it: the write that recorded it as a
/// number.
pub open spec fn shown_row(times: Seq<i64>, n: int) -> Seq<Value> {
    seq![
        Value::Int(1),
        Value::Validity(write_from(n), write_asserts(n)),
        Value::Int(times[n]),
        Value::Int(write_value(n)),
    ]
}

proof fn lemma_row(times: Seq<i64>, n: int)
    ensures
        id_of(row_of(times, n), RelKind::Bi, 3) == seq![Value::Int(1)],
        vt_of(row_of(times, n), RelKind::Bi, 3) == write_from(n),
        tt_of(row_of(times, n), RelKind::Bi, 3) == times[n],
        flag_of(row_of(times, n), RelKind::Bi, 3) == write_asserts(n),
        displayed(row_of(times, n), RelKind::Bi, 3) == shown_row(times, n),
{
    assert(row_of(times, n).take(1) =~= seq![Value::Int(1)]);
    assert(displayed(row_of(times, n), RelKind::Bi, 3) =~= shown_row(times, n));
}

proof fn lemma_all_rows(times: Seq<i64>)
    ensures
        rows_of(times, 4).len() == 4,
        forall|k: int|
            #![trigger rows_of(times, 4)[k]]
            0 <= k < 4 ==> {
                let row = rows_of(times, 4)[k];
                &&& id_of(row, RelKind::Bi, 3) == seq![Value::Int(1)]
                &&& vt_of(row, RelKind::Bi, 3) == write_from(3 - k)
                &&& tt_of(row, RelKind::Bi, 3) == times[3 - k]
                &&& flag_of(row, RelKind::Bi, 3) == write_asserts(3 - k)
                &&& displayed(row, RelKind::Bi, 3) == shown_row(times, 3 - k)
            },
{
    assert forall|k: int|
        #![trigger rows_of(times, 4)[k]]
        0 <= k < 4 implies ({
        let row = rows_of(times, 4)[k];
        &&& id_of(row, RelKind::Bi, 3) == seq![Value::Int(1)]
        &&& vt_of(row, RelKind::Bi, 3) == write_from(3 - k)
        &&& tt_of(row, RelKind::Bi, 3) == times[3 - k]
        &&& flag_of(row, RelKind::Bi, 3) == write_asserts(3 - k)
        &&& displayed(row, RelKind::Bi, 3) == shown_row(times, 3 - k)
    }) by {
        lemma_row(times, 3 - k);
    }
}

/// Which writes are believed as of write `i`: those up to it, but for the second
/// once the third has corrected it.
proof fn lemma_believed(times: Seq<i64>, i: int, k: int)
    requires
        times.len() == 4,
        increasing(times),
        0 <= i < 4,
        0 <= k < 4,
    ensures
        believed(rows_of(times, 4), k, RelKind::Bi, 3, times[i]) == (3 - k <= i && !(k == 2 && i
            >= 2)),
{
    let rows = rows_of(times, 4);
    lemma_all_rows(times);
    assert(3 - k < i ==> times[3 - k] < times[i]);
    assert(3 - k > i ==> times[3 - k] > times[i]);
    assert(times[1] < times[2]);
    assert(i > 2 ==> times[2] < times[i]);
    assert(i < 2 ==> times[2] > times[i]);
    if k == 2 && i >= 2 {
        assert(supersedes(rows, 1, 2, RelKind::Bi, 3, times[i]));
    } else if 3 - k <= i {
        assert forall|j: int| 0 <= j < rows.len() implies !supersedes(
            rows,
            j,
            k,
            RelKind::Bi,
            3,
            times[i],
        ) by {
            assert(3 - j < 3 - k ==> times[3 - j] < times[3 - k]);
            assert(3 - j > i ==> times[3 - j] > times[i]);
        }
    }
}

/// Which write decides at the instant `vt` as of write `i`.
spec fn decider(vt: i64, i: int) -> int {
    if vt < 200 || i == 0 {
        0
    } else if vt >= 300 && i == 3 {
        3
    } else if i == 1 {
        1
    } else {
        2
    }
}

proof fn lemma_decides(times: Seq<i64>, vt: i64, i: int, k: int)
    requires
        times.len() == 4,
        increasing(times),
        0 <= i < 4,
        0 <= k < 4,
    ensures
        decides(rows_of(times, 4), k, RelKind::Bi, 3, vt, times[i]) == (vt >= 100 && 3 - k
            == decider(vt, i)),
{
    let rows = rows_of(times, 4);
    lemma_all_rows(times);
    lemma_believed(times, i, 0);
    lemma_believed(times, i, 1);
    lemma_believed(times, i, 2);
    lemma_believed(times, i, 3);
    let d = 3 - decider(vt, i);
    if vt >= 100 && k == d {
        assert forall|j: int| 0 <= j < rows.len() implies !overrides(
            rows,
            j,
            k,
            RelKind::Bi,
            3,
            vt,
            times[i],
        ) by {
            assert(j == 0 || j == 1 || j == 2 || j == 3);
        }
    } else if vt >= 100 && believed(rows, k, RelKind::Bi, 3, times[i]) && write_from(3 - k) <= vt {
        assert(overrides(rows, d, k, RelKind::Bi, 3, vt, times[i]));
    }
}

/// A read of the history at any instant, as of each of its writes, shows the
/// fact as its timeline has it.
pub proof fn law_history_reads(times: Seq<i64>, vt: i64, i: int)
    requires
        times.len() == 4,
        increasing(times),
        0 <= i < 4,
    ensures
        rel_rows(history_relation(records_of(times, 4)), Some(vt), Some(times[i]), None) == Ok::<
            Seq<Seq<Value>>,
            Fault,
        >(read_rows(times, vt, i)),
{
    let rows = rows_of(times, 4);
    let none = Seq::<Seq<Value>>::empty();
    let t = times[i];
    assert(rows.take(0) =~= none);
    lemma_decoded(times, 4, 0);
    lemma_all_rows(times);
    lemma_decides(times, vt, i, 0);
    lemma_decides(times, vt, i, 1);
    lemma_decides(times, vt, i, 2);
    lemma_decides(times, vt, i, 3);
    reveal_with_fuel(visible_from, 5);
    let row = shown_row(times, decider(vt, i));
    assert(none.push(row) =~= seq![row]);
    assert(timeline(vt, i) matches Some(x) ==> x - 1 == decider(vt, i));
}

/// The rows that such a read shows.
pub open spec fn read_rows(times: Seq<i64>, vt: i64, i: int) -> Seq<Seq<Value>> {
    match timeline(vt, i) {
        None => Seq::empty(),
        Some(x) => seq![shown_row(times, x - 1)],
    }
}

} // verus!
