//! Running the statements of a script.
use vstd::prelude::*;

use crate::aggr::{Custom, CustomV};
use crate::codec::{encode_row, encode_row_of};
use crate::error::{DbError, ErrKind, Fault, err, err_on, fault, fault_on, outcome};
use crate::fts::push_char;
use crate::list::{Dup, List, opt_of};
use crate::mutate::{
    Done, DoneV, columns_from_names, create, created, is_temp, loose_columns, no_rows, nothing, ran,
    run_program, temp, with_rel_at, without_rel_at,
};
use crate::scan::{Source, SourceV, scan, scanned};
use crate::stmt::{Stmt, StmtV};
use crate::store::{
    Record, RecordV, Relation, RelationV, Store, StoreV, find_rel, rel_place, with_rec,
};
use crate::sysop::{op_done, run_op};
use crate::table::Rows;
use crate::value::{DataValue, Value, chars_of};
use crate::write::stored;

verus! {

/// A name without parentheses, from place `i` on: an opening one becomes an
/// underscore, a closing one goes.
pub open spec fn plain_name(s: Seq<char>, i: int, acc: Seq<char>) -> Seq<char>
    decreases s.len() - i,
{
    if i < 0 || i >= s.len() {
        acc
    } else if s[i] == '(' {
        plain_name(s, i + 1, acc.push('_'))
    } else if s[i] == ')' {
        plain_name(s, i + 1, acc)
    } else {
        plain_name(s, i + 1, acc.push(s[i]))
    }
}

fn clean(s: &String) -> (r: String)
    ensures
        r@ == plain_name(s@, 0, Seq::empty()),
{
    let c = chars_of(s.as_str());
    let mut acc = String::new();
    let mut i: usize = 0;
    assert(acc@ =~= Seq::<char>::empty());
    while i < c.len()
        invariant
            i <= c@.len(),
            c@ == s@,
            plain_name(s@, 0, Seq::empty()) == plain_name(s@, i as int, acc@),
        decreases c@.len() - i,
    {
        let x: char = c[i];
        if x == '(' {
            push_char(&mut acc, '_');
        } else if x != ')' {
            push_char(&mut acc, x);
        }
        i = i + 1;
    }
    acc
}

/// Names without parentheses.
pub open spec fn plain_names(ns: Seq<Seq<char>>) -> Seq<Seq<char>> {
    Seq::new(ns.len(), |i: int| plain_name(ns[i], 0, Seq::empty()))
}

fn clean_all(ns: &List<String>) -> (r: List<String>)
    ensures
        r@ == plain_names(ns@),
{
    let mut r: List<String> = List::new();
    let mut i: usize = 0;
    while i < ns.len()
        invariant
            i <= ns@.len(),
            r@ =~= plain_names(ns@).take(i as int),
        decreases ns@.len() - i,
    {
        r.push(clean(ns.get(i)));
        i = i + 1;
    }
    assert(plain_names(ns@).take(i as int) =~= plain_names(ns@));
    r
}

/// Records whose keys are the rows from place `i` on.
pub open spec fn key_records(rows: Seq<Seq<Value>>, i: int, recs: Seq<RecordV>) -> Seq<RecordV>
    decreases rows.len() - i,
{
    if i < 0 || i >= rows.len() {
        recs
    } else {
        key_records(rows, i + 1, with_rec(recs, rows[i], encode_row_of(Seq::empty())))
    }
}

fn records_of_keys(rows: &Rows) -> (r: List<Record>)
    ensures
        r@ == key_records(rows@, 0, Seq::empty()),
{
    let mut recs: List<Record> = List::new();
    let mut i: usize = 0;
    while i < rows.len()
        invariant
            i <= rows@.len(),
            key_records(rows@, 0, Seq::empty()) == key_records(rows@, i as int, recs@),
        decreases rows@.len() - i,
    {
        recs = stored(recs, rows.get(i).dup(), encode_row(&List::new()));
        i = i + 1;
    }
    recs
}

/// A store in which a relation keeps rows, in place of what it kept.
pub open spec fn rows_kept(store: StoreV, name: Seq<char>, src: SourceV) -> Result<StoreV, Fault> {
    let p = rel_place(store.rels, name);
    let next = if p < store.rels.len() {
        StoreV { rels: store.rels.remove(p), ..store }
    } else {
        store
    };
    if !is_temp(name) {
        Err(fault_on(ErrKind::NotTemporary, name))
    } else {
        match created(next, name, loose_columns(plain_names(src.cols)), Seq::empty()) {
            Err(f) => Err(f),
            Ok(made) => {
                let q = rel_place(made.rels, name);
                if q >= made.rels.len() {
                    Err(fault_on(ErrKind::RelationNotFound, name))
                } else {
                    let rel = made.rels[q];
                    let recs = key_records(src.rows, 0, Seq::empty());
                    Ok(StoreV { rels: made.rels.update(q, RelationV { recs, ..rel }), ..made })
                }
            },
        }
    }
}

fn keep_rows(store: Store, name: &String, src: &Source) -> (r: Result<Store, DbError>)
    ensures
        outcome(r) == rows_kept(store@, name@, src@),
{
    if !temp(name) {
        return Err(err_on(ErrKind::NotTemporary, name.as_str()));
    }
    let p = find_rel(&store.rels, name);
    let next = if p < store.rels.len() {
        Store { rels: without_rel_at(store.rels, p), ..store }
    } else {
        store
    };
    match create(next, name, columns_from_names(&clean_all(&src.cols)), List::new()) {
        Err(e) => Err(e),
        Ok(made) => {
            let q = find_rel(&made.rels, name);
            if q >= made.rels.len() {
                Err(err_on(ErrKind::RelationNotFound, name.as_str()))
            } else {
                let rel = made.rels.get(q).dup();
                let recs = records_of_keys(&src.rows);
                Ok(Store { rels: with_rel_at(made.rels, q, Relation { recs, ..rel }), ..made })
            }
        }
    }
}

/// Whether rows say yes: there are some, and the first does not end in false or
/// null.
pub open spec fn affirms(rows: Seq<Seq<Value>>) -> bool {
    rows.len() > 0 && (rows[0].len() > 0 ==> match rows[0].last() {
        Value::Bool(b) => b,
        Value::Null => false,
        _ => true,
    })
}

fn affirm(rows: &Rows) -> (r: bool)
    ensures
        r == affirms(rows@),
{
    if rows.len() == 0 {
        return false;
    }
    let row = rows.get(0);
    if row.len() == 0 {
        return true;
    }
    match row.get(row.len() - 1) {
        DataValue::Bool(b) => *b,
        DataValue::Null => false,
        _ => true,
    }
}

/// Whether a statement opens a loop or a condition.
pub open spec fn opens(s: StmtV) -> bool {
    match s {
        StmtV::Loop => true,
        StmtV::IfRel(_, _) => true,
        StmtV::IfQuery(_, _) => true,
        _ => false,
    }
}

fn does_open(s: &Stmt) -> (r: bool)
    ensures
        r == opens(s@),
{
    match s {
        Stmt::Loop => true,
        Stmt::IfRel(_, _) => true,
        Stmt::IfQuery(_, _) => true,
        _ => false,
    }
}

/// The end of the loop or condition that is open at place `i`, or its `else`
/// where that is wanted, with `depth` others open inside it; the length where
/// there is none.
pub open spec fn close_from(ss: Seq<StmtV>, i: int, depth: nat, at_else: bool) -> int
    decreases ss.len() - i,
{
    if i < 0 || i >= ss.len() {
        ss.len() as int
    } else if opens(ss[i]) {
        close_from(ss, i + 1, depth + 1, at_else)
    } else {
        match ss[i] {
            StmtV::End => if depth == 0 {
                i
            } else {
                close_from(ss, i + 1, (depth - 1) as nat, at_else)
            },
            StmtV::Else => if depth == 0 && at_else {
                i
            } else {
                close_from(ss, i + 1, depth, at_else)
            },
            _ => close_from(ss, i + 1, depth, at_else),
        }
    }
}

fn find_close(ss: &List<Stmt>, start: usize, at_else: bool) -> (r: usize)
    requires
        start <= ss@.len(),
    ensures
        r == close_from(ss@, start as int, 0, at_else),
        r <= ss@.len(),
{
    let mut depth: usize = 0;
    let mut i: usize = start;
    while i < ss.len()
        invariant
            start <= i <= ss@.len(),
            depth <= i,
            close_from(ss@, start as int, 0, at_else) == close_from(
                ss@,
                i as int,
                depth as nat,
                at_else,
            ),
        decreases ss@.len() - i,
    {
        if does_open(ss.get(i)) {
            depth = depth + 1;
        } else {
            match ss.get(i) {
                Stmt::End => {
                    if depth == 0 {
                        return i;
                    }
                    depth = depth - 1;
                },
                Stmt::Else => {
                    if depth == 0 && at_else {
                        return i;
                    }
                },
                _ => {},
            }
        }
        i = i + 1;
    }
    i
}

/// The statement before place `i` that opened what is open there, with `depth`
/// others closed in between: a loop where `looping`. Nothing where there is
/// none.
pub open spec fn open_from(ss: Seq<StmtV>, i: int, depth: nat, looping: bool) -> Option<int>
    decreases i,
{
    if i <= 0 || i > ss.len() {
        None
    } else if ss[i - 1] is End {
        open_from(ss, i - 1, depth + 1, looping)
    } else if opens(ss[i - 1]) {
        if depth > 0 {
            open_from(ss, i - 1, (depth - 1) as nat, looping)
        } else if looping && !(ss[i - 1] is Loop) {
            open_from(ss, i - 1, depth, looping)
        } else {
            Some(i - 1)
        }
    } else {
        open_from(ss, i - 1, depth, looping)
    }
}

fn find_open(ss: &List<Stmt>, start: usize, looping: bool) -> (r: Option<usize>)
    requires
        start <= ss@.len(),
    ensures
        match r {
            Some(k) => open_from(ss@, start as int, 0, looping) == Some(k as int) && k < start,
            None => open_from(ss@, start as int, 0, looping) is None,
        },
{
    let mut depth: usize = 0;
    let mut i: usize = start;
    while i > 0
        invariant
            i <= start <= ss@.len(),
            depth <= start - i,
            open_from(ss@, start as int, 0, looping) == open_from(
                ss@,
                i as int,
                depth as nat,
                looping,
            ),
        decreases i,
    {
        let s = ss.get(i - 1);
        if let Stmt::End = s {
            depth = depth + 1;
        } else if does_open(s) {
            if depth > 0 {
                depth = depth - 1;
            } else {
                let ring = matches!(s, Stmt::Loop);
                if !(looping && !ring) {
                    return Some(i - 1);
                }
            }
        }
        i = i - 1;
    }
    None
}

/// Where a script stands: the store, the next statement, the rows that were shown
/// last, and whether it has ended.
pub struct State {
    pub store: Store,
    pub pc: usize,
    pub out: Source,
    pub over: bool,
}

/// The mathematical counterpart of [`State`].
#[verifier::ext_equal]
pub struct StateV {
    pub store: StoreV,
    pub pc: usize,
    pub out: SourceV,
    pub over: bool,
}

impl View for State {
    type V = StateV;
    open spec fn view(&self) -> StateV {
        StateV {
            store: self.store@,
            pc: self.pc,
            out: self.out@,
            over: self.over,
        }
    }
}

impl Dup for State {
    fn dup(&self) -> (r: Self) {
        State {
            store: self.store.dup(),
            pc: self.pc,
            out: self.out.dup(),
            over: self.over,
        }
    }
}

/// The place behind another one.
pub open spec fn after(i: int) -> usize {
    (i + 1) as usize
}

fn next(i: usize) -> (r: usize)
    ensures
        r == after(i as int),
{
    (i as u128 + 1) as usize
}

/// The state after a statement that showed rows, or failed.
pub open spec fn settled_step(
    was: StoreV,
    done: Result<DoneV, Fault>,
    keep: Option<Seq<char>>,
    ignore: bool,
    pc: int,
) -> Result<StateV, Fault> {
    match done {
        Err(f) => if ignore {
            Ok(StateV { store: was, pc: after(pc), out: nothing(), over: false })
        } else {
            Err(f)
        },
        Ok(d) => match keep {
            None => Ok(StateV { store: d.store, pc: after(pc), out: d.out, over: false }),
            Some(n) => match rows_kept(d.store, n, d.out) {
                Err(f) => if ignore {
                    Ok(StateV { store: was, pc: after(pc), out: nothing(), over: false })
                } else {
                    Err(f)
                },
                Ok(s) => Ok(StateV { store: s, pc: after(pc), out: d.out, over: false }),
            },
        },
    }
}

fn settle_step(
    was: Store,
    done: Result<Done, DbError>,
    keep: &Option<String>,
    ignore: bool,
    pc: usize,
) -> (r: Result<State, DbError>)
    ensures
        outcome(r) == settled_step(was@, outcome(done), opt_of(*keep), ignore, pc as int),
{
    match done {
        Err(e) => if ignore {
            Ok(State { store: was, pc: next(pc), out: no_rows(), over: false })
        } else {
            Err(e)
        },
        Ok(d) => match keep {
            None => Ok(State { store: d.store, pc: next(pc), out: d.out, over: false }),
            Some(n) => match keep_rows(d.store, n, &d.out) {
                Err(e) => if ignore {
                    Ok(State { store: was, pc: next(pc), out: no_rows(), over: false })
                } else {
                    Err(e)
                },
                Ok(s) => Ok(State { store: s, pc: next(pc), out: d.out, over: false }),
            },
        },
    }
}

/// The state after the test of a condition.
pub open spec fn branched(
    store: StoreV,
    yes: bool,
    ss: Seq<StmtV>,
    pc: int,
) -> Result<StateV, Fault> {
    if yes {
        Ok(StateV { store, pc: after(pc), out: nothing(), over: false })
    } else {
        let c = close_from(ss, pc + 1, 0, true);
        if c >= ss.len() {
            Err(fault(ErrKind::StrayJump))
        } else {
            Ok(StateV { store, pc: after(c), out: nothing(), over: false })
        }
    }
}

fn branch(store: Store, yes: bool, ss: &List<Stmt>, pc: usize) -> (r: Result<State, DbError>)
    requires
        pc < ss@.len(),
    ensures
        outcome(r) == branched(store@, yes, ss@, pc as int),
{
    let n: usize = ss.len();
    if yes {
        Ok(State { store, pc: next(pc), out: no_rows(), over: false })
    } else {
        let c = find_close(ss, pc + 1, true);
        if c >= n {
            Err(err(ErrKind::StrayJump))
        } else {
            Ok(State { store, pc: next(c), out: no_rows(), over: false })
        }
    }
}

/// The state after one statement.
#[verifier::opaque]
pub open spec fn step_of(
    st: StateV,
    ss: Seq<StmtV>,
    customs: Seq<CustomV>,
    now: i64,
    ro: bool,
) -> Result<StateV, Fault> {
    let pc = st.pc as int;
    match ss[pc] {
        StmtV::Query(p, keep, ignore) => {
            let was = st.store;
            settled_step(was, ran(st.store, p, customs, now, ro), keep, ignore, pc)
        },
        StmtV::Sys(op, keep, ignore) => {
            let was = st.store;
            settled_step(was, op_done(st.store, op, customs, now, ro), keep, ignore, pc)
        },
        StmtV::Return => Ok(StateV { store: st.store, pc: st.pc, out: nothing(), over: true }),
        StmtV::ReturnRel(n) => match scanned(st.store.rels, n, None, None, None) {
            Err(f) => Err(f),
            Ok(src) => {
                Ok(StateV { store: st.store, pc: st.pc, out: src, over: true })
            }
        },
        StmtV::ReturnQuery(p) => match ran(st.store, p, customs, now, ro) {
            Err(f) => Err(f),
            Ok(d) => {
                Ok(StateV { store: d.store, pc: st.pc, out: d.out, over: true })
            }
        },
        StmtV::Loop => Ok(StateV { store: st.store, pc: after(pc), out: st.out, over: false }),
        StmtV::IfRel(n, neg) => match scanned(st.store.rels, n, None, None, None) {
            Err(f) => Err(f),
            Ok(src) => {
                branched(st.store, affirms(src.rows) != neg, ss, pc)
            }
        },
        StmtV::IfQuery(p, neg) => match ran(st.store, p, customs, now, ro) {
            Err(f) => Err(f),
            Ok(d) => {
                branched(d.store, affirms(d.out.rows) != neg, ss, pc)
            }
        },
        StmtV::Else => {
            let c = close_from(ss, pc + 1, 0, false);
            if c >= ss.len() {
                Err(fault(ErrKind::StrayJump))
            } else {
                Ok(StateV { store: st.store, pc: after(c), out: st.out, over: false })
            }
        },
        StmtV::End => match open_from(ss, pc, 0, false) {
            None => Err(fault(ErrKind::StrayJump)),
            Some(k) => if ss[k] is Loop {
                Ok(StateV { store: st.store, pc: k as usize, out: st.out, over: false })
            } else {
                Ok(StateV { store: st.store, pc: after(pc), out: st.out, over: false })
            },
        },
        StmtV::Break => match open_from(ss, pc, 0, true) {
            None => Err(fault(ErrKind::StrayJump)),
            Some(k) => {
                let c = close_from(ss, k + 1, 0, false);
                if c >= ss.len() {
                    Err(fault(ErrKind::StrayJump))
                } else {
                    Ok(StateV { store: st.store, pc: after(c), out: st.out, over: false })
                }
            },
        },
        StmtV::Continue => match open_from(ss, pc, 0, true) {
            None => Err(fault(ErrKind::StrayJump)),
            Some(k) => Ok(StateV { store: st.store, pc: k as usize, out: st.out, over: false }),
        },
    }
}

fn step(
    st: State,
    ss: &List<Stmt>,
    customs: &List<Custom>,
    now: i64,
    ro: bool,
) -> (r: Result<State, DbError>)
    requires
        st@.pc < ss@.len(),
    ensures
        outcome(r) == step_of(st@, ss@, customs@, now, ro),
{
    reveal(step_of);
    let n: usize = ss.len();
    let pc = st.pc;
    match ss.get(pc) {
        Stmt::Query(p, keep, ignore) => {
            let was = st.store.dup();
            settle_step(was, run_program(st.store, p, customs, now, ro), keep, *ignore, pc)
        },
        Stmt::Sys(op, keep, ignore) => {
            let was = st.store.dup();
            settle_step(was, run_op(st.store, op, customs, now, ro), keep, *ignore, pc)
        },
        Stmt::Return => Ok(State { store: st.store, pc: st.pc, out: no_rows(), over: true }),
        Stmt::ReturnRel(n) => match scan(&st.store.rels, n, None, None, None) {
            Err(e) => Err(e),
            Ok(src) => {
                Ok(State { store: st.store, pc: st.pc, out: src, over: true })
            }
        },
        Stmt::ReturnQuery(p) => match run_program(st.store, p, customs, now, ro) {
            Err(e) => Err(e),
            Ok(d) => {
                Ok(State { store: d.store, pc: st.pc, out: d.out, over: true })
            }
        },
        Stmt::Loop => Ok(State { store: st.store, pc: next(pc), out: st.out, over: false }),
        Stmt::IfRel(n, neg) => match scan(&st.store.rels, n, None, None, None) {
            Err(e) => Err(e),
            Ok(src) => {
                branch(st.store, affirm(&src.rows) != *neg, ss, pc)
            }
        },
        Stmt::IfQuery(p, neg) => match run_program(st.store, p, customs, now, ro) {
            Err(e) => Err(e),
            Ok(d) => {
                branch(d.store, affirm(&d.out.rows) != *neg, ss, pc)
            }
        },
        Stmt::Else => {
            let c = find_close(ss, pc + 1, false);
            if c >= ss.len() {
                Err(err(ErrKind::StrayJump))
            } else {
                Ok(State { store: st.store, pc: next(c), out: st.out, over: false })
            }
        },
        Stmt::End => match find_open(ss, pc, false) {
            None => Err(err(ErrKind::StrayJump)),
            Some(k) => if matches!(ss.get(k), Stmt::Loop) {
                Ok(State { store: st.store, pc: k, out: st.out, over: false })
            } else {
                Ok(State { store: st.store, pc: next(pc), out: st.out, over: false })
            },
        },
        Stmt::Break => match find_open(ss, pc, true) {
            None => Err(err(ErrKind::StrayJump)),
            Some(k) => {
                let c = find_close(ss, k + 1, false);
                if c >= ss.len() {
                    Err(err(ErrKind::StrayJump))
                } else {
                    Ok(State { store: st.store, pc: next(c), out: st.out, over: false })
                }
            },
        },
        Stmt::Continue => match find_open(ss, pc, true) {
            None => Err(err(ErrKind::StrayJump)),
            Some(k) => Ok(State { store: st.store, pc: k, out: st.out, over: false }),
        },
    }
}

/// How many statements a script may run.
pub const MOST_STEPS: u64 = 0xffff_ffff_ffff_ffff;

/// The state in which a script ends, with `left` more statements allowed.
pub open spec fn run_from(
    st: StateV,
    ss: Seq<StmtV>,
    customs: Seq<CustomV>,
    now: i64,
    ro: bool,
    left: nat,
) -> Result<StateV, Fault>
    decreases left,
{
    if st.over || st.pc >= ss.len() {
        Ok(st)
    } else if left == 0 {
        Err(fault(ErrKind::StepBudget))
    } else {
        match step_of(st, ss, customs, now, ro) {
            Err(f) => Err(f),
            Ok(next) => run_from(next, ss, customs, now, ro, (left - 1) as nat),
        }
    }
}

fn run(
    st: State,
    ss: &List<Stmt>,
    customs: &List<Custom>,
    now: i64,
    ro: bool,
) -> (r: Result<State, DbError>)
    ensures
        outcome(r) == run_from(st@, ss@, customs@, now, ro, MOST_STEPS as nat),
{
    let ghost goal = run_from(st@, ss@, customs@, now, ro, MOST_STEPS as nat);
    let mut cur = st;
    let mut left: u64 = MOST_STEPS;
    while !cur.over && cur.pc < ss.len()
        invariant
            goal == run_from(st@, ss@, customs@, now, ro, MOST_STEPS as nat),
            goal == run_from(cur@, ss@, customs@, now, ro, left as nat),
        decreases left,
    {
        if left == 0 {
            return Err(err(ErrKind::StepBudget));
        }
        match step(cur, ss, customs, now, ro) {
            Err(e) => {
                return Err(e);
            },
            Ok(next) => {
                cur = next;
            },
        }
        left = left - 1;
    }
    Ok(cur)
}

/// The relations from place `i` on that outlive a script, after `acc`.
pub open spec fn lasting_from(rels: Seq<RelationV>, i: int, acc: Seq<RelationV>) -> Seq<RelationV>
    decreases rels.len() - i,
{
    if i < 0 || i >= rels.len() {
        acc
    } else if is_temp(rels[i].name) {
        lasting_from(rels, i + 1, acc)
    } else {
        lasting_from(rels, i + 1, acc.push(rels[i]))
    }
}

fn lasting(rels: &List<Relation>) -> (r: List<Relation>)
    ensures
        r@ == lasting_from(rels@, 0, Seq::empty()),
{
    let mut acc: List<Relation> = List::new();
    let mut i: usize = 0;
    while i < rels.len()
        invariant
            i <= rels@.len(),
            lasting_from(rels@, 0, Seq::empty()) == lasting_from(rels@, i as int, acc@),
        decreases rels@.len() - i,
    {
        if !temp(&rels.get(i).name) {
            acc.push(rels.get(i).dup());
        }
        i = i + 1;
    }
    acc
}

/// A store after the statements of a script, and the rows that the script
/// shows.
pub open spec fn script_done(
    store: StoreV,
    ss: Seq<StmtV>,
    customs: Seq<CustomV>,
    now: i64,
    ro: bool,
) -> Result<DoneV, Fault> {
    match run_from(
        StateV { store, pc: 0, out: nothing(), over: false },
        ss,
        customs,
        now,
        ro,
        MOST_STEPS as nat,
    ) {
        Err(f) => Err(f),
        Ok(st) => Ok(
            DoneV {
                store: StoreV { rels: lasting_from(st.store.rels, 0, Seq::empty()), ..st.store },
                out: st.out,
            },
        ),
    }
}

/// Runs the statements of a script.
pub fn run_script(
    store: Store,
    ss: &List<Stmt>,
    customs: &List<Custom>,
    now: i64,
    ro: bool,
) -> (r: Result<Done, DbError>)
    ensures
        outcome(r) == script_done(store@, ss@, customs@, now, ro),
{
    match run(State { store, pc: 0, out: no_rows(), over: false }, ss, customs, now, ro) {
        Err(e) => Err(e),
        Ok(st) => {
            let rels = lasting(&st.store.rels);
            Ok(Done { store: Store { rels, ..st.store }, out: st.out })
        },
    }
}

} // verus!
