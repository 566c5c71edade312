//! The way that a script takes through its conditions and loops.
use vstd::prelude::*;

use crate::aggr::CustomV;
use crate::error::Fault;
use crate::scan::{SourceV, scanned};
use crate::script::{StateV, close_from, open_from, opens, step_of};
use crate::stmt::StmtV;
use crate::value::Value;

verus! {

/// Whether a statement begins a loop or a condition.
pub open spec fn begins(s: StmtV) -> bool {
    s is Loop || s is IfRel || s is IfQuery
}

/// How many more loops and conditions begin than end from one place up to another.
pub open spec fn level(ss: Seq<StmtV>, a: int, b: int) -> int
    decreases b - a,
{
    if a >= b {
        0
    } else {
        level(ss, a, b - 1) + if begins(ss[b - 1]) {
            1int
        } else if ss[b - 1] is End {
            -1
        } else {
            0
        }
    }
}

proof fn lemma_level_front(ss: Seq<StmtV>, a: int, b: int)
    requires
        a < b,
    ensures
        level(ss, a, b) == level(ss, a + 1, b) + if begins(ss[a]) {
            1int
        } else if ss[a] is End {
            -1
        } else {
            0
        },
    decreases b - a,
{
    reveal_with_fuel(level, 2);
    if a + 1 < b {
        lemma_level_front(ss, a, b - 1);
    }
}

/// Whether what is open at place `a` is still open at place `b`, with nothing
/// inside it open there.
pub open spec fn closes_at(ss: Seq<StmtV>, a: int, b: int) -> bool {
    &&& a <= b < ss.len()
    &&& level(ss, a, b) == 0
    &&& forall|k: int| a <= k <= b ==> #[trigger] level(ss, a, k) >= 0
}

proof fn lemma_close(ss: Seq<StmtV>, a: int, i: int, depth: nat, at_else: bool)
    requires
        0 <= a <= i <= ss.len(),
        level(ss, a, i) == depth,
        forall|k: int| a <= k <= i ==> #[trigger] level(ss, a, k) >= 0,
        forall|k: int|
            a <= k < i && #[trigger] level(ss, a, k) == 0 ==> !(ss[k] is End) && !(at_else
                && ss[k] is Else),
    ensures
        ({
            let c = close_from(ss, i, depth, at_else);
            &&& c <= ss.len()
            &&& c < ss.len() ==> closes_at(ss, a, c) && (ss[c] is End || at_else && ss[c] is Else)
            &&& forall|k: int|
                a <= k < c && #[trigger] level(ss, a, k) == 0 ==> !(ss[k] is End) && !(at_else
                    && ss[k] is Else)
        }),
    decreases ss.len() - i,
{
    if i < ss.len() {
        assert(level(ss, a, i + 1) == level(ss, a, i) + if begins(ss[i]) {
            1int
        } else if ss[i] is End {
            -1
        } else {
            0
        });
        if opens(ss[i]) {
            lemma_close(ss, a, i + 1, depth + 1, at_else);
        } else {
            match ss[i] {
                StmtV::End => {
                    if depth > 0 {
                        lemma_close(ss, a, i + 1, (depth - 1) as nat, at_else);
                    }
                },
                StmtV::Else => {
                    if !(depth == 0 && at_else) {
                        lemma_close(ss, a, i + 1, depth, at_else);
                    }
                },
                _ => {
                    lemma_close(ss, a, i + 1, depth, at_else);
                },
            }
        }
    }
}

proof fn lemma_open(ss: Seq<StmtV>, start: int, i: int, depth: nat)
    requires
        0 <= i <= start <= ss.len(),
        level(ss, i, start) == -depth,
    ensures
        open_from(ss, i, depth, false) matches Some(k) ==> 0 <= k < i && begins(ss[k]) && level(
            ss,
            k + 1,
            start,
        ) == 0,
    decreases i,
{
    if i > 0 {
        lemma_level_front(ss, i - 1, start);
        if ss[i - 1] is End {
            lemma_open(ss, start, i - 1, depth + 1);
        } else if opens(ss[i - 1]) {
            if depth > 0 {
                lemma_open(ss, start, i - 1, (depth - 1) as nat);
            }
        } else {
            lemma_open(ss, start, i - 1, depth);
        }
    }
}

proof fn lemma_open_loop(ss: Seq<StmtV>, i: int, depth: nat)
    requires
        0 <= i <= ss.len(),
    ensures
        open_from(ss, i, depth, true) matches Some(k) ==> 0 <= k < i && ss[k] is Loop,
    decreases i,
{
    if i > 0 {
        if ss[i - 1] is End {
            lemma_open_loop(ss, i - 1, depth + 1);
        } else if opens(ss[i - 1]) {
            if depth > 0 {
                lemma_open_loop(ss, i - 1, (depth - 1) as nat);
            } else if !(ss[i - 1] is Loop) {
                lemma_open_loop(ss, i - 1, depth);
            }
        } else {
            lemma_open_loop(ss, i - 1, depth);
        }
    }
}

/// A condition on a relation whose first row ends in true, or on one that is asked
/// not to and has no rows, goes on behind itself; else the script goes on behind
/// the `else` or the end that belongs to the condition.
pub proof fn law_condition_chooses(
    st: StateV,
    ss: Seq<StmtV>,
    customs: Seq<CustomV>,
    now: i64,
    ro: bool,
    name: Seq<char>,
    neg: bool,
    src: SourceV,
    next: StateV,
)
    requires
        st.pc < ss.len() < usize::MAX,
        ss[st.pc as int] == StmtV::IfRel(name, neg),
        scanned(st.store.rels, name, None, None, None) == Ok::<SourceV, Fault>(src),
        step_of(st, ss, customs, now, ro) == Ok::<StateV, Fault>(next),
    ensures
        next.store == st.store,
        !next.over,
        ({
            let yes = src.rows.len() > 0 && src.rows[0].len() > 0 && src.rows[0].last()
                == Value::Bool(true);
            let no = src.rows.len() == 0 || src.rows[0].len() > 0 && src.rows[0].last()
                == Value::Bool(false);
            let a = st.pc + 1;
            &&& yes && !neg || no && neg ==> next.pc == a
            &&& yes && neg || no && !neg ==> closes_at(ss, a, next.pc - 1) && (ss[next.pc
                - 1] is End || ss[next.pc - 1] is Else)
        }),
{
    reveal(step_of);
    let a = st.pc + 1;
    assert(level(ss, a, a) == 0);
    lemma_close(ss, a, a, 0, true);
}

/// The end of a loop leads back to the loop, and the end of a condition to what
/// follows it; what is left of a loop is skipped by a `break`, and its next turn
/// begun by a `continue`.
pub proof fn law_loops_go_round(
    st: StateV,
    ss: Seq<StmtV>,
    customs: Seq<CustomV>,
    now: i64,
    ro: bool,
    next: StateV,
)
    requires
        st.pc < ss.len() < usize::MAX,
        step_of(st, ss, customs, now, ro) == Ok::<StateV, Fault>(next),
    ensures
        ({
            let s = ss[st.pc as int];
            &&& s is Loop ==> next.pc == st.pc + 1 && next.store == st.store
            &&& s is End ==> next.store == st.store && !next.over && ((next.pc < st.pc
                && ss[next.pc as int] is Loop && level(ss, next.pc + 1, st.pc as int) == 0)
                || next.pc == st.pc + 1)
            &&& s is Continue ==> next.store == st.store && !next.over && next.pc < st.pc
                && ss[next.pc as int] is Loop
            &&& s is Break ==> next.store == st.store && !next.over && next.pc > 0 && ss[next.pc
                - 1] is End && exists|k: int|
                0 <= k < st.pc && #[trigger] ss[k] is Loop && closes_at(ss, k + 1, next.pc - 1)
            &&& s is Else ==> next.store == st.store && !next.over && ss[next.pc - 1] is End
                && closes_at(ss, st.pc + 1, next.pc - 1)
            &&& s is Return ==> next.store == st.store && next.over && next.out.rows.len() == 0
        }),
{
    reveal(step_of);
    let pc = st.pc as int;
    let a = pc + 1;
    assert(level(ss, a, a) == 0);
    lemma_close(ss, a, a, 0, false);
    assert(level(ss, pc, pc) == 0);
    lemma_open(ss, pc, pc, 0);
    lemma_open_loop(ss, pc, 0);
    if let Some(k) = open_from(ss, pc, 0, true) {
        assert(level(ss, k + 1, k + 1) == 0);
        lemma_close(ss, k + 1, k + 1, 0, false);
    }
}

} // verus!
