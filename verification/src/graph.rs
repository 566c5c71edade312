//! Rules on graphs.
use vstd::prelude::*;

use crate::error::{DbError, ErrKind, Fault, err_on, fault_on, outcome};
use crate::expr::{is_number, number};
use crate::list::{Dup, List};
use crate::rules::{FixedRule, find_option, get_integer, integer_option, option_from};
use crate::stmt::{Param, ParamV};
use crate::table::{Rows, add_row, lemma_slot, slot_from, with_row};
use crate::value::{DataValue, Tuple, UNIT, Value, micros, micros_of, same, same_row};

verus! {

/// An option between zero and one, in millionths, and another number where it
/// is not given.
pub open spec fn part_of(opts: Seq<ParamV>, name: Seq<char>, other: u64) -> Result<u64, Fault> {
    match option_from(opts, name, 0) {
        None => Ok(other),
        Some(v) => if is_number(v) && 0 <= micros_of(v) <= UNIT {
            Ok(micros_of(v) as u64)
        } else {
            Err(fault_on(ErrKind::FixedRuleArgs, name))
        },
    }
}

fn get_part(opts: &List<Param>, name: &str, other: u64) -> (r: Result<u64, DbError>)
    ensures
        outcome(r) == part_of(opts@, name@, other),
{
    match find_option(opts, name) {
        None => Ok(other),
        Some(v) => {
            let m: i128 = micros(&v);
            if number(&v) && 0 <= m && m <= UNIT as i128 {
                Ok(m as u64)
            } else {
                Err(err_on(ErrKind::FixedRuleArgs, name))
            }
        },
    }
}

/// Whether the rows from place `i` on have two columns or more.
pub open spec fn are_edges(rows: Seq<Seq<Value>>, i: int) -> bool
    decreases rows.len() - i,
{
    if i < 0 || i >= rows.len() {
        true
    } else {
        rows[i].len() >= 2 && are_edges(rows, i + 1)
    }
}

fn check_edges(rows: &Rows) -> (r: bool)
    ensures
        r == are_edges(rows@, 0),
        r ==> forall|k: int| 0 <= k < rows@.len() ==> (#[trigger] rows@[k]).len() >= 2,
{
    let mut i: usize = 0;
    while i < rows.len()
        invariant
            i <= rows@.len(),
            are_edges(rows@, 0) == are_edges(rows@, i as int),
            forall|k: int| 0 <= k < i ==> (#[trigger] rows@[k]).len() >= 2,
        decreases rows@.len() - i,
    {
        if rows.get(i).len() < 2 {
            return false;
        }
        i = i + 1;
    }
    true
}

/// The nodes of the edges from place `i` on, each once and in order, with those
/// in `acc`.
pub open spec fn nodes_from(edges: Seq<Seq<Value>>, i: int, acc: Seq<Seq<Value>>) -> Seq<
    Seq<Value>,
>
    decreases edges.len() - i,
{
    if i < 0 || i >= edges.len() {
        acc
    } else {
        nodes_from(
            edges,
            i + 1,
            with_row(with_row(acc, seq![edges[i][0]]), seq![edges[i][1]]),
        )
    }
}

fn single(v: &DataValue) -> (r: Tuple)
    ensures
        r@ == seq![v@],
{
    let mut r: Tuple = List::new();
    r.push(v.dup());
    assert(r@ =~= seq![v@]);
    r
}

fn nodes(edges: &Rows) -> (r: Rows)
    requires
        forall|k: int| 0 <= k < edges@.len() ==> (#[trigger] edges@[k]).len() >= 2,
    ensures
        r@ == nodes_from(edges@, 0, Seq::empty()),
{
    let mut acc: Rows = List::new();
    let mut i: usize = 0;
    while i < edges.len()
        invariant
            i <= edges@.len(),
            forall|k: int| 0 <= k < edges@.len() ==> (#[trigger] edges@[k]).len() >= 2,
            nodes_from(edges@, 0, Seq::empty()) == nodes_from(edges@, i as int, acc@),
        decreases edges@.len() - i,
    {
        let e = edges.get(i);
        add_row(&mut acc, single(e.get(0)));
        add_row(&mut acc, single(e.get(1)));
        i = i + 1;
    }
    acc
}

/// How many edges from place `i` on begin at a node, added to `acc`.
pub open spec fn degree_from(edges: Seq<Seq<Value>>, v: Value, i: int, acc: nat) -> nat
    decreases edges.len() - i,
{
    if i < 0 || i >= edges.len() {
        acc
    } else if edges[i][0] == v {
        degree_from(edges, v, i + 1, acc + 1)
    } else {
        degree_from(edges, v, i + 1, acc)
    }
}

fn degree(edges: &Rows, v: &DataValue) -> (r: usize)
    requires
        forall|k: int| 0 <= k < edges@.len() ==> (#[trigger] edges@[k]).len() >= 2,
    ensures
        r == degree_from(edges@, v@, 0, 0),
{
    let mut acc: usize = 0;
    let mut i: usize = 0;
    while i < edges.len()
        invariant
            acc <= i <= edges@.len(),
            forall|k: int| 0 <= k < edges@.len() ==> (#[trigger] edges@[k]).len() >= 2,
            degree_from(edges@, v@, 0, 0) == degree_from(edges@, v@, i as int, acc as nat),
        decreases edges@.len() - i,
    {
        if same(edges.get(i).get(0), v) {
            acc = acc + 1;
        }
        i = i + 1;
    }
    acc
}

/// The place of a node from place `i` on, and the length where there is none.
pub open spec fn node_from(nodes: Seq<Seq<Value>>, v: Value, i: int) -> int
    decreases nodes.len() - i,
{
    if i < 0 || i >= nodes.len() {
        nodes.len() as int
    } else if nodes[i] == seq![v] {
        i
    } else {
        node_from(nodes, v, i + 1)
    }
}

fn find_node(nodes: &Rows, v: &DataValue) -> (r: usize)
    ensures
        r == node_from(nodes@, v@, 0),
        r <= nodes@.len(),
{
    let row = single(v);
    let mut i: usize = 0;
    while i < nodes.len()
        invariant
            i <= nodes@.len(),
            row@ == seq![v@],
            node_from(nodes@, v@, 0) == node_from(nodes@, v@, i as int),
        decreases nodes@.len() - i,
    {
        if same_row(nodes.get(i), &row) {
            return i;
        }
        i = i + 1;
    }
    i
}

/// The rank of a node, where it has one.
pub open spec fn rank_at(ranks: Seq<u64>, k: int) -> u64 {
    if 0 <= k < ranks.len() && ranks[k] <= UNIT {
        ranks[k]
    } else {
        0
    }
}

/// What the edges from place `i` on bring to a node: from each node its rank,
/// weakened and split among the edges that begin there.
pub open spec fn brought_from(
    edges: Seq<Seq<Value>>,
    nodes: Seq<Seq<Value>>,
    ranks: Seq<u64>,
    theta: u64,
    v: Value,
    i: int,
    acc: nat,
) -> nat
    decreases edges.len() - i,
{
    if i < 0 || i >= edges.len() {
        acc
    } else if edges[i][1] == v {
        let u = edges[i][0];
        let part = (rank_at(ranks, node_from(nodes, u, 0)) * theta / (UNIT as int)) / (degree_from(
            edges,
            u,
            0,
            0,
        ) as int);
        brought_from(edges, nodes, ranks, theta, v, i + 1, (acc + part) as nat)
    } else {
        brought_from(edges, nodes, ranks, theta, v, i + 1, acc)
    }
}

/// The rank of a node after one round: what every node has, and what is brought
/// to it; never more than one.
pub open spec fn next_rank(
    edges: Seq<Seq<Value>>,
    nodes: Seq<Seq<Value>>,
    ranks: Seq<u64>,
    theta: u64,
    v: Value,
) -> u64 {
    let all = (UNIT - theta) / (nodes.len() as int) + brought_from(
        edges,
        nodes,
        ranks,
        theta,
        v,
        0,
        0,
    );
    if all < UNIT {
        all as u64
    } else {
        UNIT as u64
    }
}

proof fn lemma_degree_grows(edges: Seq<Seq<Value>>, v: Value, i: int, acc: nat)
    requires
        0 <= i,
    ensures
        degree_from(edges, v, i, acc) >= acc,
    decreases edges.len() - i,
{
    if i < edges.len() {
        lemma_degree_grows(edges, v, i + 1, acc + 1);
        lemma_degree_grows(edges, v, i + 1, acc);
    }
}

proof fn lemma_degree_is_some(edges: Seq<Seq<Value>>, k: int, i: int, acc: nat)
    requires
        0 <= i <= k < edges.len(),
    ensures
        degree_from(edges, edges[k][0], i, acc) > acc,
    decreases k - i,
{
    let v = edges[k][0];
    if i == k {
        lemma_degree_grows(edges, v, i + 1, acc + 1);
    } else {
        lemma_degree_is_some(edges, k, i + 1, acc + 1);
        lemma_degree_is_some(edges, k, i + 1, acc);
    }
}

fn rerank(edges: &Rows, nodes: &Rows, ranks: &Vec<u64>, theta: u64, v: &DataValue) -> (r: u64)
    requires
        forall|k: int| 0 <= k < edges@.len() ==> (#[trigger] edges@[k]).len() >= 2,
        theta <= UNIT,
        nodes@.len() > 0,
    ensures
        r == next_rank(edges@, nodes@, ranks@, theta, v@),
        r <= UNIT,
{
    let mut acc: u128 = 0;
    let mut i: usize = 0;
    while i < edges.len()
        invariant
            i <= edges@.len(),
            forall|k: int| 0 <= k < edges@.len() ==> (#[trigger] edges@[k]).len() >= 2,
            theta <= UNIT,
            acc <= i * 1_000_000,
            brought_from(edges@, nodes@, ranks@, theta, v@, 0, 0) == brought_from(
                edges@,
                nodes@,
                ranks@,
                theta,
                v@,
                i as int,
                acc as nat,
            ),
        decreases edges@.len() - i,
    {
        let e = edges.get(i);
        if same(e.get(1), v) {
            let k = find_node(nodes, e.get(0));
            let rank: u64 = if k < ranks.len() && ranks[k] <= 1_000_000 {
                ranks[k]
            } else {
                0
            };
            let d = degree(edges, e.get(0));
            proof {
                lemma_degree_is_some(edges@, i as int, 0, 0);
            }
            assert(0 <= rank * theta <= 1_000_000 * 1_000_000) by (nonlinear_arith)
                requires
                    0 <= rank <= 1_000_000,
                    0 <= theta <= 1_000_000,
            ;
            let weak: u64 = rank * theta / 1_000_000;
            let part: u64 = weak / (d as u64);
            assert(part <= weak) by (nonlinear_arith)
                requires
                    part == weak / (d as u64),
                    d >= 1,
            ;
            acc = acc + part as u128;
        }
        i = i + 1;
    }
    let n = nodes.len() as u64;
    let base: u64 = (1_000_000 - theta) / n;
    assert(base <= 1_000_000) by (nonlinear_arith)
        requires
            base == (1_000_000 - theta) / (n as int),
            n >= 1,
            0 <= theta <= 1_000_000,
    ;
    let all: u128 = base as u128 + acc;
    if all < 1_000_000 {
        all as u64
    } else {
        1_000_000
    }
}

/// The ranks of all nodes after one round.
pub open spec fn next_ranks(
    edges: Seq<Seq<Value>>,
    nodes: Seq<Seq<Value>>,
    ranks: Seq<u64>,
    theta: u64,
) -> Seq<u64> {
    Seq::new(nodes.len(), |k: int| next_rank(edges, nodes, ranks, theta, nodes[k][0]))
}

/// How much the ranks from place `k` on differ, added to `acc`.
pub open spec fn moved_from(a: Seq<u64>, b: Seq<u64>, k: int, acc: nat) -> nat
    decreases a.len() - k,
{
    if k < 0 || k >= a.len() || k >= b.len() {
        acc
    } else if a[k] > b[k] {
        moved_from(a, b, k + 1, (acc + (a[k] - b[k])) as nat)
    } else {
        moved_from(a, b, k + 1, (acc + (b[k] - a[k])) as nat)
    }
}

fn moved(a: &Vec<u64>, b: &Vec<u64>) -> (r: u128)
    ensures
        r == moved_from(a@, b@, 0, 0),
{
    let mut acc: u128 = 0;
    let mut k: usize = 0;
    while k < a.len() && k < b.len()
        invariant
            k <= a@.len(),
            k <= b@.len(),
            acc <= k * 0xffff_ffff_ffff_ffff,
            moved_from(a@, b@, 0, 0) == moved_from(a@, b@, k as int, acc as nat),
        decreases a@.len() - k,
    {
        if a[k] > b[k] {
            acc = acc + (a[k] - b[k]) as u128;
        } else {
            acc = acc + (b[k] - a[k]) as u128;
        }
        k = k + 1;
    }
    acc
}

/// The ranks after at most so many rounds: no further round is made once one
/// moved the ranks by less than the told amount.
pub open spec fn ranks_after(
    edges: Seq<Seq<Value>>,
    nodes: Seq<Seq<Value>>,
    theta: u64,
    least: u64,
    ranks: Seq<u64>,
    rounds: nat,
) -> Seq<u64>
    decreases rounds,
{
    if rounds == 0 {
        ranks
    } else {
        let next = next_ranks(edges, nodes, ranks, theta);
        if moved_from(ranks, next, 0, 0) < least {
            next
        } else {
            ranks_after(edges, nodes, theta, least, next, (rounds - 1) as nat)
        }
    }
}

/// One row for each node: the node and its rank.
pub open spec fn ranked_rows(nodes: Seq<Seq<Value>>, ranks: Seq<u64>) -> Seq<Seq<Value>> {
    Seq::new(nodes.len(), |k: int| seq![nodes[k][0], Value::Real(rank_at(ranks, k) as i128)])
}

/// Ranks the nodes of a graph by how often one comes to them by following its
/// edges at random, setting out anew now and then.
pub struct PageRank;

impl FixedRule for PageRank {
    open spec fn arity_view(&self) -> usize {
        2
    }

    open spec fn rows_view(&self, input: Seq<Seq<Value>>, opts: Seq<ParamV>) -> Result<
        Seq<Seq<Value>>,
        Fault,
    > {
        match part_of(opts, "theta"@, 850_000) {
            Err(f) => Err(f),
            Ok(theta) => match part_of(opts, "epsilon"@, 100) {
                Err(f) => Err(f),
                Ok(least) => match integer_option(opts, "iterations"@, 10) {
                    Err(f) => Err(f),
                    Ok(n) => if !are_edges(input, 0) || !(0 <= n <= 1_000_000) {
                        Err(fault_on(ErrKind::FixedRuleArgs, "PageRank"@))
                    } else {
                        let nodes = nodes_from(input, 0, Seq::empty());
                        let first = Seq::new(
                            nodes.len(),
                            |k: int| ((UNIT as int) / (nodes.len() as int)) as u64,
                        );
                        Ok(
                            ranked_rows(
                                nodes,
                                ranks_after(input, nodes, theta, least, first, n as nat),
                            ),
                        )
                    },
                },
            },
        }
    }

    fn arity(&self) -> (r: usize) {
        2
    }

    fn run(&self, input: &Rows, opts: &List<Param>) -> (r: Result<Rows, DbError>) {
        let theta = match get_part(opts, "theta", 850_000) {
            Err(e) => {
                return Err(e);
            },
            Ok(m) => m,
        };
        let least = match get_part(opts, "epsilon", 100) {
            Err(e) => {
                return Err(e);
            },
            Ok(m) => m,
        };
        let n = match get_integer(opts, "iterations", 10) {
            Err(e) => {
                return Err(e);
            },
            Ok(n) => n,
        };
        if !check_edges(input) || !(0 <= n && n <= 1_000_000) {
            return Err(err_on(ErrKind::FixedRuleArgs, "PageRank"));
        }
        Ok(rank_nodes(input, theta, least, n as u64))
    }
}

fn rank_nodes(edges: &Rows, theta: u64, least: u64, n: u64) -> (r: Rows)
    requires
        forall|k: int| 0 <= k < edges@.len() ==> (#[trigger] edges@[k]).len() >= 2,
        theta <= UNIT,
    ensures
        ({
            let nodes = nodes_from(edges@, 0, Seq::empty());
            let first = Seq::new(
                nodes.len(),
                |k: int| ((UNIT as int) / (nodes.len() as int)) as u64,
            );
            r@ == ranked_rows(nodes, ranks_after(edges@, nodes, theta, least, first, n as nat))
        }),
{
    let all = nodes(edges);
    proof {
        lemma_nodes_are_single(edges@, 0, Seq::empty());
    }
    let count = all.len();
    let ghost first = Seq::new(
        all@.len(),
        |k: int| ((UNIT as int) / (all@.len() as int)) as u64,
    );
    let mut ranks: Vec<u64> = Vec::new();
    let mut i: usize = 0;
    while i < count
        invariant
            i <= count,
            count == all@.len(),
            first == Seq::new(all@.len(), |k: int| ((UNIT as int) / (all@.len() as int)) as u64),
            ranks@ =~= first.take(i as int),
        decreases count - i,
    {
        ranks.push(1_000_000u64 / count as u64);
        i = i + 1;
    }
    assert(first.take(i as int) =~= first);
    let ghost goal = ranks_after(edges@, all@, theta, least, first, n as nat);
    let mut left: u64 = n;
    let mut done: bool = false;
    while left > 0 && !done
        invariant
            forall|k: int| 0 <= k < edges@.len() ==> (#[trigger] edges@[k]).len() >= 2,
            forall|k: int| 0 <= k < all@.len() ==> (#[trigger] all@[k]).len() == 1,
            theta <= UNIT,
            count == all@.len(),
            done ==> goal == ranks@,
            !done ==> goal == ranks_after(edges@, all@, theta, least, ranks@, left as nat),
        decreases left,
    {
        let mut next: Vec<u64> = Vec::new();
        let ghost wanted = next_ranks(edges@, all@, ranks@, theta);
        let mut k: usize = 0;
        while k < count
            invariant
                k <= count,
                count == all@.len(),
                forall|k: int| 0 <= k < edges@.len() ==> (#[trigger] edges@[k]).len() >= 2,
                forall|k: int| 0 <= k < all@.len() ==> (#[trigger] all@[k]).len() == 1,
                theta <= UNIT,
                wanted == next_ranks(edges@, all@, ranks@, theta),
                next@ =~= wanted.take(k as int),
            decreases count - k,
        {
            next.push(rerank(edges, &all, &ranks, theta, all.get(k).get(0)));
            k = k + 1;
        }
        assert(wanted.take(k as int) =~= wanted);
        done = moved(&ranks, &next) < least as u128;
        ranks = next;
        left = left - 1;
    }
    let mut acc: Rows = List::new();
    let mut j: usize = 0;
    while j < count
        invariant
            j <= count,
            count == all@.len(),
            forall|k: int| 0 <= k < all@.len() ==> (#[trigger] all@[k]).len() == 1,
            acc@ =~= ranked_rows(all@, ranks@).take(j as int),
        decreases count - j,
    {
        let rank: u64 = if j < ranks.len() && ranks[j] <= 1_000_000 {
            ranks[j]
        } else {
            0
        };
        let mut row = single(all.get(j).get(0));
        row.push(DataValue::Real(rank as i128));
        assert(row@ =~= ranked_rows(all@, ranks@)[j as int]);
        acc.push(row);
        j = j + 1;
    }
    assert(ranked_rows(all@, ranks@).take(j as int) =~= ranked_rows(all@, ranks@));
    acc
}

proof fn lemma_nodes_are_single(edges: Seq<Seq<Value>>, i: int, acc: Seq<Seq<Value>>)
    requires
        0 <= i,
        forall|k: int| 0 <= k < acc.len() ==> (#[trigger] acc[k]).len() == 1,
    ensures
        forall|k: int|
            0 <= k < nodes_from(edges, i, acc).len() ==> (#[trigger] nodes_from(
                edges,
                i,
                acc,
            )[k]).len() == 1,
    decreases edges.len() - i,
{
    if i < edges.len() {
        let a = with_row(acc, seq![edges[i][0]]);
        lemma_with_single(acc, seq![edges[i][0]]);
        lemma_with_single(a, seq![edges[i][1]]);
        let b = with_row(a, seq![edges[i][1]]);
        lemma_nodes_are_single(edges, i + 1, b);
        assert(nodes_from(edges, i, acc) == nodes_from(edges, i + 1, b));
    }
}

proof fn lemma_with_single(rows: Seq<Seq<Value>>, row: Seq<Value>)
    requires
        row.len() == 1,
        forall|k: int| 0 <= k < rows.len() ==> (#[trigger] rows[k]).len() == 1,
    ensures
        forall|k: int|
            0 <= k < with_row(rows, row).len() ==> (#[trigger] with_row(rows, row)[k]).len() == 1,
{
    let s = slot_from(rows, row, rows.len() as int);
    lemma_slot(rows, row, rows.len() as int);
    let out = with_row(rows, row);
    assert forall|k: int| 0 <= k < out.len() implies (#[trigger] out[k]).len() == 1 by {
        if !(s > 0 && rows[s - 1] == row) {
            if k < s {
                assert(out[k] == rows[k]);
            } else if k > s {
                assert(out[k] == rows[k - 1]);
            }
        }
    }
}

/// No node is ranked higher than one.
pub proof fn law_rank_is_a_part(
    edges: Seq<Seq<Value>>,
    nodes: Seq<Seq<Value>>,
    ranks: Seq<u64>,
    theta: u64,
    v: Value,
)
    requires
        theta <= UNIT,
        nodes.len() > 0,
    ensures
        next_rank(edges, nodes, ranks, theta, v) <= UNIT,
{
    assert((UNIT - theta) / (nodes.len() as int) >= 0) by (nonlinear_arith)
        requires
            theta <= UNIT,
            nodes.len() > 0,
    ;
}

} // verus!
