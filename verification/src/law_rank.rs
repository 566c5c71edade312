//! What the ranks of nodes are made of.
use vstd::prelude::*;

use crate::graph::{brought_from, degree_from, next_rank, node_from, nodes_from, rank_at};
use crate::table::{ascending, law_with_row, with_row};
use crate::value::Value;

verus! {

/// How many of the first `i` edges begin at a node.
pub open spec fn beginning(edges: Seq<Seq<Value>>, v: Value, i: int) -> nat
    decreases i,
{
    if i <= 0 {
        0
    } else {
        beginning(edges, v, i - 1) + if edges[i - 1][0] == v {
            1nat
        } else {
            0
        }
    }
}

proof fn lemma_degree(edges: Seq<Seq<Value>>, v: Value, i: int, acc: nat)
    requires
        0 <= i <= edges.len(),
        acc == beginning(edges, v, i),
    ensures
        degree_from(edges, v, i, acc) == beginning(edges, v, edges.len() as int),
    decreases edges.len() - i,
{
    if i < edges.len() {
        lemma_degree(edges, v, i + 1, beginning(edges, v, i + 1));
    }
}

/// The share of its rank that a node gives along one of its edges: the part that
/// is passed on, split among the edges that begin at the node.
pub open spec fn share_of(
    edges: Seq<Seq<Value>>,
    nodes: Seq<Seq<Value>>,
    ranks: Seq<u64>,
    theta: u64,
    u: Value,
) -> int {
    (rank_at(ranks, node_from(nodes, u, 0)) * theta / 1_000_000) / (beginning(
        edges,
        u,
        edges.len() as int,
    ) as int)
}

proof fn lemma_share(
    edges: Seq<Seq<Value>>,
    nodes: Seq<Seq<Value>>,
    ranks: Seq<u64>,
    theta: u64,
    i: int,
)
    requires
        0 <= i < edges.len(),
    ensures
        beginning(edges, edges[i][0], edges.len() as int) > 0,
        share_of(edges, nodes, ranks, theta, edges[i][0]) >= 0,
{
    let u = edges[i][0];
    lemma_begins(edges, i, edges.len() as int);
    let n = beginning(edges, u, edges.len() as int) as int;
    let r = rank_at(ranks, node_from(nodes, u, 0)) as int;
    let t = theta as int;
    assert(r * t >= 0) by (nonlinear_arith)
        requires
            r >= 0,
            t >= 0,
    ;
    let m = r * t / 1_000_000;
    assert(m >= 0);
    assert(m / n >= 0) by (nonlinear_arith)
        requires
            m >= 0,
            n > 0,
    ;
}

proof fn lemma_begins(edges: Seq<Seq<Value>>, i: int, n: int)
    requires
        0 <= i < n <= edges.len(),
    ensures
        beginning(edges, edges[i][0], n) > 0,
    decreases n,
{
    if i < n - 1 {
        lemma_begins(edges, i, n - 1);
    }
}

proof fn lemma_brought(
    edges: Seq<Seq<Value>>,
    nodes: Seq<Seq<Value>>,
    ranks: Seq<u64>,
    theta: u64,
    v: Value,
    i: int,
    acc: nat,
    k: int,
)
    requires
        0 <= i <= edges.len(),
    ensures
        ({
            let all = brought_from(edges, nodes, ranks, theta, v, i, acc);
            &&& all >= acc
            &&& i <= k < edges.len() && edges[k][1] == v ==> all >= acc + share_of(
                edges,
                nodes,
                ranks,
                theta,
                edges[k][0],
            )
            &&& (forall|j: int| i <= j < edges.len() ==> (#[trigger] edges[j])[1] != v) ==> all
                == acc
        }),
    decreases edges.len() - i,
{
    if i < edges.len() {
        if edges[i][1] == v {
            let u = edges[i][0];
            assert(beginning(edges, u, 0) == 0);
            lemma_degree(edges, u, 0, 0);
            lemma_share(edges, nodes, ranks, theta, i);
            let part = share_of(edges, nodes, ranks, theta, u);
            lemma_brought(edges, nodes, ranks, theta, v, i + 1, (acc + part) as nat, k);
        } else {
            lemma_brought(edges, nodes, ranks, theta, v, i + 1, acc, k);
        }
    }
}

/// A node has what is left of the whole, split among all nodes, and to that what
/// each node with an edge to it gives; a node that no edge leads to has nothing
/// more. No rank is over one.
pub proof fn law_edges_bring_rank(
    edges: Seq<Seq<Value>>,
    nodes: Seq<Seq<Value>>,
    ranks: Seq<u64>,
    theta: u64,
    v: Value,
    k: int,
)
    requires
        theta <= 1_000_000,
        nodes.len() > 0,
    ensures
        ({
            let r = next_rank(edges, nodes, ranks, theta, v);
            let base = (1_000_000 - theta) / (nodes.len() as int);
            &&& base <= r <= 1_000_000
            &&& 0 <= k < edges.len() && edges[k][1] == v ==> r == 1_000_000 || r >= base + share_of(
                edges,
                nodes,
                ranks,
                theta,
                edges[k][0],
            )
            &&& (forall|j: int| 0 <= j < edges.len() ==> (#[trigger] edges[j])[1] != v) ==> r
                == base
        }),
{
    lemma_brought(edges, nodes, ranks, theta, v, 0, 0, k);
    let n = nodes.len() as int;
    let left = 1_000_000 - theta;
    assert(0 <= left / n <= left) by (nonlinear_arith)
        requires
            left >= 0,
            n > 0,
    ;
}

/// Whether a value is an end of one of the edges from place `i` on.
pub open spec fn is_end(edges: Seq<Seq<Value>>, v: Value, i: int) -> bool {
    exists|k: int|
        i <= k < edges.len() && ((#[trigger] edges[k])[0] == v || edges[k][1] == v)
}

proof fn lemma_nodes(edges: Seq<Seq<Value>>, i: int, acc: Seq<Seq<Value>>, v: Value)
    requires
        0 <= i <= edges.len(),
        ascending(acc),
    ensures
        ascending(nodes_from(edges, i, acc)),
        nodes_from(edges, i, acc).contains(seq![v]) <==> acc.contains(seq![v]) || is_end(
            edges,
            v,
            i,
        ),
    decreases edges.len() - i,
{
    if i < edges.len() {
        let a = seq![edges[i][0]];
        let b = seq![edges[i][1]];
        law_with_row(acc, a);
        law_with_row(with_row(acc, a), b);
        let more = with_row(with_row(acc, a), b);
        lemma_nodes(edges, i + 1, more, v);
        assert(seq![v][0] == v && a[0] == edges[i][0] && b[0] == edges[i][1]);
        assert(seq![v] == a <==> v == edges[i][0]);
        assert(seq![v] == b <==> v == edges[i][1]);
        assert(is_end(edges, v, i) <==> v == edges[i][0] || v == edges[i][1] || is_end(
            edges,
            v,
            i + 1,
        )) by {
            if is_end(edges, v, i) {
                let k = choose|k: int|
                    i <= k < edges.len() && ((#[trigger] edges[k])[0] == v || edges[k][1] == v);
                if k > i {
                    assert(edges[k][0] == v || edges[k][1] == v);
                }
            }
        }
    }
}

/// The nodes are the ends of the edges, each once and in order.
pub proof fn law_nodes_are_ends(edges: Seq<Seq<Value>>, v: Value)
    ensures
        ascending(nodes_from(edges, 0, Seq::empty())),
        nodes_from(edges, 0, Seq::empty()).contains(seq![v]) <==> is_end(edges, v, 0),
{
    lemma_nodes(edges, 0, Seq::empty(), v);
}

} // verus!
