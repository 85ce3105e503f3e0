use vstd::prelude::*;
use petgraph::graph::{DiGraph, NodeIndex};
use rand::seq::SliceRandom;

verus! {

#[verifier::external_type_specification]
#[verifier::external_body]
#[verifier::reject_recursive_types(N)]
#[verifier::reject_recursive_types(E)]
#[verifier::reject_recursive_types(Ty)]
#[verifier::reject_recursive_types(Ix)]
pub struct ExGraph<N, E, Ty, Ix>(petgraph::graph::Graph<N, E, Ty, Ix>);

#[verifier::external_type_specification]
#[verifier::external_body]
pub struct ExDirected(petgraph::Directed);

/// Largest node count accepted by the generator: petgraph's default index is
/// a `u32` whose largest value is reserved, and a generated graph holds at
/// most eight edges per node, so `8 * MAX_NODES` must stay below it.
pub const MAX_NODES: usize = 536_870_911;

/// Number of random outbound edges added to each node beyond its cycle edge.
pub const EXTRA_EDGES: usize = 7;

/// The directed edges of a graph, in the order in which they were added.
pub uninterp spec fn edges_of(g: DiGraph<(), ()>) -> Seq<(nat, nat)>;

/// The number of nodes of a graph.
pub uninterp spec fn node_count_of(g: DiGraph<(), ()>) -> nat;

/// Successor of `u` on the cycle through nodes `0 .. n`.
pub open spec fn cycle_next(n: nat, u: nat) -> nat {
    if u + 1 == n { 0 } else { u + 1 }
}

/// The cycle `0 -> 1 -> ... -> n-1 -> 0`; empty for fewer than two nodes,
/// where closing the cycle would make a self-loop.
pub open spec fn cycle_edges(n: nat) -> Seq<(nat, nat)> {
    Seq::new(if n >= 2 { n } else { 0 }, |i: int| (i as nat, cycle_next(n, i as nat)))
}

/// Number of random edges each node receives: seven, or fewer when the
/// node pool cannot supply seven targets that are neither the node itself
/// nor its cycle successor.
pub open spec fn extra_count(n: nat) -> nat {
    if n < 2 { 0 } else if n - 2 < 7 { (n - 2) as nat } else { 7 }
}

/// Out-degree of every node of a generated graph on `n` nodes: its cycle
/// edge and its random edges.
pub open spec fn expected_out_degree(n: nat) -> nat {
    if n >= 2 { 1 + extra_count(n) } else { 0 }
}

/// Number of edges leaving `u`.
pub open spec fn out_degree(edges: Seq<(nat, nat)>, u: nat) -> nat
    decreases edges.len(),
{
    if edges.len() == 0 {
        0
    } else {
        out_degree(edges.drop_last(), u) + if edges.last().0 == u { 1nat } else { 0nat }
    }
}

/// Every edge joins two distinct nodes below `n`, and no edge occurs twice.
pub open spec fn simple_edges(n: nat, edges: Seq<(nat, nat)>) -> bool {
    &&& edges.no_duplicates()
    &&& forall|k: int| 0 <= k < edges.len() ==> {
        &&& edges[k].0 < n
        &&& edges[k].1 < n
        &&& edges[k].0 != edges[k].1
    }
}

/// `p` is a walk along `edges`.
pub open spec fn is_path(edges: Seq<(nat, nat)>, p: Seq<nat>) -> bool {
    &&& p.len() >= 1
    &&& forall|j: int| 0 <= j < p.len() - 1 ==> edges.contains((#[trigger] p[j], p[j + 1]))
}

/// There is a walk along `edges` from `a` to `b`.
pub open spec fn reaches(edges: Seq<(nat, nat)>, a: nat, b: nat) -> bool {
    exists|p: Seq<nat>| is_path(edges, p) && p[0] == a && p.last() == b
}

/// What a generated graph on `n` nodes satisfies.
pub open spec fn generated(n: nat, g: DiGraph<(), ()>) -> bool {
    let edges = edges_of(g);
    &&& node_count_of(g) == n
    &&& simple_edges(n, edges)
    &&& edges.len() >= cycle_edges(n).len()
    &&& edges.subrange(0, cycle_edges(n).len() as int) == cycle_edges(n)
    &&& forall|u: nat| u < n ==> out_degree(edges, u) == expected_out_degree(n)
    &&& edges.len() == n * expected_out_degree(n)
}

/// Relies on petgraph's `Graph::new`: a graph with no nodes and no edges.
#[verifier::external_body]
fn new_graph() -> (r: DiGraph<(), ()>)
    ensures
        node_count_of(r) == 0,
        edges_of(r) == Seq::<(nat, nat)>::empty(),
{
    DiGraph::new()
}

/// Relies on petgraph's `Graph::add_node`: the new node's index is the old
/// node count; it panics only once the `u32` index space is exhausted.
#[verifier::external_body]
fn add_node(g: &mut DiGraph<(), ()>) -> (r: usize)
    requires
        node_count_of(*old(g)) < 0xffff_fffe,
    ensures
        r == node_count_of(*old(g)),
        node_count_of(*final(g)) == node_count_of(*old(g)) + 1,
        edges_of(*final(g)) == edges_of(*old(g)),
{
    g.add_node(()).index()
}

/// Relies on petgraph's `Graph::add_edge`: appends the edge `a -> b`; it
/// panics on a node index out of bounds or an exhausted `u32` edge index.
#[verifier::external_body]
fn add_edge(g: &mut DiGraph<(), ()>, a: usize, b: usize)
    requires
        a < node_count_of(*old(g)),
        b < node_count_of(*old(g)),
        edges_of(*old(g)).len() < 0xffff_fffe,
    ensures
        node_count_of(*final(g)) == node_count_of(*old(g)),
        edges_of(*final(g)) == edges_of(*old(g)).push((a as nat, b as nat)),
{
    g.add_edge(NodeIndex::new(a), NodeIndex::new(b), ());
}

/// Relies on petgraph's `Graph::contains_edge`: whether an edge `a -> b`
/// exists in a directed graph.
#[verifier::external_body]
fn contains_edge(g: &DiGraph<(), ()>, a: usize, b: usize) -> (r: bool)
    requires
        a < node_count_of(*g),
        b < node_count_of(*g),
    ensures
        r == edges_of(*g).contains((a as nat, b as nat)),
{
    g.contains_edge(NodeIndex::new(a), NodeIndex::new(b))
}

/// Relies on rand's `SliceRandom::choose` with the thread-local generator:
/// `None` for an empty slice, else one of its elements.
#[verifier::external_body]
fn choose_candidate(c: &Vec<usize>) -> (r: Option<usize>)
    ensures
        r.is_none() <==> c@.len() == 0,
        r matches Some(x) ==> c@.contains(x),
{
    c.choose(&mut rand::thread_rng()).copied()
}

proof fn lemma_out_degree_push(edges: Seq<(nat, nat)>, e: (nat, nat), u: nat)
    ensures
        out_degree(edges.push(e), u) == out_degree(edges, u) + if e.0 == u { 1nat } else { 0nat },
{
    assert(edges.push(e).drop_last() =~= edges);
}

/// A generated graph is strongly connected: from any node, walking the
/// cycle forward reaches any other node.
pub proof fn lemma_generated_strongly_connected(n: nat, g: DiGraph<(), ()>, a: nat, b: nat)
    requires
        generated(n, g),
        a < n,
        b < n,
    ensures
        reaches(edges_of(g), a, b),
{
    let edges = edges_of(g);
    let len: nat = if a <= b { (b - a + 1) as nat } else { (n - a + b + 1) as nat };
    let p = Seq::new(len, |j: int| if a + j < n { (a + j) as nat } else { (a + j - n) as nat });
    if n < 2 {
        assert(is_path(edges, p));
    } else {
        assert forall|j: int| 0 <= j < p.len() - 1 implies edges.contains((#[trigger] p[j], p[j + 1])) by {
            let x = p[j];
            assert(edges.subrange(0, n as int)[x as int] == cycle_edges(n)[x as int]);
            assert(edges[x as int] == (x, cycle_next(n, x)));
        }
    }
    assert(is_path(edges, p) && p[0] == a && p.last() == b);
}

/// No node of a generated graph has more than eight outbound edges: its
/// cycle edge and at most seven random ones.
pub proof fn lemma_generated_fan_out_bounded(n: nat, g: DiGraph<(), ()>, u: nat)
    requires
        generated(n, g),
        u < n,
    ensures
        out_degree(edges_of(g), u) <= 1 + EXTRA_EDGES,
{
}

/// Builds a directed graph on `number` nodes: the cycle through all nodes in
/// creation order, then for each node up to seven random outbound edges to
/// distinct nodes that are neither the node itself nor already its targets.
pub fn create_graph(number: usize) -> (g: DiGraph<(), ()>)
    requires
        number <= MAX_NODES,
    ensures
        generated(number as nat, g),
{
    let ghost n = number as nat;
    let mut g = new_graph();
    let mut i: usize = 0;
    while i < number
        invariant
            i <= number <= MAX_NODES,
            node_count_of(g) == i,
            edges_of(g) == Seq::<(nat, nat)>::empty(),
        decreases number - i,
    {
        add_node(&mut g);
        i = i + 1;
    }
    if number >= 2 {
        let mut i: usize = 1;
        while i < number
            invariant
                2 <= number <= MAX_NODES,
                n == number,
                1 <= i <= number,
                node_count_of(g) == n,
                edges_of(g) =~= cycle_edges(n).subrange(0, i - 1),
                forall|w: nat| w < n ==> out_degree(edges_of(g), w) == if w + 1 < i { 1nat } else { 0nat },
            decreases number - i,
        {
            proof {
                assert forall|w: nat| w < n implies #[trigger] out_degree(edges_of(g).push(((i - 1) as nat, i as nat)), w)
                    == if w < i { 1nat } else { 0nat } by {
                    lemma_out_degree_push(edges_of(g), ((i - 1) as nat, i as nat), w);
                }
            }
            add_edge(&mut g, i - 1, i);
            assert(edges_of(g) =~= cycle_edges(n).subrange(0, i as int));
            i = i + 1;
        }
        proof {
            assert forall|w: nat| w < n implies #[trigger] out_degree(edges_of(g).push(((n - 1) as nat, 0nat)), w) == 1 by {
                lemma_out_degree_push(edges_of(g), ((n - 1) as nat, 0nat), w);
            }
        }
        add_edge(&mut g, number - 1, 0);
        assert(edges_of(g) =~= cycle_edges(n));
    }
    proof {
        assert(edges_of(g) =~= cycle_edges(n));
        assert forall|k: int, l: int| 0 <= k < l < edges_of(g).len() implies edges_of(g)[k] != edges_of(g)[l] by {
            assert(edges_of(g)[k].0 == k && edges_of(g)[l].0 == l);
        }
    }
    let ghost clen = cycle_edges(n).len();
    let mut u: usize = 0;
    while u < number
        invariant
            u <= number <= MAX_NODES,
            n == number,
            clen == cycle_edges(n).len(),
            node_count_of(g) == n,
            simple_edges(n, edges_of(g)),
            clen <= edges_of(g).len() <= clen + 7 * u,
            edges_of(g).len() == clen + u * extra_count(n),
            forall|k: int| 0 <= k < clen ==> edges_of(g)[k] == cycle_edges(n)[k],
            forall|k: int| 0 <= k < edges_of(g).len() && edges_of(g)[k].0 >= u ==> k < clen,
            forall|w: nat| w < n ==> out_degree(edges_of(g), w) ==
                if w < u { expected_out_degree(n) } else if n >= 2 { 1nat } else { 0nat },
        decreases number - u,
    {
        let mut candidates: Vec<usize> = Vec::new();
        let mut v: usize = 0;
        while v < number
            invariant
                u < number <= MAX_NODES,
                n == number,
                v <= number,
                node_count_of(g) == n,
                clen == cycle_edges(n).len(),
                clen <= edges_of(g).len(),
                forall|k: int| 0 <= k < clen ==> edges_of(g)[k] == cycle_edges(n)[k],
                forall|k: int| 0 <= k < edges_of(g).len() && edges_of(g)[k].0 >= u ==> k < clen,
                forall|k: int| 0 <= k < candidates.len() ==> {
                    &&& #[trigger] candidates[k] < v
                    &&& candidates[k] != u
                    &&& !edges_of(g).contains((u as nat, candidates[k] as nat))
                },
                forall|k: int, l: int| 0 <= k < l < candidates.len() ==> candidates[k] < candidates[l],
                candidates.len() == v - (if u < v { 1int } else { 0int })
                    - (if n >= 2 && cycle_next(n, u as nat) < v { 1int } else { 0int }),
            decreases number - v,
        {
            proof {
                if n >= 2 {
                    assert(edges_of(g)[u as int] == cycle_edges(n)[u as int]);
                }
                if edges_of(g).contains((u as nat, v as nat)) {
                    let k = choose|k: int| 0 <= k < edges_of(g).len() && edges_of(g)[k] == (u as nat, v as nat);
                    assert(k < clen);
                    assert(edges_of(g)[k] == cycle_edges(n)[k]);
                }
            }
            if v != u && !contains_edge(&g, u, v) {
                candidates.push(v);
            }
            v = v + 1;
        }
        proof {
            if n >= 2 {
                assert(cycle_next(n, u as nat) != u);
            }
        }
        let ghost navail = candidates.len();
        let mut added: usize = 0;
        let mut j: usize = 0;
        while j < EXTRA_EDGES
            invariant
                u < number <= MAX_NODES,
                n == number,
                j <= 7,
                added <= j,
                clen == cycle_edges(n).len(),
                node_count_of(g) == n,
                simple_edges(n, edges_of(g)),
                clen <= edges_of(g).len() <= clen + 7 * u + added,
                edges_of(g).len() == clen + u * extra_count(n) + added,
                forall|k: int| 0 <= k < clen ==> edges_of(g)[k] == cycle_edges(n)[k],
                forall|k: int| 0 <= k < edges_of(g).len() && edges_of(g)[k].0 > u ==> k < clen,
                forall|k: int| 0 <= k < candidates.len() ==> {
                    &&& #[trigger] candidates[k] < n
                    &&& candidates[k] != u
                    &&& !edges_of(g).contains((u as nat, candidates[k] as nat))
                },
                candidates@.no_duplicates(),
                candidates.len() + added == navail,
                navail == if n >= 2 { (n - 2) as nat } else { 0nat },
                added == j || candidates.len() == 0,
                forall|w: nat| w < n ==> out_degree(edges_of(g), w) ==
                    if w < u { expected_out_degree(n) }
                    else if w == u { ((if n >= 2 { 1nat } else { 0nat }) + added) as nat }
                    else if n >= 2 { 1nat } else { 0nat },
            decreases EXTRA_EDGES - j,
        {
            match choose_candidate(&candidates) {
                Some(t) => {
                    let ghost e = (u as nat, t as nat);
                    let ghost before = edges_of(g);
                    proof {
                        let k = choose|k: int| 0 <= k < candidates.len() && candidates[k] == t;
                        assert(candidates[k] < n);
                        assert forall|w: nat| w < n implies #[trigger] out_degree(before.push(e), w)
                            == out_degree(before, w) + if w == u { 1nat } else { 0nat } by {
                            lemma_out_degree_push(before, e, w);
                        }
                        assert forall|a: int, b: int| 0 <= a < b < before.push(e).len()
                            implies before.push(e)[a] != before.push(e)[b] by {
                            if b == before.len() {
                                assert(before.contains(before[a]));
                            }
                        }
                    }
                    add_edge(&mut g, u, t);
                    let mut k: usize = 0;
                    while k < candidates.len() && candidates[k] != t
                        invariant
                            k <= candidates.len(),
                            candidates@.contains(t),
                            forall|m: int| 0 <= m < k ==> candidates[m] != t,
                        decreases candidates.len() - k,
                    {
                        k = k + 1;
                    }
                    let ghost old_c = candidates@;
                    candidates.remove(k);
                    proof {
                        assert forall|m: int| 0 <= m < candidates.len() implies
                            #[trigger] candidates[m] == old_c[if m < k { m } else { m + 1 }] by {}
                        assert forall|m: int| 0 <= m < candidates.len() implies
                            #[trigger] candidates[m] != t by {
                            let i = if m < k { m } else { m + 1 };
                            assert(old_c[i] != old_c[k as int]);
                        }
                        assert forall|a: int, b: int| 0 <= a < b < candidates.len()
                            implies candidates[a] != candidates[b] by {
                            let ia = if a < k { a } else { a + 1 };
                            let ib = if b < k { b } else { b + 1 };
                            assert(old_c[ia] != old_c[ib]);
                        }
                        assert forall|m: int| 0 <= m < candidates.len() implies
                            !edges_of(g).contains((u as nat, #[trigger] candidates[m] as nat)) by {
                            let i = if m < k { m } else { m + 1 };
                            assert(old_c[i] == candidates[m]);
                            if edges_of(g).contains((u as nat, candidates[m] as nat)) {
                                let q = choose|q: int| 0 <= q < edges_of(g).len()
                                    && edges_of(g)[q] == (u as nat, candidates[m] as nat);
                                if q < before.len() {
                                    assert(before.contains(before[q]));
                                }
                            }
                        }
                    }
                    added = added + 1;
                },
                None => {},
            }
            j = j + 1;
        }
        assert(added == extra_count(n));
        assert((u + 1) * extra_count(n) == u * extra_count(n) + extra_count(n)) by (nonlinear_arith);
        u = u + 1;
    }
    assert(edges_of(g).subrange(0, clen as int) =~= cycle_edges(n));
    proof {
        if n >= 2 {
            assert(n + n * extra_count(n) == n * (1 + extra_count(n))) by (nonlinear_arith);
        } else {
            assert(n * extra_count(n) == 0);
        }
    }
    g
}

} // verus!
