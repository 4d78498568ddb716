//! The compatibility graph of one cycle and its greedy maximal matching.
//!
//! A graph is a number of nodes and a list of undirected edges in the order
//! in which they were added; it is kept in a `petgraph` graph. The matching
//! walks the nodes in order and pairs each node that is still free with the
//! first free neighbour, neighbours taken in the order in which their edges
//! were added. That order is part of what the matching promises, so the
//! matching is made here, from the graph's edges.

use petgraph::graph::{EdgeIndex, Graph, NodeIndex};
use petgraph::Undirected;
use vstd::prelude::*;

verus! {

/// Whether the pair `p` has `v` as one of its two ends.
pub open spec fn touches(p: (usize, usize), v: usize) -> bool {
    p.0 == v || p.1 == v
}

/// Whether some pair of `pairs` has `v` as an end.
pub open spec fn paired(pairs: Seq<(usize, usize)>, v: usize) -> bool {
    exists|k: int| 0 <= k < pairs.len() && touches(#[trigger] pairs[k], v)
}

/// Whether `edges` holds an edge between `a` and `b`, in either direction.
pub open spec fn joined(edges: Seq<(usize, usize)>, a: usize, b: usize) -> bool {
    exists|k: int|
        0 <= k < edges.len() && (#[trigger] edges[k] == (a, b) || edges[k] == (b, a))
}

/// Every edge joins two different nodes below `n`.
pub open spec fn edges_within(edges: Seq<(usize, usize)>, n: nat) -> bool {
    forall|k: int|
        0 <= k < edges.len() ==> {
            &&& (#[trigger] edges[k]).0 < n
            &&& edges[k].1 < n
            &&& edges[k].0 != edges[k].1
        }
}

/// The neighbours of `a`, one for each edge at `a`, in the order in which
/// the edges were added.
pub open spec fn neighbors_in(edges: Seq<(usize, usize)>, a: usize) -> Seq<usize>
    decreases edges.len(),
{
    if edges.len() == 0 {
        Seq::empty()
    } else {
        let rest = neighbors_in(edges.drop_last(), a);
        let e = edges.last();
        if e.0 == a {
            rest.push(e.1)
        } else if e.1 == a {
            rest.push(e.0)
        } else {
            rest
        }
    }
}

/// The first of `candidates` that no pair of `pairs` touches.
pub open spec fn first_free(candidates: Seq<usize>, pairs: Seq<(usize, usize)>) -> Option<usize>
    decreases candidates.len(),
{
    if candidates.len() == 0 {
        None
    } else if !paired(pairs, candidates[0]) {
        Some(candidates[0])
    } else {
        first_free(candidates.drop_first(), pairs)
    }
}

/// The pairs made once the nodes below `k` have had their turn.
pub open spec fn greedy_upto(edges: Seq<(usize, usize)>, k: nat) -> Seq<(usize, usize)>
    decreases k,
{
    if k == 0 {
        Seq::empty()
    } else {
        let before = greedy_upto(edges, (k - 1) as nat);
        let a = (k - 1) as usize;
        if paired(before, a) {
            before
        } else {
            match first_free(neighbors_in(edges, a), before) {
                Some(b) => before.push((a, b)),
                None => before,
            }
        }
    }
}

/// The greedy matching of the graph with `n` nodes and the edges `edges`:
/// the pairs in the order in which they are made.
pub open spec fn greedy_pairs(n: nat, edges: Seq<(usize, usize)>) -> Seq<(usize, usize)> {
    greedy_upto(edges, n)
}

/// The two pairs have no end in common.
pub open spec fn apart(p: (usize, usize), q: (usize, usize)) -> bool {
    p.0 != q.0 && p.0 != q.1 && p.1 != q.0 && p.1 != q.1
}

/// No node is an end of two pairs, and no pair joins a node to itself.
pub open spec fn is_disjoint(pairs: Seq<(usize, usize)>) -> bool {
    &&& forall|i: int| 0 <= i < pairs.len() ==> (#[trigger] pairs[i]).0 != pairs[i].1
    &&& forall|i: int, j: int|
        0 <= i < j < pairs.len() ==> apart(#[trigger] pairs[i], #[trigger] pairs[j])
}

/// `pairs` is a matching of the graph: each pair is an edge, and no node is
/// in two pairs.
pub open spec fn is_matching(edges: Seq<(usize, usize)>, pairs: Seq<(usize, usize)>) -> bool {
    &&& is_disjoint(pairs)
    &&& forall|i: int|
        0 <= i < pairs.len() ==> joined(edges, (#[trigger] pairs[i]).0, pairs[i].1)
}

/// No edge could be added to `pairs`: every edge has a paired end.
pub open spec fn is_maximal(edges: Seq<(usize, usize)>, pairs: Seq<(usize, usize)>) -> bool {
    forall|k: int|
        0 <= k < edges.len() ==> paired(pairs, (#[trigger] edges[k]).0) || paired(
            pairs,
            edges[k].1,
        )
}

/// A neighbour of `a` is joined to `a` by an edge, and the other way round.
pub proof fn lemma_neighbors_joined(edges: Seq<(usize, usize)>, a: usize, b: usize)
    ensures
        neighbors_in(edges, a).contains(b) ==> joined(edges, a, b),
        joined(edges, a, b) && a != b ==> neighbors_in(edges, a).contains(b),
    decreases edges.len(),
{
    if edges.len() == 0 {
    } else {
        let init = edges.drop_last();
        let e = edges.last();
        let rest = neighbors_in(init, a);
        lemma_neighbors_joined(init, a, b);
        if neighbors_in(edges, a).contains(b) {
            let i = choose|i: int|
                0 <= i < neighbors_in(edges, a).len() && neighbors_in(edges, a)[i] == b;
            if i < rest.len() {
                assert(rest[i] == b);
                assert(rest.contains(b));
                let k = choose|k: int|
                    0 <= k < init.len() && (#[trigger] init[k] == (a, b) || init[k] == (b, a));
                assert(edges[k] == init[k]);
            } else {
                assert(edges[edges.len() - 1] == e);
            }
        }
        if joined(edges, a, b) && a != b {
            let k = choose|k: int|
                0 <= k < edges.len() && (#[trigger] edges[k] == (a, b) || edges[k] == (b, a));
            if k < init.len() {
                assert(init[k] == edges[k]);
                assert(joined(init, a, b));
                let i = choose|i: int| 0 <= i < rest.len() && rest[i] == b;
                assert(neighbors_in(edges, a)[i] == b);
            } else {
                let m = neighbors_in(edges, a);
                assert(m[m.len() - 1] == b);
            }
        }
    }
}

/// What `first_free` finds is a candidate that is free, and when it finds
/// nothing every candidate is paired.
pub proof fn lemma_first_free(candidates: Seq<usize>, pairs: Seq<(usize, usize)>)
    ensures
        match first_free(candidates, pairs) {
            Some(b) => candidates.contains(b) && !paired(pairs, b),
            None => forall|i: int|
                0 <= i < candidates.len() ==> paired(pairs, #[trigger] candidates[i]),
        },
    decreases candidates.len(),
{
    if candidates.len() > 0 {
        if !paired(pairs, candidates[0]) {
            assert(candidates.contains(candidates[0]));
        } else {
            let tail = candidates.drop_first();
            lemma_first_free(tail, pairs);
            match first_free(tail, pairs) {
                Some(b) => {
                    let i = choose|i: int| 0 <= i < tail.len() && tail[i] == b;
                    assert(candidates[i + 1] == b);
                },
                None => {
                    assert forall|i: int| 0 <= i < candidates.len() implies paired(
                        pairs,
                        #[trigger] candidates[i],
                    ) by {
                        if i > 0 {
                            assert(tail[i - 1] == candidates[i]);
                        }
                    }
                },
            }
        }
    }
}

/// A node that is paired stays paired when a pair is added.
pub proof fn lemma_paired_push(pairs: Seq<(usize, usize)>, p: (usize, usize), v: usize)
    ensures
        paired(pairs.push(p), v) <==> paired(pairs, v) || touches(p, v),
{
    let more = pairs.push(p);
    if paired(pairs, v) {
        let k = choose|k: int| 0 <= k < pairs.len() && touches(#[trigger] pairs[k], v);
        assert(touches(more[k], v));
    }
    if touches(p, v) {
        assert(touches(more[pairs.len() as int], v));
    }
    if paired(more, v) {
        let k = choose|k: int| 0 <= k < more.len() && touches(#[trigger] more[k], v);
        if k < pairs.len() {
            assert(touches(pairs[k], v));
        }
    }
}

/// What holds of the pairs once the nodes below `k` have had their turn:
/// they form a matching among those nodes' edges, each pair was made at the
/// turn of its first end, and every node whose turn has passed is paired or
/// has no free neighbour left.
pub open spec fn settled(edges: Seq<(usize, usize)>, pairs: Seq<(usize, usize)>, k: nat) -> bool {
    &&& is_matching(edges, pairs)
    &&& forall|i: int| 0 <= i < pairs.len() ==> (#[trigger] pairs[i]).0 < k
    &&& forall|a: usize, i: int|
        #![trigger neighbors_in(edges, a)[i]]
        a < k && !paired(pairs, a) && 0 <= i < neighbors_in(edges, a).len() ==> paired(
            pairs,
            neighbors_in(edges, a)[i],
        )
}

proof fn lemma_settled_step(
    edges: Seq<(usize, usize)>,
    n: nat,
    before: Seq<(usize, usize)>,
    k: nat,
)
    requires
        edges_within(edges, n),
        0 < k <= n,
        n <= usize::MAX,
        settled(edges, before, (k - 1) as nat),
    ensures
        settled(
            edges,
            if paired(before, (k - 1) as usize) {
                before
            } else {
                match first_free(neighbors_in(edges, (k - 1) as usize), before) {
                    Some(b) => before.push(((k - 1) as usize, b)),
                    None => before,
                }
            },
            k,
        ),
{
    let a = (k - 1) as usize;
    let nbrs = neighbors_in(edges, a);
    lemma_first_free(nbrs, before);
    if !paired(before, a) {
        match first_free(nbrs, before) {
            Some(b) => {
                let after = before.push((a, b));
                lemma_neighbors_joined(edges, a, b);
                // the edge that joins a and b shows that they differ
                let e = choose|e: int|
                    0 <= e < edges.len() && (#[trigger] edges[e] == (a, b) || edges[e] == (b, a));
                assert(a != b);
                assert forall|i: int, j: int| 0 <= i < j < after.len() implies apart(
                    #[trigger] after[i],
                    #[trigger] after[j],
                ) by {
                    if j == before.len() {
                        assert(after[i] == before[i]);
                        if touches(before[i], a) {
                            assert(paired(before, a));
                        }
                        if touches(before[i], b) {
                            assert(paired(before, b));
                        }
                    } else {
                        assert(after[i] == before[i] && after[j] == before[j]);
                    }
                }
                assert forall|i: int| 0 <= i < after.len() implies joined(
                    edges,
                    (#[trigger] after[i]).0,
                    after[i].1,
                ) by {
                    if i < before.len() {
                        assert(after[i] == before[i]);
                    }
                }
                assert forall|x: usize, i: int|
                    #![trigger neighbors_in(edges, x)[i]]
                    x < k && !paired(after, x) && 0 <= i < neighbors_in(
                        edges,
                        x,
                    ).len() implies paired(after, neighbors_in(edges, x)[i]) by {
                    lemma_paired_push(before, (a, b), x);
                    lemma_paired_push(before, (a, b), neighbors_in(edges, x)[i]);
                }
            },
            None => {},
        }
    }
}

/// The greedy pairs made up to any turn are settled for that turn.
pub proof fn lemma_greedy_settled(edges: Seq<(usize, usize)>, n: nat, k: nat)
    requires
        edges_within(edges, n),
        k <= n,
        n <= usize::MAX,
    ensures
        settled(edges, greedy_upto(edges, k), k),
    decreases k,
{
    if k > 0 {
        lemma_greedy_settled(edges, n, (k - 1) as nat);
        lemma_settled_step(edges, n, greedy_upto(edges, (k - 1) as nat), k);
    }
}

/// The greedy matching is a matching, and it is maximal: no edge of the
/// graph has both ends unpaired.
pub proof fn lemma_greedy_is_maximal_matching(n: nat, edges: Seq<(usize, usize)>)
    requires
        edges_within(edges, n),
        n <= usize::MAX,
    ensures
        is_matching(edges, greedy_pairs(n, edges)),
        is_maximal(edges, greedy_pairs(n, edges)),
{
    let pairs = greedy_pairs(n, edges);
    lemma_greedy_settled(edges, n, n);
    assert forall|k: int| 0 <= k < edges.len() implies paired(pairs, (#[trigger] edges[k]).0)
        || paired(pairs, edges[k].1) by {
        let a = edges[k].0;
        let b = edges[k].1;
        if !paired(pairs, a) {
            lemma_neighbors_joined(edges, a, b);
            let i = choose|i: int|
                0 <= i < neighbors_in(edges, a).len() && neighbors_in(edges, a)[i] == b;
            assert(paired(pairs, neighbors_in(edges, a)[i]));
        }
    }
}

/// A pair is made at the turn of its smaller end: the first end of every
/// greedy pair is below the second.
pub proof fn lemma_greedy_ascending(edges: Seq<(usize, usize)>, n: nat, k: nat, i: int)
    requires
        edges_within(edges, n),
        k <= n,
        n <= usize::MAX,
        0 <= i < greedy_upto(edges, k).len(),
    ensures
        greedy_upto(edges, k)[i].0 < greedy_upto(edges, k)[i].1,
    decreases k,
{
    if k > 0 {
        let before = greedy_upto(edges, (k - 1) as nat);
        let a = (k - 1) as usize;
        if i < before.len() {
            lemma_greedy_ascending(edges, n, (k - 1) as nat, i);
        } else {
            let nbrs = neighbors_in(edges, a);
            lemma_first_free(nbrs, before);
            let b = first_free(nbrs, before)->Some_0;
            let at = choose|at: int| 0 <= at < nbrs.len() && nbrs[at] == b;
            lemma_neighbor_in_range(edges, n, a, at);
            if b < a {
                lemma_greedy_settled(edges, n, (k - 1) as nat);
                // b had its turn before a, and a, its neighbour, is still free
                lemma_neighbors_joined(edges, a, b);
                let e = choose|e: int|
                    0 <= e < edges.len() && (#[trigger] edges[e] == (a, b) || edges[e] == (b, a));
                assert(joined(edges, b, a));
                lemma_neighbors_joined(edges, b, a);
                let back = choose|back: int|
                    0 <= back < neighbors_in(edges, b).len() && neighbors_in(edges, b)[back] == a;
                assert(paired(before, neighbors_in(edges, b)[back]));
            }
        }
    }
}

/// `petgraph::graph::Graph`, as a value that is carried through: all that
/// is said of it is said by `node_total` and `edges_of`.
#[verifier::external_type_specification]
#[verifier::external_body]
#[verifier::reject_recursive_types(N)]
#[verifier::reject_recursive_types(E)]
#[verifier::reject_recursive_types(Ty)]
#[verifier::reject_recursive_types(Ix)]
pub struct ExGraph<N, E, Ty, Ix>(petgraph::graph::Graph<N, E, Ty, Ix>);

/// `petgraph::Undirected`: the marker of graphs whose edges have no
/// direction.
#[verifier::external_type_specification]
#[verifier::external_body]
pub struct ExUndirected(petgraph::Undirected);

/// The number of nodes of a `petgraph` graph.
pub uninterp spec fn node_total(g: Graph<(), (), Undirected, usize>) -> nat;

/// The edges of a `petgraph` graph, each as its two ends in the order in
/// which they were given, the edges in the order of their indices, which
/// is the order in which they were added.
pub uninterp spec fn edges_of(g: Graph<(), (), Undirected, usize>) -> Seq<(usize, usize)>;

/// `Graph::with_capacity(0, 0)`: a graph without nodes and edges.
#[verifier::external_body]
fn graph_empty() -> (g: Graph<(), (), Undirected, usize>)
    ensures
        node_total(g) == 0,
        edges_of(g) == Seq::<(usize, usize)>::empty(),
{
    Graph::with_capacity(0, 0)
}

/// `Graph::add_node`: one node more, whose index is the number of nodes
/// before; the edges stay. With `usize` indices there is no limit at which
/// it panics.
#[verifier::external_body]
fn graph_add_node(g: &mut Graph<(), (), Undirected, usize>)
    ensures
        node_total(*final(g)) == node_total(*old(g)) + 1,
        edges_of(*final(g)) == edges_of(*old(g)),
{
    g.add_node(());
}

/// `Graph::add_edge`: the edge from `a` to `b` is added after the edges
/// there are; the nodes stay. It panics where `a` or `b` is no node, which
/// the precondition rules out.
#[verifier::external_body]
fn graph_add_edge(g: &mut Graph<(), (), Undirected, usize>, a: usize, b: usize)
    requires
        a < node_total(*old(g)),
        b < node_total(*old(g)),
    ensures
        node_total(*final(g)) == node_total(*old(g)),
        edges_of(*final(g)) == edges_of(*old(g)).push((a, b)),
{
    g.add_edge(NodeIndex::new(a), NodeIndex::new(b), ());
}

/// `Graph::node_count`: the number of nodes.
#[verifier::external_body]
fn graph_node_count(g: &Graph<(), (), Undirected, usize>) -> (n: usize)
    ensures
        n == node_total(*g),
{
    g.node_count()
}

/// `Graph::edge_count`: the number of edges.
#[verifier::external_body]
fn graph_edge_count(g: &Graph<(), (), Undirected, usize>) -> (n: usize)
    ensures
        n == edges_of(*g).len(),
{
    g.edge_count()
}

/// `Graph::edge_endpoints` of the edge with index `k`: its two ends, in
/// the order in which `add_edge` was given them.
#[verifier::external_body]
fn graph_endpoints(g: &Graph<(), (), Undirected, usize>, k: usize) -> (ends: (usize, usize))
    requires
        k < edges_of(*g).len(),
    ensures
        ends == edges_of(*g)[k as int],
{
    let (a, b) = g.edge_endpoints(EdgeIndex::new(k)).unwrap();
    (a.index(), b.index())
}

/// A graph over the positions of a list: `node_count` nodes and undirected
/// edges, kept in the order in which they were added.
pub struct CompatibilityGraph {
    inner: Graph<(), (), Undirected, usize>,
}

/// The neighbours of every node below `n`, by the first `k` of `edges`.
pub open spec fn adjacency_upto(
    rows: Seq<Vec<usize>>,
    edges: Seq<(usize, usize)>,
    n: nat,
    k: int,
) -> bool {
    &&& rows.len() == n
    &&& forall|x: int|
        0 <= x < n ==> (#[trigger] rows[x])@ == neighbors_in(edges.take(k), x as usize)
}

impl CompatibilityGraph {
    /// Every edge joins two different nodes.
    pub closed spec fn wf(self) -> bool {
        edges_within(edges_of(self.inner), node_total(self.inner))
    }

    /// The number of nodes.
    pub closed spec fn nodes(self) -> nat {
        node_total(self.inner)
    }

    /// The edges, in the order in which they were added.
    pub closed spec fn edge_list(self) -> Seq<(usize, usize)> {
        edges_of(self.inner)
    }

    /// Every edge of a graph joins two different nodes of it.
    pub proof fn lemma_edges_within(self)
        requires
            self.wf(),
        ensures
            edges_within(self.edge_list(), self.nodes()),
    {
    }

    /// A graph of `n` nodes without edges.
    pub fn new(n: usize) -> (g: Self)
        ensures
            g.wf(),
            g.nodes() == n,
            g.edge_list() == Seq::<(usize, usize)>::empty(),
    {
        let mut inner = graph_empty();
        let mut i: usize = 0;
        while i < n
            invariant
                i <= n,
                node_total(inner) == i,
                edges_of(inner) == Seq::<(usize, usize)>::empty(),
            decreases n - i,
        {
            graph_add_node(&mut inner);
            i = i + 1;
        }
        CompatibilityGraph { inner }
    }

    /// The number of nodes.
    pub fn node_count(&self) -> (n: usize)
        requires
            self.wf(),
        ensures
            n == self.nodes(),
    {
        graph_node_count(&self.inner)
    }

    /// The number of edges.
    pub fn edge_count(&self) -> (n: usize)
        requires
            self.wf(),
        ensures
            n == self.edge_list().len(),
    {
        graph_edge_count(&self.inner)
    }

    /// The neighbours of `a` in the order in which their edges were added;
    /// none for a position that is no node.
    pub fn neighbors(&self, a: usize) -> (out: Vec<usize>)
        requires
            self.wf(),
        ensures
            out@ == if a < self.nodes() {
                neighbors_in(self.edge_list(), a)
            } else {
                Seq::<usize>::empty()
            },
    {
        let mut out: Vec<usize> = Vec::new();
        let m = graph_edge_count(&self.inner);
        let ghost edges = edges_of(self.inner);
        let mut k: usize = 0;
        assert(edges.take(0) == Seq::<(usize, usize)>::empty());
        while k < m
            invariant
                k <= m,
                m == edges.len(),
                edges == edges_of(self.inner),
                out@ == neighbors_in(edges.take(k as int), a),
            decreases m - k,
        {
            let (x, y) = graph_endpoints(&self.inner, k);
            proof {
                lemma_take_next(edges, k as int);
            }
            if x == a {
                out.push(y);
            } else if y == a {
                out.push(x);
            }
            k = k + 1;
        }
        proof {
            assert(edges.take(m as int) == edges);
            if a >= self.nodes() && out@.len() > 0 {
                lemma_neighbors_joined(edges, a, out@[0]);
                let e = choose|e: int|
                    0 <= e < edges.len() && (#[trigger] edges[e] == (a, out@[0]) || edges[e] == (
                        out@[0],
                        a,
                    ));
            }
        }
        out
    }

    /// Adds an edge between `a` and `b`. Both must be nodes, and different
    /// ones: otherwise nothing is added and the answer is `false`.
    pub fn add_edge(&mut self, a: usize, b: usize) -> (added: bool)
        requires
            old(self).wf(),
        ensures
            final(self).wf(),
            added == (a < old(self).nodes() && b < old(self).nodes() && a != b),
            final(self).nodes() == old(self).nodes(),
            final(self).edge_list() == if added {
                old(self).edge_list().push((a, b))
            } else {
                old(self).edge_list()
            },
    {
        let n = graph_node_count(&self.inner);
        if a >= n || b >= n || a == b {
            return false;
        }
        graph_add_edge(&mut self.inner, a, b);
        true
    }

    /// The neighbours of every node, in the order in which their edges
    /// were added.
    fn adjacency(&self) -> (rows: Vec<Vec<usize>>)
        requires
            self.wf(),
        ensures
            adjacency_upto(rows@, self.edge_list(), self.nodes(), self.edge_list().len() as int),
    {
        let n = graph_node_count(&self.inner);
        let m = graph_edge_count(&self.inner);
        let ghost edges = edges_of(self.inner);
        let mut rows: Vec<Vec<usize>> = Vec::new();
        let mut i: usize = 0;
        assert(edges.take(0) == Seq::<(usize, usize)>::empty());
        while i < n
            invariant
                i <= n,
                rows@.len() == i,
                forall|x: int| 0 <= x < i ==> (#[trigger] rows@[x])@ == Seq::<usize>::empty(),
            decreases n - i,
        {
            rows.push(Vec::new());
            i = i + 1;
        }
        let mut k: usize = 0;
        while k < m
            invariant
                k <= m,
                m == edges.len(),
                n == node_total(self.inner),
                edges == edges_of(self.inner),
                edges_within(edges, n as nat),
                adjacency_upto(rows@, edges, n as nat, k as int),
            decreases m - k,
        {
            let (a, b) = graph_endpoints(&self.inner, k);
            let ghost before = rows@;
            proof {
                lemma_take_next(edges, k as int);
            }
            let mut row_a = rows[a].clone();
            row_a.push(b);
            rows.set(a, row_a);
            let mut row_b = rows[b].clone();
            row_b.push(a);
            rows.set(b, row_b);
            proof {
                assert forall|x: int| 0 <= x < n implies (#[trigger] rows@[x])@ == neighbors_in(
                    edges.take(k + 1),
                    x as usize,
                ) by {
                    assert(before[x]@ == neighbors_in(edges.take(k as int), x as usize));
                }
            }
            k = k + 1;
        }
        rows
    }

    /// The greedy matching: the nodes take their turn in order, and a node
    /// that is still free is paired with its first free neighbour.
    pub fn greedy_matching(&self) -> (pairs: Vec<(usize, usize)>)
        requires
            self.wf(),
        ensures
            pairs@ == greedy_pairs(self.nodes(), self.edge_list()),
            is_matching(self.edge_list(), pairs@),
            is_maximal(self.edge_list(), pairs@),
            forall|i: int|
                0 <= i < pairs@.len() ==> (#[trigger] pairs@[i]).0 < pairs@[i].1 < self.nodes(),
    {
        let n = graph_node_count(&self.inner);
        let ghost edges = self.edge_list();
        proof {
            let all = greedy_pairs(n as nat, edges);
            lemma_greedy_is_maximal_matching(n as nat, edges);
            assert forall|i: int| 0 <= i < all.len() implies (#[trigger] all[i]).0 < all[i].1
                < n by {
                lemma_greedy_ascending(edges, n as nat, n as nat, i);
                lemma_pair_in_range(edges, n as nat, all, i);
            }
        }
        let rows = self.adjacency();
        assert(edges.take(edges.len() as int) == edges);
        let mut taken: Vec<bool> = Vec::new();
        let mut t: usize = 0;
        while t < n
            invariant
                t <= n,
                taken@.len() == t,
                forall|v: int| 0 <= v < t ==> !(#[trigger] taken@[v]),
            decreases n - t,
        {
            taken.push(false);
            t = t + 1;
        }
        let mut pairs: Vec<(usize, usize)> = Vec::new();
        let mut a: usize = 0;
        while a < n
            invariant
                a <= n,
                rows@.len() == n,
                edges_within(edges, n as nat),
                forall|x: int| 0 <= x < n ==> (#[trigger] rows@[x])@ == neighbors_in(edges, x as usize),
                taken@.len() == n,
                forall|v: int| 0 <= v < n ==> (#[trigger] taken@[v]) == paired(pairs@, v as usize),
                pairs@ == greedy_upto(edges, a as nat),
            decreases n - a,
        {
            if !taken[a] {
                let row = &rows[a];
                let ghost nbrs = neighbors_in(edges, a);
                let mut j: usize = 0;
                let mut found: Option<usize> = None;
                assert(nbrs.skip(0) == nbrs);
                while j < row.len() && found.is_none()
                    invariant
                        j <= row@.len(),
                        row@ == nbrs,
                        taken@.len() == n,
                        edges_within(edges, n as nat),
                        nbrs == neighbors_in(edges, a),
                        forall|v: int|
                            0 <= v < n ==> (#[trigger] taken@[v]) == paired(pairs@, v as usize),
                        match found {
                            Some(b) => first_free(nbrs, pairs@) == Some(b),
                            None => first_free(nbrs, pairs@) == first_free(
                                nbrs.skip(j as int),
                                pairs@,
                            ),
                        },
                    decreases row@.len() - j + (if found.is_none() { 1int } else { 0int }),
                {
                    let b = row[j];
                    proof {
                        let rest = nbrs.skip(j as int);
                        assert(rest[0] == b);
                        assert(rest.drop_first() == nbrs.skip(j + 1));
                        lemma_neighbor_in_range(edges, n as nat, a, j as int);
                    }
                    if !taken[b] {
                        found = Some(b);
                    } else {
                        j = j + 1;
                    }
                }
                match found {
                    Some(b) => {
                        proof {
                            lemma_first_free(nbrs, pairs@);
                            let i = choose|i: int| 0 <= i < nbrs.len() && nbrs[i] == b;
                            lemma_neighbor_in_range(edges, n as nat, a, i);
                            assert forall|v: int| 0 <= v < n implies #[trigger] paired(
                                pairs@.push((a, b)),
                                v as usize,
                            ) == (paired(pairs@, v as usize) || v == a || v == b) by {
                                lemma_paired_push(pairs@, (a, b), v as usize);
                            }
                        }
                        pairs.push((a, b));
                        taken.set(a, true);
                        taken.set(b, true);
                    },
                    None => {
                        assert(nbrs.skip(row@.len() as int).len() == 0);
                    },
                }
            }
            a = a + 1;
        }
        pairs
    }
}

/// The first `k + 1` edges are the first `k` and edge `k`.
proof fn lemma_take_next(edges: Seq<(usize, usize)>, k: int)
    requires
        0 <= k < edges.len(),
    ensures
        edges.take(k + 1).drop_last() == edges.take(k),
        edges.take(k + 1).last() == edges[k],
        edges.take(k + 1).len() == k + 1,
{
}

/// Both ends of a pair of a matching are nodes.
pub proof fn lemma_pair_in_range(
    edges: Seq<(usize, usize)>,
    n: nat,
    pairs: Seq<(usize, usize)>,
    i: int,
)
    requires
        edges_within(edges, n),
        is_matching(edges, pairs),
        0 <= i < pairs.len(),
    ensures
        pairs[i].0 < n,
        pairs[i].1 < n,
{
    let p = pairs[i];
    assert(joined(edges, p.0, p.1));
    let k = choose|k: int|
        0 <= k < edges.len() && (#[trigger] edges[k] == (p.0, p.1) || edges[k] == (p.1, p.0));
}

/// Every neighbour of a node is itself a node.
pub proof fn lemma_neighbor_in_range(edges: Seq<(usize, usize)>, n: nat, a: usize, i: int)
    requires
        edges_within(edges, n),
        0 <= i < neighbors_in(edges, a).len(),
    ensures
        neighbors_in(edges, a)[i] < n,
        neighbors_in(edges, a)[i] != a,
    decreases edges.len(),
{
    if edges.len() > 0 {
        let init = edges.drop_last();
        let rest = neighbors_in(init, a);
        assert(edges[edges.len() - 1] == edges.last());
        assert forall|k: int| 0 <= k < init.len() implies {
            &&& (#[trigger] init[k]).0 < n
            &&& init[k].1 < n
            &&& init[k].0 != init[k].1
        } by {
            assert(init[k] == edges[k]);
        }
        if i < rest.len() {
            lemma_neighbor_in_range(init, n, a, i);
        }
    }
}

} // verus!
