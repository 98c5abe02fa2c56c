//! The directed multigraph under the build graph.
//!
//! The topology lives in a `petgraph` graph whose nodes and edges carry no
//! weight; what belongs to an edge (its provenance) is kept beside it, by
//! edge index. Nodes and edges are only ever added, so an index, once handed
//! out, stays valid.
use crate::model::EdgeType;
use petgraph::graph::EdgeIndex;
use petgraph::graph::Graph;
use petgraph::graph::NodeIndex;
use petgraph::Directed;
use petgraph::Direction;
use vstd::prelude::*;

verus! {

/// `petgraph::graph::Graph`, taken as it is: nothing is known of a graph but
/// what the functions below say.
#[verifier::external_type_specification]
#[verifier::external_body]
#[verifier::reject_recursive_types(N)]
#[verifier::reject_recursive_types(E)]
#[verifier::reject_recursive_types(Ty)]
#[verifier::reject_recursive_types(Ix)]
pub struct ExGraph<N, E, Ty, Ix>(Graph<N, E, Ty, Ix>);

/// `petgraph::Directed`, the marker of graphs whose edges have a direction.
#[verifier::external_type_specification]
#[verifier::external_body]
pub struct ExDirected(Directed);

/// The number of nodes that a `petgraph` graph holds.
pub uninterp spec fn graph_nodes(g: Graph<(), (), Directed, u32>) -> nat;

/// The edges that a `petgraph` graph holds, as (source, target), in the order
/// in which they were added.
pub uninterp spec fn graph_edges(g: Graph<(), (), Directed, u32>) -> Seq<(nat, nat)>;

/// The nodes at the other end of the edges that point to `a` (`incoming`) or
/// leave `a` (otherwise), the most recently added edge first.
pub open spec fn neighbors(edges: Seq<(nat, nat)>, a: nat, incoming: bool) -> Seq<nat>
    decreases edges.len(),
{
    if edges.len() == 0 {
        Seq::empty()
    } else {
        let e = edges.last();
        let rest = neighbors(edges.drop_last(), a, incoming);
        if incoming && e.1 == a {
            seq![e.0] + rest
        } else if !incoming && e.0 == a {
            seq![e.1] + rest
        } else {
            rest
        }
    }
}

/// Some edge leads from `a` to `b`.
pub open spec fn linked(edges: Seq<(nat, nat)>, a: nat, b: nat) -> bool {
    exists|i: int| 0 <= i < edges.len() && #[trigger] edges[i] == (a, b)
}

/// Every edge joins two nodes that exist.
pub open spec fn edges_in_range(edges: Seq<(nat, nat)>, n: nat) -> bool {
    forall|i: int| 0 <= i < edges.len() ==> (#[trigger] edges[i]).0 < n && edges[i].1 < n
}

/// `Graph::new`: a graph without nodes or edges.
#[verifier::external_body]
fn graph_new() -> (g: Graph<(), (), Directed, u32>)
    ensures
        graph_nodes(g) == 0,
        graph_edges(g) == Seq::<(nat, nat)>::empty(),
{
    Graph::new()
}

/// `Graph::node_count`.
#[verifier::external_body]
fn graph_node_count(g: &Graph<(), (), Directed, u32>) -> (n: usize)
    ensures
        n == graph_nodes(*g),
{
    g.node_count()
}

/// `Graph::edge_count`.
#[verifier::external_body]
fn graph_edge_count(g: &Graph<(), (), Directed, u32>) -> (n: usize)
    ensures
        n == graph_edges(*g).len(),
{
    g.edge_count()
}

/// `Graph::try_add_node`: the new node gets the next index; the call fails,
/// and changes nothing, when the graph already holds `u32::MAX` nodes.
#[verifier::external_body]
fn graph_try_add_node(g: &mut Graph<(), (), Directed, u32>) -> (r: Option<usize>)
    ensures
        graph_edges(*final(g)) == graph_edges(*old(g)),
        graph_nodes(*old(g)) < u32::MAX ==> r == Some(graph_nodes(*old(g)) as usize)
            && graph_nodes(*final(g)) == graph_nodes(*old(g)) + 1,
        graph_nodes(*old(g)) == u32::MAX ==> r is None && graph_nodes(*final(g)) == graph_nodes(
            *old(g),
        ),
{
    match g.try_add_node(()) {
        Ok(i) => Some(i.index()),
        Err(_) => None,
    }
}

/// `Graph::try_add_edge` between two nodes of the graph: the edge is added
/// behind the others; the call fails, and changes nothing, when the graph
/// already holds `u32::MAX` edges.
#[verifier::external_body]
fn graph_try_add_edge(g: &mut Graph<(), (), Directed, u32>, a: usize, b: usize) -> (r: bool)
    requires
        a < graph_nodes(*old(g)),
        b < graph_nodes(*old(g)),
        graph_nodes(*old(g)) <= u32::MAX,
    ensures
        graph_nodes(*final(g)) == graph_nodes(*old(g)),
        graph_edges(*old(g)).len() < u32::MAX ==> r && graph_edges(*final(g)) == graph_edges(
            *old(g),
        ).push((a as nat, b as nat)),
        graph_edges(*old(g)).len() == u32::MAX ==> !r && graph_edges(*final(g)) == graph_edges(
            *old(g),
        ),
{
    g.try_add_edge(NodeIndex::new(a), NodeIndex::new(b), ()).is_ok()
}

/// `Graph::neighbors_directed`, collected: the neighbors of `a` in the given
/// direction, the most recently added edge's neighbor first.
#[verifier::external_body]
fn graph_neighbors(g: &Graph<(), (), Directed, u32>, a: usize, incoming: bool) -> (r: Vec<usize>)
    requires
        a < graph_nodes(*g),
        graph_nodes(*g) <= u32::MAX,
    ensures
        r@.len() == neighbors(graph_edges(*g), a as nat, incoming).len(),
        forall|i: int|
            0 <= i < r@.len() ==> r@[i] as nat == #[trigger] neighbors(
                graph_edges(*g),
                a as nat,
                incoming,
            )[i],
{
    let dir = if incoming {
        Direction::Incoming
    } else {
        Direction::Outgoing
    };
    g.neighbors_directed(NodeIndex::new(a), dir).map(|n| n.index()).collect()
}

/// `Graph::edges_connecting`: whether it yields any edge from `a` to `b`.
#[verifier::external_body]
fn graph_connected(g: &Graph<(), (), Directed, u32>, a: usize, b: usize) -> (r: bool)
    requires
        a < graph_nodes(*g),
        b < graph_nodes(*g),
        graph_nodes(*g) <= u32::MAX,
    ensures
        r == linked(graph_edges(*g), a as nat, b as nat),
{
    g.edges_connecting(NodeIndex::new(a), NodeIndex::new(b)).next().is_some()
}

/// `Graph::edge_endpoints` of an edge of the graph: its source and target.
#[verifier::external_body]
fn graph_edge_endpoints(g: &Graph<(), (), Directed, u32>, e: usize) -> (r: (usize, usize))
    requires
        e < graph_edges(*g).len(),
        graph_edges(*g).len() <= u32::MAX,
    ensures
        r.0 as nat == graph_edges(*g)[e as int].0,
        r.1 as nat == graph_edges(*g)[e as int].1,
{
    let (a, b) = g.edge_endpoints(EdgeIndex::new(e)).unwrap();
    (a.index(), b.index())
}

/// A directed multigraph whose edges carry their provenance.
pub struct DepGraph {
    inner: Graph<(), (), Directed, u32>,
    kinds: Vec<EdgeType>,
}

impl DepGraph {
    /// The number of nodes; they are numbered from zero.
    pub closed spec fn node_total(&self) -> nat {
        graph_nodes(self.inner)
    }

    /// The edges as (source, target), in the order in which they were added.
    pub closed spec fn edges(&self) -> Seq<(nat, nat)> {
        graph_edges(self.inner)
    }

    /// The provenance of each edge, by edge index.
    pub closed spec fn kinds(&self) -> Seq<EdgeType> {
        self.kinds@
    }

    /// Every edge has a provenance and joins two nodes of the graph, and the
    /// graph is within what it can index.
    pub closed spec fn wf(&self) -> bool {
        &&& self.kinds@.len() == graph_edges(self.inner).len()
        &&& graph_nodes(self.inner) <= u32::MAX
        &&& graph_edges(self.inner).len() <= u32::MAX
        &&& edges_in_range(graph_edges(self.inner), graph_nodes(self.inner))
    }

    /// What `wf` says, for those who cannot look inside.
    pub proof fn wf_facts(&self)
        requires
            self.wf(),
        ensures
            self.kinds().len() == self.edges().len(),
            self.node_total() <= u32::MAX,
            self.edges().len() <= u32::MAX,
            edges_in_range(self.edges(), self.node_total()),
    {
    }

    pub fn new() -> (g: DepGraph)
        ensures
            g.wf(),
            g.node_total() == 0,
            g.edges() =~= Seq::<(nat, nat)>::empty(),
            g.kinds() =~= Seq::<EdgeType>::empty(),
    {
        DepGraph { inner: graph_new(), kinds: Vec::new() }
    }

    pub fn node_count(&self) -> (n: usize)
        ensures
            n == self.node_total(),
    {
        graph_node_count(&self.inner)
    }

    pub fn edge_count(&self) -> (n: usize)
        ensures
            n == self.edges().len(),
    {
        graph_edge_count(&self.inner)
    }

    /// Adds a node and returns its index, or `None` when the graph is full.
    pub fn add_node(&mut self) -> (r: Option<usize>)
        requires
            old(self).wf(),
        ensures
            final(self).wf(),
            final(self).edges() == old(self).edges(),
            final(self).kinds() == old(self).kinds(),
            r is Some <==> old(self).node_total() < u32::MAX,
            r is Some ==> r->0 == old(self).node_total() && final(self).node_total() == old(
                self,
            ).node_total() + 1,
            r is None ==> final(self).node_total() == old(self).node_total(),
    {
        graph_try_add_node(&mut self.inner)
    }

    /// Adds an edge from `a` to `b` behind the others, and says whether the
    /// graph had room for it.
    pub fn add_edge(&mut self, a: usize, b: usize, kind: EdgeType) -> (r: bool)
        requires
            old(self).wf(),
            a < old(self).node_total(),
            b < old(self).node_total(),
        ensures
            final(self).wf(),
            final(self).node_total() == old(self).node_total(),
            r <==> old(self).edges().len() < u32::MAX,
            r ==> final(self).edges() == old(self).edges().push((a as nat, b as nat))
                && final(self).kinds() == old(self).kinds().push(kind),
            !r ==> final(self).edges() == old(self).edges() && final(self).kinds() == old(
                self,
            ).kinds(),
    {
        let added = graph_try_add_edge(&mut self.inner, a, b);
        if added {
            self.kinds.push(kind);
        }
        added
    }

    /// The sources of the edges that point to `a`, the newest edge first.
    pub fn predecessors(&self, a: usize) -> (r: Vec<usize>)
        requires
            self.wf(),
            a < self.node_total(),
        ensures
            r@.len() == neighbors(self.edges(), a as nat, true).len(),
            forall|i: int|
                0 <= i < r@.len() ==> r@[i] as nat == #[trigger] neighbors(
                    self.edges(),
                    a as nat,
                    true,
                )[i],
            forall|i: int| 0 <= i < r@.len() ==> (#[trigger] r@[i]) < self.node_total(),
    {
        let r = graph_neighbors(&self.inner, a, true);
        proof {
            lemma_neighbors_in_range(self.edges(), self.node_total(), a as nat, true);
            assert forall|i: int| 0 <= i < r@.len() implies (#[trigger] r@[i])
                < self.node_total() by {
                assert(r@[i] as nat == neighbors(self.edges(), a as nat, true)[i]);
            }
        }
        r
    }

    /// The targets of the edges that leave `a`, the newest edge first.
    pub fn successors(&self, a: usize) -> (r: Vec<usize>)
        requires
            self.wf(),
            a < self.node_total(),
        ensures
            r@.len() == neighbors(self.edges(), a as nat, false).len(),
            forall|i: int|
                0 <= i < r@.len() ==> r@[i] as nat == #[trigger] neighbors(
                    self.edges(),
                    a as nat,
                    false,
                )[i],
            forall|i: int| 0 <= i < r@.len() ==> (#[trigger] r@[i]) < self.node_total(),
    {
        let r = graph_neighbors(&self.inner, a, false);
        proof {
            lemma_neighbors_in_range(self.edges(), self.node_total(), a as nat, false);
            assert forall|i: int| 0 <= i < r@.len() implies (#[trigger] r@[i])
                < self.node_total() by {
                assert(r@[i] as nat == neighbors(self.edges(), a as nat, false)[i]);
            }
        }
        r
    }

    /// Whether some edge leads from `a` to `b`.
    pub fn has_edge(&self, a: usize, b: usize) -> (r: bool)
        requires
            self.wf(),
            a < self.node_total(),
            b < self.node_total(),
        ensures
            r == linked(self.edges(), a as nat, b as nat),
    {
        graph_connected(&self.inner, a, b)
    }

    /// The source, target and provenance of edge `e`.
    pub fn edge(&self, e: usize) -> (r: (usize, usize, EdgeType))
        requires
            self.wf(),
            e < self.edges().len(),
        ensures
            r.0 as nat == self.edges()[e as int].0,
            r.1 as nat == self.edges()[e as int].1,
            r.2 == self.kinds()[e as int],
            r.0 < self.node_total(),
            r.1 < self.node_total(),
    {
        let ends = graph_edge_endpoints(&self.inner, e);
        (ends.0, ends.1, self.kinds[e])
    }

    /// The nodes that can be reached from the seeds, in no steps or more,
    /// along the edges, or against them when `incoming`: one flag per node.
    pub fn reach(&self, seeds: &Vec<usize>, incoming: bool) -> (marks: Vec<bool>)
        requires
            self.wf(),
            forall|k: int| 0 <= k < seeds@.len() ==> (#[trigger] seeds@[k]) < self.node_total(),
        ensures
            marks@.len() == self.node_total(),
            forall|v: int|
                0 <= v < marks@.len() ==> (#[trigger] marks@[v] <==> reached_from(
                    self.edges(),
                    seeds@,
                    v as nat,
                    incoming,
                )),
    {
        let n = self.node_count();
        let mut marks: Vec<bool> = Vec::new();
        let mut i: usize = 0;
        while i < n
            invariant
                i <= n,
                marks@.len() == i,
                forall|v: int| 0 <= v < i ==> !(#[trigger] marks@[v]),
            decreases n - i,
        {
            marks.push(false);
            i += 1;
        }
        let ghost edges = self.edges();
        let ghost marked: Set<int> = Set::empty();
        let mut stack: Vec<usize> = Vec::new();
        proof {
            reveal(sound);
            reveal(frontier_ok);
        }
        let mut s: usize = 0;
        while s < seeds.len()
            invariant
                n == self.node_total(),
                marks@.len() == n,
                s <= seeds@.len(),
                forall|k: int| 0 <= k < seeds@.len() ==> (#[trigger] seeds@[k]) < n,
                forall|k: int| 0 <= k < s ==> marks@[#[trigger] seeds@[k] as int],
                forall|k: int|
                    0 <= k < stack@.len() ==> (#[trigger] stack@[k]) < n && marks@[stack@[k] as int],
                sound(edges, seeds@, marks@, incoming),
                frontier_ok(edges, marks@, stack@, None, incoming),
                marked.finite(),
                forall|v: int| marked.contains(v) <==> 0 <= v < n && marks@[v],
            decreases seeds@.len() - s,
        {
            let seed = seeds[s];
            if !marks[seed] {
                proof {
                    lemma_reaches_self(edges, seed as nat, incoming);
                    lemma_mark(edges, seeds@, marks@, stack@, None, seed, incoming);
                    marked = marked.insert(seed as int);
                }
                marks.set(seed, true);
                stack.push(seed);
            }
            s += 1;
        }
        while stack.len() > 0
            invariant
                self.wf(),
                edges == self.edges(),
                n == self.node_total(),
                marks@.len() == n,
                forall|k: int| 0 <= k < seeds@.len() ==> (#[trigger] seeds@[k]) < n,
                forall|k: int| 0 <= k < seeds@.len() ==> marks@[#[trigger] seeds@[k] as int],
                forall|k: int|
                    0 <= k < stack@.len() ==> (#[trigger] stack@[k]) < n && marks@[stack@[k] as int],
                sound(edges, seeds@, marks@, incoming),
                frontier_ok(edges, marks@, stack@, None, incoming),
                marked.finite(),
                forall|v: int| marked.contains(v) <==> 0 <= v < n && marks@[v],
            decreases 2 * (n - marked.len()) + stack@.len(),
        {
            proof {
                lemma_marked_bound(marked, n as int);
                lemma_pop(edges, marks@, stack@, incoming);
            }
            let ghost measure: int = 2 * (n - marked.len()) + stack@.len();
            let u = stack.pop().unwrap();
            let next = if incoming {
                self.predecessors(u)
            } else {
                self.successors(u)
            };
            let mut j: usize = 0;
            while j < next.len()
                invariant
                    n == self.node_total(),
                    marks@.len() == n,
                    u < n,
                    j <= next@.len(),
                    next@.len() == neighbors(edges, u as nat, incoming).len(),
                    forall|k: int|
                        0 <= k < next@.len() ==> next@[k] as nat == #[trigger] neighbors(
                            edges,
                            u as nat,
                            incoming,
                        )[k],
                    forall|k: int| 0 <= k < next@.len() ==> (#[trigger] next@[k]) < n,
                    marks@[u as int],
                    forall|k: int| 0 <= k < seeds@.len() ==> (#[trigger] seeds@[k]) < n,
                    forall|k: int| 0 <= k < seeds@.len() ==> marks@[#[trigger] seeds@[k] as int],
                    forall|k: int|
                        0 <= k < stack@.len() ==> (#[trigger] stack@[k]) < n && marks@[stack@[k] as int],
                    forall|k: int| 0 <= k < j ==> marks@[#[trigger] next@[k] as int],
                    sound(edges, seeds@, marks@, incoming),
                    frontier_ok(edges, marks@, stack@, Some(u as nat), incoming),
                    marked.finite(),
                    forall|v: int| marked.contains(v) <==> 0 <= v < n && marks@[v],
                    marked.len() <= n,
                    2 * (n - marked.len()) + stack@.len() < measure,
                decreases next@.len() - j,
            {
                let v = next[j];
                if !marks[v] {
                    proof {
                        lemma_neighbors_linked(edges, u as nat, incoming);
                        assert(neighbors(edges, u as nat, incoming)[j as int] == v as nat);
                        assert(neighbors(edges, u as nat, incoming).contains(v as nat));
                        lemma_reached_step(edges, seeds@, marks@, u as nat, v as nat, incoming);
                        lemma_mark(edges, seeds@, marks@, stack@, Some(u as nat), v, incoming);
                        assert(!marked.contains(v as int));
                        marked = marked.insert(v as int);
                        lemma_marked_bound(marked, n as int);
                    }
                    marks.set(v, true);
                    stack.push(v);
                }
                j += 1;
            }
            proof {
                lemma_neighbors_linked(edges, u as nat, incoming);
                assert forall|v: nat| #[trigger] step(edges, u as nat, v, incoming) implies v < n
                    && marks@[v as int] by {
                    assert(neighbors(edges, u as nat, incoming).contains(v));
                    let k = choose|k: int|
                        0 <= k < neighbors(edges, u as nat, incoming).len() && neighbors(
                            edges,
                            u as nat,
                            incoming,
                        )[k] == v;
                    assert(next@[k] as nat == v);
                    assert(marks@[next@[k] as int]);
                }
                lemma_settled(edges, marks@, stack@, u as nat, incoming);
            }
        }
        proof {
            reveal(sound);
            reveal(frontier_ok);
            assert forall|v: int| 0 <= v < marks@.len() implies (#[trigger] marks@[v]
                <==> reached_from(edges, seeds@, v as nat, incoming)) by {
                if reached_from(edges, seeds@, v as nat, incoming) {
                    let k = choose|k: int|
                        0 <= k < seeds@.len() && reaches(
                            edges,
                            #[trigger] seeds@[k] as nat,
                            v as nat,
                            incoming,
                        );
                    let p = choose|p: Seq<nat>| #[trigger]
                        is_walk(edges, p, incoming) && p[0] == seeds@[k] as nat && p.last()
                            == v as nat;
                    assert forall|a: nat, b: nat|
                        a < marks@.len() && marks@[a as int] && #[trigger] step(
                            edges,
                            a,
                            b,
                            incoming,
                        ) implies b < marks@.len() && marks@[b as int] by {
                        assert(!on_stack(stack@, a));
                    }
                    lemma_walk_stays(edges, marks@, p, incoming, p.len() - 1);
                }
            }
        }
        marks
    }

    /// Whether some edge of the given provenance points to `a`.
    pub fn has_incoming_of(&self, a: usize, kind: EdgeType) -> (r: bool)
        requires
            self.wf(),
        ensures
            r == incoming_of(self.edges(), self.kinds(), a as nat, kind),
    {
        let n = self.edge_count();
        let mut e: usize = 0;
        while e < n
            invariant
                self.wf(),
                n == self.edges().len(),
                e <= n,
                forall|i: int|
                    0 <= i < e ==> !(self.edges()[i].1 == a as nat && #[trigger] self.kinds()[i]
                        == kind),
            decreases n - e,
        {
            let ed = self.edge(e);
            if ed.1 == a && ed.2 == kind {
                return true;
            }
            e += 1;
        }
        false
    }
}

/// One step along an edge: from `u` to `v` with the edge, or against it when
/// `incoming`.
pub open spec fn step(edges: Seq<(nat, nat)>, u: nat, v: nat, incoming: bool) -> bool {
    if incoming {
        linked(edges, v, u)
    } else {
        linked(edges, u, v)
    }
}

/// `p` is a walk: each node is one step from the one before it.
pub open spec fn is_walk(edges: Seq<(nat, nat)>, p: Seq<nat>, incoming: bool) -> bool {
    &&& p.len() >= 1
    &&& forall|k: int| 0 <= k < p.len() - 1 ==> step(edges, #[trigger] p[k], p[k + 1], incoming)
}

/// `b` can be reached from `a` in no steps or more.
pub open spec fn reaches(edges: Seq<(nat, nat)>, a: nat, b: nat, incoming: bool) -> bool {
    exists|p: Seq<nat>| #[trigger] is_walk(edges, p, incoming) && p[0] == a && p.last() == b
}

/// `b` can be reached from one of the seeds in no steps or more.
pub open spec fn reached_from(edges: Seq<(nat, nat)>, seeds: Seq<usize>, b: nat, incoming: bool) -> bool {
    exists|k: int| 0 <= k < seeds.len() && reaches(edges, #[trigger] seeds[k] as nat, b, incoming)
}

/// A walk can be prolonged by one step.
pub proof fn lemma_reaches_step(edges: Seq<(nat, nat)>, a: nat, u: nat, v: nat, incoming: bool)
    requires
        reaches(edges, a, u, incoming),
        step(edges, u, v, incoming),
    ensures
        reaches(edges, a, v, incoming),
{
    let p = choose|p: Seq<nat>| #[trigger] is_walk(edges, p, incoming) && p[0] == a && p.last() == u;
    let q = p.push(v);
    assert forall|k: int| 0 <= k < q.len() - 1 implies step(
        edges,
        #[trigger] q[k],
        q[k + 1],
        incoming,
    ) by {
        if k < p.len() - 1 {
            assert(q[k] == p[k] && q[k + 1] == p[k + 1]);
        }
    }
    assert(is_walk(edges, q, incoming) && q[0] == a && q.last() == v);
}

/// Every node reaches itself.
pub proof fn lemma_reaches_self(edges: Seq<(nat, nat)>, a: nat, incoming: bool)
    ensures
        reaches(edges, a, a, incoming),
{
    let p = seq![a];
    assert(is_walk(edges, p, incoming) && p[0] == a && p.last() == a);
}

/// In a set of nodes that is closed under steps, a walk that starts inside
/// never leaves.
pub proof fn lemma_walk_stays(edges: Seq<(nat, nat)>, marks: Seq<bool>, p: Seq<nat>, incoming: bool, k: int)
    requires
        is_walk(edges, p, incoming),
        0 <= k < p.len(),
        p[0] < marks.len(),
        marks[p[0] as int],
        forall|u: nat, v: nat|
            u < marks.len() && marks[u as int] && #[trigger] step(edges, u, v, incoming) ==> v
                < marks.len() && marks[v as int],
    ensures
        p[k] < marks.len(),
        marks[p[k] as int],
    decreases k,
{
    if k > 0 {
        lemma_walk_stays(edges, marks, p, incoming, k - 1);
        assert(step(edges, p[k - 1], p[k - 1 + 1], incoming));
    }
}

/// Some edge of provenance `kind` points to `a`.
pub open spec fn incoming_of(edges: Seq<(nat, nat)>, kinds: Seq<EdgeType>, a: nat, kind: EdgeType) -> bool {
    exists|i: int| 0 <= i < edges.len() && edges[i].1 == a && #[trigger] kinds[i] == kind
}

/// A neighbor is the other end of some edge, and the other way round.
pub proof fn lemma_neighbors_linked(edges: Seq<(nat, nat)>, a: nat, incoming: bool)
    ensures
        forall|b: nat| #[trigger]
            neighbors(edges, a, incoming).contains(b) <==> if incoming {
                linked(edges, b, a)
            } else {
                linked(edges, a, b)
            },
    decreases edges.len(),
{
    if edges.len() > 0 {
        let prior = edges.drop_last();
        let e = edges.last();
        lemma_neighbors_linked(prior, a, incoming);
        let rest = neighbors(prior, a, incoming);
        assert forall|b: nat| #[trigger]
            neighbors(edges, a, incoming).contains(b) <==> if incoming {
                linked(edges, b, a)
            } else {
                linked(edges, a, b)
            } by {
            let want = if incoming {
                (b, a)
            } else {
                (a, b)
            };
            let there = if incoming {
                linked(edges, b, a)
            } else {
                linked(edges, a, b)
            };
            let before = if incoming {
                linked(prior, b, a)
            } else {
                linked(prior, a, b)
            };
            assert(rest.contains(b) <==> before);
            if before {
                let i = choose|i: int| 0 <= i < prior.len() && #[trigger] prior[i] == want;
                assert(edges[i] == want);
                assert(there);
            }
            if there && !before {
                let i = choose|i: int| 0 <= i < edges.len() && #[trigger] edges[i] == want;
                if i < prior.len() {
                    assert(prior[i] == want);
                }
                assert(e == want);
            }
            if e == want {
                assert(edges[edges.len() - 1] == want);
                assert(there);
            }
            let head = (incoming && e.1 == a) || (!incoming && e.0 == a);
            if head {
                let h = if incoming {
                    e.0
                } else {
                    e.1
                };
                assert(neighbors(edges, a, incoming) =~= seq![h] + rest);
                if neighbors(edges, a, incoming).contains(b) {
                    let k = choose|k: int|
                        0 <= k < neighbors(edges, a, incoming).len() && neighbors(
                            edges,
                            a,
                            incoming,
                        )[k] == b;
                    if k > 0 {
                        assert(rest[k - 1] == b);
                    }
                }
                if rest.contains(b) {
                    let k = choose|k: int| 0 <= k < rest.len() && rest[k] == b;
                    assert((seq![h] + rest)[k + 1] == b);
                }
                if h == b {
                    assert((seq![h] + rest)[0] == b);
                }
            }
        }
    }
}

/// The neighbors of a node are nodes of the graph.
pub proof fn lemma_neighbors_in_range(edges: Seq<(nat, nat)>, n: nat, a: nat, incoming: bool)
    requires
        edges_in_range(edges, n),
    ensures
        forall|i: int|
            0 <= i < neighbors(edges, a, incoming).len() ==> (#[trigger] neighbors(
                edges,
                a,
                incoming,
            )[i]) < n,
    decreases edges.len(),
{
    if edges.len() > 0 {
        let prior = edges.drop_last();
        assert forall|i: int| 0 <= i < prior.len() implies (#[trigger] prior[i]).0 < n
            && prior[i].1 < n by {
            assert(prior[i] == edges[i]);
        }
        lemma_neighbors_in_range(prior, n, a, incoming);
        let e = edges.last();
        assert(e == edges[edges.len() - 1]);
        let rest = neighbors(prior, a, incoming);
        let all = neighbors(edges, a, incoming);
        assert forall|i: int| 0 <= i < all.len() implies (#[trigger] all[i]) < n by {
            if (incoming && e.1 == a) || (!incoming && e.0 == a) {
                let h = if incoming {
                    e.0
                } else {
                    e.1
                };
                assert(all =~= seq![h] + rest);
                if i > 0 {
                    assert(all[i] == rest[i - 1]);
                }
            } else {
                assert(all == rest);
            }
        }
    }
}

/// A node has a neighbor exactly when some edge touches it on that side.
pub proof fn lemma_neighbors_empty(edges: Seq<(nat, nat)>, a: nat, incoming: bool)
    ensures
        neighbors(edges, a, incoming).len() == 0 <==> forall|i: int|
            0 <= i < edges.len() ==> if incoming {
                (#[trigger] edges[i]).1 != a
            } else {
                edges[i].0 != a
            },
    decreases edges.len(),
{
    if edges.len() > 0 {
        let prior = edges.drop_last();
        lemma_neighbors_empty(prior, a, incoming);
        let e = edges.last();
        assert(e == edges[edges.len() - 1]);
        let clear_prior = forall|i: int|
            0 <= i < prior.len() ==> if incoming {
                (#[trigger] prior[i]).1 != a
            } else {
                prior[i].0 != a
            };
        let clear = forall|i: int|
            0 <= i < edges.len() ==> if incoming {
                (#[trigger] edges[i]).1 != a
            } else {
                edges[i].0 != a
            };
        if clear {
            assert forall|i: int| 0 <= i < prior.len() implies if incoming {
                (#[trigger] prior[i]).1 != a
            } else {
                prior[i].0 != a
            } by {
                assert(prior[i] == edges[i]);
            }
        }
        if clear_prior && !((incoming && e.1 == a) || (!incoming && e.0 == a)) {
            assert forall|i: int| 0 <= i < edges.len() implies if incoming {
                (#[trigger] edges[i]).1 != a
            } else {
                edges[i].0 != a
            } by {
                if i < prior.len() {
                    assert(prior[i] == edges[i]);
                }
            }
        }
    }
}

/// Only nodes that the seeds reach are marked.
#[verifier::opaque]
spec fn sound(edges: Seq<(nat, nat)>, seeds: Seq<usize>, marks: Seq<bool>, incoming: bool) -> bool {
    forall|v: int|
        0 <= v < marks.len() && #[trigger] marks[v] ==> reached_from(edges, seeds, v as nat, incoming)
}

/// The node `u` waits on the stack.
spec fn on_stack(stack: Seq<usize>, u: nat) -> bool {
    exists|k: int| 0 <= k < stack.len() && #[trigger] stack[k] as nat == u
}

/// Of every marked node but `skip`, the nodes one step away are marked too,
/// unless the node still waits on the stack.
#[verifier::opaque]
spec fn frontier_ok(
    edges: Seq<(nat, nat)>,
    marks: Seq<bool>,
    stack: Seq<usize>,
    skip: Option<nat>,
    incoming: bool,
) -> bool {
    forall|u: nat, v: nat|
        u < marks.len() && marks[u as int] && skip != Some(u) && #[trigger] step(
            edges,
            u,
            v,
            incoming,
        ) ==> (v < marks.len() && marks[v as int]) || on_stack(stack, u)
}

/// Marking a reached node and putting it on the stack keeps both invariants.
proof fn lemma_mark(
    edges: Seq<(nat, nat)>,
    seeds: Seq<usize>,
    marks: Seq<bool>,
    stack: Seq<usize>,
    skip: Option<nat>,
    v: usize,
    incoming: bool,
)
    requires
        v < marks.len(),
        reached_from(edges, seeds, v as nat, incoming),
        sound(edges, seeds, marks, incoming),
        frontier_ok(edges, marks, stack, skip, incoming),
    ensures
        sound(edges, seeds, marks.update(v as int, true), incoming),
        frontier_ok(edges, marks.update(v as int, true), stack.push(v), skip, incoming),
{
    reveal(sound);
    reveal(frontier_ok);
    let marks2 = marks.update(v as int, true);
    let stack2 = stack.push(v);
    assert forall|a: nat, b: nat|
        a < marks2.len() && marks2[a as int] && skip != Some(a) && #[trigger] step(
            edges,
            a,
            b,
            incoming,
        ) implies (b < marks2.len() && marks2[b as int]) || on_stack(stack2, a) by {
        if a == v as nat {
            assert(stack2[stack2.len() - 1] == v);
        } else {
            assert(marks[a as int]);
            if !(b < marks.len() && marks[b as int]) {
                let k = choose|k: int| 0 <= k < stack.len() && #[trigger] stack[k] as nat == a;
                assert(stack2[k] as nat == a);
            }
        }
    }
}

/// A node one step from a marked node is reached from the seeds.
proof fn lemma_reached_step(
    edges: Seq<(nat, nat)>,
    seeds: Seq<usize>,
    marks: Seq<bool>,
    u: nat,
    v: nat,
    incoming: bool,
)
    requires
        u < marks.len(),
        marks[u as int],
        sound(edges, seeds, marks, incoming),
        step(edges, u, v, incoming),
    ensures
        reached_from(edges, seeds, v, incoming),
{
    reveal(sound);
    let k = choose|k: int|
        0 <= k < seeds.len() && reaches(edges, #[trigger] seeds[k] as nat, u, incoming);
    lemma_reaches_step(edges, seeds[k] as nat, u, v, incoming);
}

/// Taking the top node off the stack leaves only that node to be looked at.
proof fn lemma_pop(edges: Seq<(nat, nat)>, marks: Seq<bool>, stack: Seq<usize>, incoming: bool)
    requires
        stack.len() > 0,
        frontier_ok(edges, marks, stack, None, incoming),
    ensures
        frontier_ok(edges, marks, stack.drop_last(), Some(stack.last() as nat), incoming),
{
    reveal(frontier_ok);
    let rest = stack.drop_last();
    let top = stack.last();
    assert forall|a: nat, b: nat|
        a < marks.len() && marks[a as int] && Some(top as nat) != Some(a) && #[trigger] step(
            edges,
            a,
            b,
            incoming,
        ) implies (b < marks.len() && marks[b as int]) || on_stack(rest, a) by {
        if !(b < marks.len() && marks[b as int]) {
            let k = choose|k: int| 0 <= k < stack.len() && #[trigger] stack[k] as nat == a;
            assert(k < stack.len() - 1);
            assert(rest[k] as nat == a);
        }
    }
}

/// Once the nodes one step from `u` are all marked, `u` needs no more care.
proof fn lemma_settled(
    edges: Seq<(nat, nat)>,
    marks: Seq<bool>,
    stack: Seq<usize>,
    u: nat,
    incoming: bool,
)
    requires
        frontier_ok(edges, marks, stack, Some(u), incoming),
        forall|v: nat| #[trigger] step(edges, u, v, incoming) ==> v < marks.len() && marks[v as int],
    ensures
        frontier_ok(edges, marks, stack, None, incoming),
{
    reveal(frontier_ok);
}

/// A set of node indices holds no more elements than there are nodes.
proof fn lemma_marked_bound(marked: Set<int>, n: int)
    requires
        n >= 0,
        marked.finite(),
        forall|v: int| marked.contains(v) ==> 0 <= v < n,
    ensures
        marked.len() <= n,
{
    vstd::set_lib::lemma_int_range(0, n);
    vstd::set_lib::lemma_len_subset(marked, vstd::set_lib::set_int_range(0, n));
}

} // verus!
