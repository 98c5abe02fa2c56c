//! The build graph: nodes known by target path and tag, edges with their
//! provenance, and one status per node.
use crate::graph::edges_in_range;
use crate::graph::incoming_of;
use crate::graph::neighbors;
use crate::graph::DepGraph;
use crate::model::EdgeType;
use crate::model::GNodeStatus;
use crate::model::GraphError;
use crate::model::NodeSpec;
use crate::model::PathWithTag;
use crate::model::RootRule;
use crate::status::StatusMap;
use crate::text::same_path;
use crate::text::same_path_text;
use vstd::prelude::*;

verus! {

/// What a build graph holds, as mathematics.
pub struct GraphState {
    /// Path and tag of each node, by node index.
    pub nodes: Seq<NodeSpec>,
    /// Whether each node was added by a node that expanded.
    pub expanded: Seq<bool>,
    /// The edges as (dependency, dependent), in the order of their addition.
    pub edges: Seq<(nat, nat)>,
    /// The provenance of each edge.
    pub kinds: Seq<EdgeType>,
    /// The status of each node.
    pub status: Seq<GNodeStatus>,
    /// Which nodes count as roots.
    pub root_rule: RootRule,
}

impl GraphState {
    /// Every node has a status, every edge joins two nodes, and no two nodes
    /// have the same target path, however it is spelled.
    pub open spec fn wf(self) -> bool {
        &&& self.expanded.len() == self.nodes.len()
        &&& self.status.len() == self.nodes.len()
        &&& self.kinds.len() == self.edges.len()
        &&& edges_in_range(self.edges, self.nodes.len())
        &&& forall|i: int, j: int|
            0 <= i < j < self.nodes.len() ==> !same_path(
                (#[trigger] self.nodes[i]).path,
                (#[trigger] self.nodes[j]).path,
            )
    }

    /// Some node has this target path, however it is spelled.
    pub open spec fn holds(self, path: Seq<char>) -> bool {
        exists|i: int| 0 <= i < self.nodes.len() && same_path((#[trigger] self.nodes[i]).path, path)
    }

    /// The index of the node with this target path.
    pub open spec fn index_of(self, path: Seq<char>) -> int {
        choose|i: int| 0 <= i < self.nodes.len() && same_path((#[trigger] self.nodes[i]).path, path)
    }

    /// The predecessors of node `i`, the newest edge's first.
    pub open spec fn preds(self, i: int) -> Seq<nat> {
        neighbors(self.edges, i as nat, true)
    }

    /// The dependents of node `i`, the newest edge's first.
    pub open spec fn succs(self, i: int) -> Seq<nat> {
        neighbors(self.edges, i as nat, false)
    }

    /// Node `i` is materialized from the source tree rather than built.
    pub open spec fn is_root(self, i: int) -> bool {
        match self.root_rule {
            RootRule::NoIncoming => self.preds(i).len() == 0,
            RootRule::NoExplicitIncoming => !incoming_of(
                self.edges,
                self.kinds,
                i as nat,
                EdgeType::Explicit,
            ),
        }
    }

    /// The graph with the status of node `i` replaced.
    pub open spec fn with_status(self, i: int, st: GNodeStatus) -> GraphState {
        GraphState { status: self.status.update(i, st), ..self }
    }

    /// The graph with one more node.
    pub open spec fn with_node(self, node: NodeSpec, st: GNodeStatus, expanded: bool) -> GraphState {
        GraphState {
            nodes: self.nodes.push(node),
            expanded: self.expanded.push(expanded),
            status: self.status.push(st),
            ..self
        }
    }

    /// The graph with one more edge.
    pub open spec fn with_edge(self, from: int, to: int, kind: EdgeType) -> GraphState {
        GraphState {
            edges: self.edges.push((from as nat, to as nat)),
            kinds: self.kinds.push(kind),
            ..self
        }
    }

    /// The same nodes and edges as `other`; only statuses may differ.
    pub open spec fn same_shape(self, other: GraphState) -> bool {
        &&& self.nodes == other.nodes
        &&& self.expanded == other.expanded
        &&& self.edges == other.edges
        &&& self.kinds == other.kinds
        &&& self.root_rule == other.root_rule
        &&& self.status.len() == other.status.len()
    }

    /// Path and tag of the predecessors of node `i`, the newest edge's first.
    pub open spec fn pred_nodes(self, i: int) -> Seq<NodeSpec> {
        Seq::new(self.preds(i).len(), |k: int| self.nodes[self.preds(i)[k] as int])
    }
}

/// The views of a list of node descriptors.
pub open spec fn node_views(v: Seq<PathWithTag>) -> Seq<NodeSpec> {
    Seq::new(v.len(), |i: int| v[i]@)
}

/// What adding a node does: the node joins the graph in status `Initial`,
/// unless its path is taken or the graph is full.
pub open spec fn added_node(
    pre: GraphState,
    post: GraphState,
    node: NodeSpec,
    r: Result<usize, GraphError>,
) -> bool {
    if pre.holds(node.path) {
        &&& r matches Err(GraphError::DuplicatePathBuf(p))
        &&& p@ == node.path
        &&& post == pre
    } else if pre.nodes.len() >= u32::MAX {
        &&& r matches Err(GraphError::CapacityExceeded)
        &&& post == pre
    } else {
        &&& r matches Ok(i)
        &&& i == pre.nodes.len()
        &&& post == pre.with_node(node, GNodeStatus::Initial, false)
    }
}

/// What declaring an edge does: an `Explicit` edge joins the graph, unless
/// one of its ends is no node of the graph or the graph is full.
pub open spec fn added_edge(
    pre: GraphState,
    post: GraphState,
    from: usize,
    to: usize,
    r: Result<usize, GraphError>,
) -> bool {
    if from >= pre.nodes.len() {
        &&& r matches Err(GraphError::UnknownNode(i))
        &&& i == from
        &&& post == pre
    } else if to >= pre.nodes.len() {
        &&& r matches Err(GraphError::UnknownNode(i))
        &&& i == to
        &&& post == pre
    } else if pre.edges.len() >= u32::MAX {
        &&& r matches Err(GraphError::CapacityExceeded)
        &&& post == pre
    } else {
        &&& r matches Ok(e)
        &&& e == pre.edges.len()
        &&& post == pre.with_edge(from as int, to as int, EdgeType::Explicit)
    }
}

/// The build graph.
pub struct G {
    srcdir: String,
    sandbox: String,
    root_rule: RootRule,
    nodes: Vec<PathWithTag>,
    expanded: Vec<bool>,
    g: DepGraph,
    nodes_status: StatusMap,
}

impl View for G {
    type V = GraphState;

    closed spec fn view(&self) -> GraphState {
        GraphState {
            nodes: node_views(self.nodes@),
            expanded: self.expanded@,
            edges: self.g.edges(),
            kinds: self.g.kinds(),
            status: self.nodes_status@,
            root_rule: self.root_rule,
        }
    }
}

impl G {
    /// The parts of the graph agree with each other.
    pub closed spec fn inv(&self) -> bool {
        &&& self.g.wf()
        &&& self.nodes_status.wf()
        &&& self.g.node_total() == self.nodes@.len()
    }

    /// The graph is well formed.
    pub open spec fn wf(&self) -> bool {
        self.inv() && self@.wf()
    }

    /// The directory that roots are copied from.
    pub closed spec fn source_dir(&self) -> Seq<char> {
        self.srcdir@
    }

    /// The directory that everything is built in.
    pub closed spec fn sandbox_dir(&self) -> Seq<char> {
        self.sandbox@
    }

    /// The number of entries in the status map.
    pub closed spec fn status_entries(&self) -> nat {
        self.nodes_status.entry_total()
    }

    /// The status map holds one entry per node of the graph.
    pub proof fn lemma_status_per_node(&self)
        requires
            self.wf(),
        ensures
            self.status_entries() == self@.nodes.len(),
            self@.nodes.len() <= u32::MAX,
            self@.edges.len() <= u32::MAX,
    {
        self.nodes_status.lemma_one_entry_per_node();
        self.g.wf_facts();
    }

    /// An empty graph whose roots are the nodes without predecessors.
    pub fn new(srcdir: &str, sandbox: &str) -> (g: G)
        ensures
            g.wf(),
            g@.nodes.len() == 0,
            g@.edges.len() == 0,
            g@.root_rule == RootRule::NoIncoming,
            g.source_dir() == srcdir@,
            g.sandbox_dir() == sandbox@,
    {
        G::with_root_rule(srcdir, sandbox, RootRule::NoIncoming)
    }

    /// An empty graph with the given rule for roots.
    pub fn with_root_rule(srcdir: &str, sandbox: &str, root_rule: RootRule) -> (g: G)
        ensures
            g.wf(),
            g@.nodes.len() == 0,
            g@.edges.len() == 0,
            g@.root_rule == root_rule,
            g.source_dir() == srcdir@,
            g.sandbox_dir() == sandbox@,
    {
        G {
            srcdir: srcdir.to_owned(),
            sandbox: sandbox.to_owned(),
            root_rule,
            nodes: Vec::new(),
            expanded: Vec::new(),
            g: DepGraph::new(),
            nodes_status: StatusMap::new(),
        }
    }

    pub fn srcdir(&self) -> (r: &String)
        ensures
            r@ == self.source_dir(),
    {
        &self.srcdir
    }

    pub fn sandbox(&self) -> (r: &String)
        ensures
            r@ == self.sandbox_dir(),
    {
        &self.sandbox
    }

    pub fn root_rule(&self) -> (r: RootRule)
        ensures
            r == self@.root_rule,
    {
        self.root_rule
    }

    pub fn node_count(&self) -> (n: usize)
        requires
            self.wf(),
        ensures
            n == self@.nodes.len(),
    {
        self.nodes.len()
    }

    pub fn edge_count(&self) -> (n: usize)
        requires
            self.wf(),
        ensures
            n == self@.edges.len(),
    {
        self.g.edge_count()
    }

    /// The number of entries in the status map: as many as there are nodes.
    pub fn status_count(&self) -> (n: usize)
        requires
            self.wf(),
        ensures
            n == self.status_entries(),
            n == self@.nodes.len(),
    {
        self.nodes_status.entries()
    }

    /// The status of node `i`, or `None` if the graph holds no such node.
    pub fn status(&self, i: usize) -> (r: Option<GNodeStatus>)
        requires
            self.wf(),
        ensures
            i < self@.nodes.len() ==> r == Some(self@.status[i as int]),
            i >= self@.nodes.len() ==> r is None,
    {
        if i < self.nodes.len() {
            Some(self.nodes_status.get(i))
        } else {
            None
        }
    }

    /// The status of a node of the graph.
    pub fn status_of(&self, i: usize) -> (r: GNodeStatus)
        requires
            self.wf(),
            i < self@.nodes.len(),
        ensures
            r == self@.status[i as int],
    {
        self.nodes_status.get(i)
    }

    /// Path and tag of a node of the graph.
    pub fn node(&self, i: usize) -> (r: &PathWithTag)
        requires
            self.wf(),
            i < self@.nodes.len(),
        ensures
            r@ == self@.nodes[i as int],
    {
        &self.nodes[i]
    }

    /// Whether a node of the graph was added by a node that expanded.
    pub fn is_expanded(&self, i: usize) -> (r: bool)
        requires
            self.wf(),
            i < self@.nodes.len(),
        ensures
            r == self@.expanded[i as int],
    {
        self.expanded[i]
    }

    /// Source, target and provenance of an edge of the graph.
    pub fn edge(&self, e: usize) -> (r: (usize, usize, EdgeType))
        requires
            self.wf(),
            e < self@.edges.len(),
        ensures
            r.0 as nat == self@.edges[e as int].0,
            r.1 as nat == self@.edges[e as int].1,
            r.2 == self@.kinds[e as int],
            r.0 < self@.nodes.len(),
            r.1 < self@.nodes.len(),
    {
        self.g.edge(e)
    }

    /// The index of the node with the given target path.
    pub fn ni_of_path(&self, path: &str) -> (r: Option<usize>)
        requires
            self.wf(),
        ensures
            r is Some <==> self@.holds(path@),
            r is Some ==> r->0 < self@.nodes.len() && same_path(
                self@.nodes[r->0 as int].path,
                path@,
            )
                && r->0 == self@.index_of(path@),
    {
        let mut i: usize = 0;
        while i < self.nodes.len()
            invariant
                self.wf(),
                i <= self.nodes@.len(),
                forall|k: int| 0 <= k < i ==> !same_path((#[trigger] self@.nodes[k]).path, path@),
            decreases self.nodes@.len() - i,
        {
            if same_path_text(self.nodes[i].path.as_str(), path) {
                proof {
                    assert(same_path(self@.nodes[i as int].path, path@));
                    let j = self@.index_of(path@);
                    if j < i {
                        assert(!same_path(self@.nodes[j].path, path@));
                    }
                    if j > i {
                        assert(!same_path(self@.nodes[i as int].path, self@.nodes[j].path));
                    }
                }
                return Some(i);
            }
            i += 1;
        }
        None
    }

    /// Adds a node that is to be built, in status `Initial`.
    ///
    /// A node whose target path the graph already holds is refused.
    pub fn add_node(&mut self, node: PathWithTag) -> (r: Result<usize, GraphError>)
        requires
            old(self).wf(),
        ensures
            final(self).wf(),
            final(self).source_dir() == old(self).source_dir(),
            final(self).sandbox_dir() == old(self).sandbox_dir(),
            added_node(old(self)@, final(self)@, node@, r),
    {
        proof {
            self.lemma_status_per_node();
        }
        if self.ni_of_path(node.path.as_str()).is_some() {
            return Err(GraphError::DuplicatePathBuf(node.path));
        }
        match self.insert(node, GNodeStatus::Initial, false) {
            Some(i) => Ok(i),
            None => Err(GraphError::CapacityExceeded),
        }
    }

    /// Adds a node that is to be copied from the source tree, in status
    /// `Initial`. What makes it a root is that no edge will point to it.
    pub fn add_root_node(&mut self, node: PathWithTag) -> (r: Result<usize, GraphError>)
        requires
            old(self).wf(),
        ensures
            final(self).wf(),
            final(self).source_dir() == old(self).source_dir(),
            final(self).sandbox_dir() == old(self).sandbox_dir(),
            added_node(old(self)@, final(self)@, node@, r),
    {
        self.add_node(node)
    }

    /// Declares that `to` depends on `from`: adds an `Explicit` edge and
    /// returns its index. An end that is no node of the graph is refused.
    pub fn add_edge(&mut self, from: usize, to: usize) -> (r: Result<usize, GraphError>)
        requires
            old(self).wf(),
        ensures
            final(self).wf(),
            final(self).source_dir() == old(self).source_dir(),
            final(self).sandbox_dir() == old(self).sandbox_dir(),
            added_edge(old(self)@, final(self)@, from, to, r),
    {
        proof {
            self.lemma_status_per_node();
        }
        if from >= self.nodes.len() {
            return Err(GraphError::UnknownNode(from));
        }
        if to >= self.nodes.len() {
            return Err(GraphError::UnknownNode(to));
        }
        let e = self.g.edge_count();
        if self.link(from, to, EdgeType::Explicit) {
            Ok(e)
        } else {
            Err(GraphError::CapacityExceeded)
        }
    }

    /// Adds a node whose path the graph does not hold yet, and returns its
    /// index; `None`, and no change, when the graph is full.
    pub fn insert(&mut self, node: PathWithTag, st: GNodeStatus, expanded: bool) -> (r: Option<usize>)
        requires
            old(self).wf(),
            !old(self)@.holds(node@.path),
        ensures
            final(self).wf(),
            final(self).source_dir() == old(self).source_dir(),
            final(self).sandbox_dir() == old(self).sandbox_dir(),
            r is Some <==> old(self)@.nodes.len() < u32::MAX,
            r is Some ==> r->0 == old(self)@.nodes.len() && final(self)@ == old(self)@.with_node(
                node@,
                st,
                expanded,
            ),
            r is None ==> final(self)@ == old(self)@,
    {
        proof {
            self.g.wf_facts();
        }
        let ghost spec_node = node@;
        match self.g.add_node() {
            Some(i) => {
                self.nodes.push(node);
                self.expanded.push(expanded);
                self.nodes_status.push(st);
                proof {
                    self.g.wf_facts();
                    let post = self@;
                    let pre = old(self)@;
                    assert(post.nodes =~= pre.nodes.push(spec_node));
                    assert(post =~= pre.with_node(spec_node, st, expanded));
                    assert forall|a: int, b: int| 0 <= a < b < post.nodes.len() implies !same_path(
                        (#[trigger] post.nodes[a]).path,
                        (#[trigger] post.nodes[b]).path,
                    ) by {
                        if b == pre.nodes.len() {
                            assert(!same_path(pre.nodes[a].path, spec_node.path));
                        } else {
                            assert(!same_path(pre.nodes[a].path, pre.nodes[b].path));
                        }
                    }
                    assert(edges_in_range(post.edges, post.nodes.len())) by {
                        assert forall|e: int| 0 <= e < post.edges.len() implies (
                        #[trigger] post.edges[e]).0 < post.nodes.len() && post.edges[e].1
                            < post.nodes.len() by {
                            assert(pre.edges[e].0 < pre.nodes.len());
                        }
                    }
                }
                Some(i)
            },
            None => {
                proof {
                    assert(self@ =~= old(self)@);
                }
                None
            },
        }
    }

    /// Adds an edge between two nodes of the graph behind the others, and
    /// says whether the graph had room for it.
    pub fn link(&mut self, from: usize, to: usize, kind: EdgeType) -> (r: bool)
        requires
            old(self).wf(),
            from < old(self)@.nodes.len(),
            to < old(self)@.nodes.len(),
        ensures
            final(self).wf(),
            final(self).source_dir() == old(self).source_dir(),
            final(self).sandbox_dir() == old(self).sandbox_dir(),
            r <==> old(self)@.edges.len() < u32::MAX,
            r ==> final(self)@ == old(self)@.with_edge(from as int, to as int, kind),
            !r ==> final(self)@ == old(self)@,
    {
        proof {
            self.g.wf_facts();
        }
        let r = self.g.add_edge(from, to, kind);
        proof {
            self.g.wf_facts();
            if r {
                assert(self@ =~= old(self)@.with_edge(from as int, to as int, kind));
            } else {
                assert(self@ =~= old(self)@);
            }
        }
        r
    }

    /// Gives a node of the graph a new status.
    pub fn set_status(&mut self, i: usize, st: GNodeStatus)
        requires
            old(self).wf(),
            i < old(self)@.nodes.len(),
        ensures
            final(self).wf(),
            final(self).source_dir() == old(self).source_dir(),
            final(self).sandbox_dir() == old(self).sandbox_dir(),
            final(self)@ == old(self)@.with_status(i as int, st),
    {
        self.nodes_status.set(i, st);
        proof {
            assert(self@ =~= old(self)@.with_status(i as int, st));
        }
    }

    /// The indices of the predecessors of a node, the newest edge's first.
    pub fn predecessors(&self, i: usize) -> (r: Vec<usize>)
        requires
            self.wf(),
            i < self@.nodes.len(),
        ensures
            r@.len() == self@.preds(i as int).len(),
            forall|k: int| 0 <= k < r@.len() ==> r@[k] as nat == #[trigger] self@.preds(i as int)[k],
            forall|k: int| 0 <= k < r@.len() ==> (#[trigger] r@[k]) < self@.nodes.len(),
    {
        self.g.predecessors(i)
    }

    /// The indices of the dependents of a node, the newest edge's first.
    pub fn successors(&self, i: usize) -> (r: Vec<usize>)
        requires
            self.wf(),
            i < self@.nodes.len(),
        ensures
            r@.len() == self@.succs(i as int).len(),
            forall|k: int| 0 <= k < r@.len() ==> r@[k] as nat == #[trigger] self@.succs(i as int)[k],
            forall|k: int| 0 <= k < r@.len() ==> (#[trigger] r@[k]) < self@.nodes.len(),
    {
        self.g.successors(i)
    }

    /// Path and tag of the predecessors of a node, the newest edge's first:
    /// what a node is told of its inputs.
    pub fn predecessor_nodes(&self, i: usize) -> (r: Vec<PathWithTag>)
        requires
            self.wf(),
            i < self@.nodes.len(),
        ensures
            node_views(r@) == self@.pred_nodes(i as int),
    {
        let preds = self.g.predecessors(i);
        let mut r: Vec<PathWithTag> = Vec::new();
        let mut k: usize = 0;
        while k < preds.len()
            invariant
                self.wf(),
                k <= preds@.len(),
                preds@.len() == self@.preds(i as int).len(),
                forall|j: int|
                    0 <= j < preds@.len() ==> preds@[j] as nat == #[trigger] self@.preds(
                        i as int,
                    )[j],
                forall|j: int| 0 <= j < preds@.len() ==> (#[trigger] preds@[j]) < self@.nodes.len(),
                r@.len() == k,
                forall|j: int|
                    0 <= j < k ==> (#[trigger] r@[j])@ == self@.nodes[self@.preds(i as int)[j] as int],
            decreases preds@.len() - k,
        {
            let p = preds[k];
            proof {
                assert(preds@[k as int] as nat == self@.preds(i as int)[k as int]);
            }
            r.push(self.nodes[p].duplicate());
            k += 1;
        }
        proof {
            assert(node_views(r@) =~= self@.pred_nodes(i as int));
        }
        r
    }

    /// Whether some edge leads from `from` to `to`.
    pub fn has_edge(&self, from: usize, to: usize) -> (r: bool)
        requires
            self.wf(),
            from < self@.nodes.len(),
            to < self@.nodes.len(),
        ensures
            r == crate::graph::linked(self@.edges, from as nat, to as nat),
    {
        self.g.has_edge(from, to)
    }

    /// Whether a node is materialized from the source tree rather than built.
    pub fn is_root_node(&self, i: usize) -> (r: bool)
        requires
            self.wf(),
            i < self@.nodes.len(),
        ensures
            r == self@.is_root(i as int),
    {
        match self.root_rule {
            RootRule::NoIncoming => self.g.predecessors(i).len() == 0,
            RootRule::NoExplicitIncoming => !self.g.has_incoming_of(i, EdgeType::Explicit),
        }
    }

    /// The nodes that can be reached from the seeds, in no steps or more,
    /// along the edges, or against them when `incoming`: one flag per node.
    pub fn reach(&self, seeds: &Vec<usize>, incoming: bool) -> (marks: Vec<bool>)
        requires
            self.wf(),
            forall|k: int| 0 <= k < seeds@.len() ==> (#[trigger] seeds@[k]) < self@.nodes.len(),
        ensures
            marks@.len() == self@.nodes.len(),
            forall|v: int|
                0 <= v < marks@.len() ==> (#[trigger] marks@[v] <==> crate::graph::reached_from(
                    self@.edges,
                    seeds@,
                    v as nat,
                    incoming,
                )),
    {
        self.g.reach(seeds, incoming)
    }

    /// The nodes without predecessors among `i` and the nodes that `i`
    /// depends on, directly or not, each once, in the order in which a walk
    /// against the edges comes upon them.
    pub fn root_predecessors(&self, i: usize) -> (roots: Vec<usize>)
        requires
            self.wf(),
            i < self@.nodes.len(),
        ensures
            crate::roots::indices(roots@) == crate::roots::root_walk(
                self@.edges,
                self@.nodes.len(),
                i as nat,
            ),
            forall|k: int|
                0 <= k < roots@.len() ==> (#[trigger] roots@[k]) < self@.nodes.len()
                    && self@.preds(roots@[k] as int).len() == 0 && crate::graph::reaches(
                    self@.edges,
                    i as nat,
                    roots@[k] as nat,
                    true,
                ),
            forall|v: int|
                0 <= v < self@.nodes.len() && self@.preds(v).len() == 0 && crate::graph::reaches(
                    self@.edges,
                    i as nat,
                    v as nat,
                    true,
                ) ==> exists|k: int| 0 <= k < roots@.len() && #[trigger] roots@[k] == v,
            forall|j: int, k: int| 0 <= j < k < roots@.len() ==> roots@[j] != roots@[k],
    {
        let roots = self.g.root_walk(i);
        proof {
            assert forall|v: int|
                0 <= v < self@.nodes.len() && self@.preds(v).len() == 0 && crate::graph::reaches(
                    self@.edges,
                    i as nat,
                    v as nat,
                    true,
                ) implies exists|k: int| 0 <= k < roots@.len() && #[trigger] roots@[k] == v by {
                assert(crate::roots::among(roots@, v as nat));
                let k = choose|k: int| 0 <= k < roots@.len() && #[trigger] roots@[k] as nat == v as nat;
                assert(roots@[k] == v);
            }
        }
        roots
    }
}

} // verus!
