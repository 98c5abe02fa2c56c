//! The expand stage: nodes that have been materialized or built may add
//! nodes and edges to the graph.
//!
//! What a node proposes is collected first and merged afterwards, one
//! proposal after the other. A node whose target path the graph already
//! holds is absorbed silently, and so is an edge that is already there, so
//! that a node may propose the same things in every pass.
use crate::graph::linked;
use crate::model::Edge;
use crate::model::EdgeType;
use crate::model::GNodeStatus;
use crate::model::LinkSpec;
use crate::model::NodeSpec;
use crate::model::PathWithTag;
use crate::mount::ascending;
use crate::mount::lists;
use crate::state::GraphState;
use crate::state::G;
use vstd::prelude::*;

verus! {

/// What one node proposes when it expands.
#[derive(Debug, Clone)]
pub struct ExpandResult {
    pub nodes: Vec<PathWithTag>,
    pub edges: Vec<Edge>,
}

/// What an `ExpandResult` stands for.
pub struct ExpandSpec {
    pub nodes: Seq<NodeSpec>,
    pub edges: Seq<LinkSpec>,
}

impl View for ExpandResult {
    type V = ExpandSpec;

    open spec fn view(&self) -> ExpandSpec {
        ExpandSpec {
            nodes: Seq::new(self.nodes@.len(), |i: int| self.nodes@[i]@),
            edges: Seq::new(self.edges@.len(), |i: int| self.edges@[i]@),
        }
    }
}

impl ExpandResult {
    /// The proposal of a node that has nothing to add.
    pub fn empty() -> (r: ExpandResult)
        ensures
            r@.nodes.len() == 0,
            r@.edges.len() == 0,
    {
        ExpandResult { nodes: Vec::new(), edges: Vec::new() }
    }
}

/// The views of a list of proposals.
pub open spec fn expand_views(v: Seq<ExpandResult>) -> Seq<ExpandSpec> {
    Seq::new(v.len(), |i: int| v[i]@)
}

/// A node is asked to expand once it has been materialized or built.
pub open spec fn expand_due(s: GraphState, i: int) -> bool {
    s.status[i].success()
}

/// The graph after one proposed node: the first node with a given target
/// path wins. A node that is taken in starts as `Initial`.
pub open spec fn absorb_node(s: GraphState, n: NodeSpec) -> GraphState {
    if s.holds(n.path) || s.nodes.len() >= u32::MAX {
        s
    } else {
        s.with_node(n, GNodeStatus::Initial, true)
    }
}

/// The graph after the proposed nodes, taken in order.
pub open spec fn absorb_nodes(s: GraphState, nodes: Seq<NodeSpec>) -> GraphState
    decreases nodes.len(),
{
    if nodes.len() == 0 {
        s
    } else {
        absorb_node(absorb_nodes(s, nodes.drop_last()), nodes.last())
    }
}

/// The graph after one proposed edge. The edge is added, as `Expanded`, if
/// both its ends are nodes of the graph and no edge joins them yet; a
/// dependent whose build had failed gets another chance.
pub open spec fn absorb_edge(s: GraphState, e: LinkSpec) -> GraphState {
    if s.holds(e.from) && s.holds(e.to) {
        let f = s.index_of(e.from);
        let t = s.index_of(e.to);
        if linked(s.edges, f as nat, t as nat) || s.edges.len() >= u32::MAX {
            s
        } else if s.status[t] == GNodeStatus::BuildFailed {
            s.with_edge(f, t, EdgeType::Expanded).with_status(t, GNodeStatus::Initial)
        } else {
            s.with_edge(f, t, EdgeType::Expanded)
        }
    } else {
        s
    }
}

/// The graph after the proposed edges, taken in order.
pub open spec fn absorb_edges(s: GraphState, edges: Seq<LinkSpec>) -> GraphState
    decreases edges.len(),
{
    if edges.len() == 0 {
        s
    } else {
        absorb_edge(absorb_edges(s, edges.drop_last()), edges.last())
    }
}

/// The graph after one proposal: first its nodes, then its edges.
pub open spec fn absorb(s: GraphState, r: ExpandSpec) -> GraphState {
    absorb_edges(absorb_nodes(s, r.nodes), r.edges)
}

/// The graph after the proposals, taken in order.
pub open spec fn absorb_all(s: GraphState, results: Seq<ExpandSpec>) -> GraphState
    decreases results.len(),
{
    if results.len() == 0 {
        s
    } else {
        absorb(absorb_all(s, results.drop_last()), results.last())
    }
}

impl G {
    /// The nodes that are asked to expand, in the order of their indices.
    pub fn expand_targets(&self) -> (targets: Vec<usize>)
        requires
            self.wf(),
        ensures
            ascending(targets@, self@.nodes.len()),
            forall|i: int|
                0 <= i < self@.nodes.len() ==> (lists(targets@, i) <==> expand_due(self@, i)),
    {
        let n = self.node_count();
        let mut targets: Vec<usize> = Vec::new();
        let mut i: usize = 0;
        while i < n
            invariant
                self.wf(),
                n == self@.nodes.len(),
                i <= n,
                forall|k: int| 0 <= k < targets@.len() ==> (#[trigger] targets@[k]) < i,
                forall|j: int, k: int| 0 <= j < k < targets@.len() ==> targets@[j] < targets@[k],
                forall|v: int| 0 <= v < i ==> (lists(targets@, v) <==> expand_due(self@, v)),
            decreases n - i,
        {
            let ghost before = targets@;
            if self.status_of(i).is_success() {
                targets.push(i);
                proof {
                    assert(targets@[targets@.len() - 1] == i);
                    assert forall|v: int| 0 <= v < i + 1 implies (lists(targets@, v) <==> expand_due(
                        self@,
                        v,
                    )) by {
                        if v < i && lists(before, v) {
                            let k = choose|k: int| 0 <= k < before.len() && #[trigger] before[k] == v;
                            assert(targets@[k] == v);
                        }
                    }
                }
            }
            i += 1;
        }
        targets
    }

    /// Merges what one node proposed into the graph.
    pub fn expand_single_node(&mut self, result: &ExpandResult)
        requires
            old(self).wf(),
        ensures
            final(self).wf(),
            final(self).source_dir() == old(self).source_dir(),
            final(self).sandbox_dir() == old(self).sandbox_dir(),
            final(self)@ == absorb(old(self)@, result@),
            old(self)@.nodes.is_prefix_of(final(self)@.nodes),
    {
        let mut k: usize = 0;
        proof {
            assert(result@.nodes.take(0) =~= Seq::<NodeSpec>::empty());
        }
        while k < result.nodes.len()
            invariant
                self.wf(),
                self.source_dir() == old(self).source_dir(),
                self.sandbox_dir() == old(self).sandbox_dir(),
                k <= result.nodes@.len(),
                old(self)@.nodes.is_prefix_of(self@.nodes),
                self@ == absorb_nodes(old(self)@, result@.nodes.take(k as int)),
            decreases result.nodes@.len() - k,
        {
            proof {
                assert(result@.nodes.take(k + 1).drop_last() =~= result@.nodes.take(k as int));
                assert(result@.nodes.take(k + 1).last() == result.nodes@[k as int]@);
                self.lemma_status_per_node();
            }
            let n = &result.nodes[k];
            if self.ni_of_path(n.path.as_str()).is_none() {
                self.insert(n.duplicate(), GNodeStatus::Initial, true);
            }
            k += 1;
        }
        proof {
            assert(result@.nodes.take(k as int) =~= result@.nodes);
            assert(result@.edges.take(0) =~= Seq::<LinkSpec>::empty());
        }
        let ghost mid = self@;
        let mut j: usize = 0;
        while j < result.edges.len()
            invariant
                self.wf(),
                self.source_dir() == old(self).source_dir(),
                self.sandbox_dir() == old(self).sandbox_dir(),
                j <= result.edges@.len(),
                old(self)@.nodes.is_prefix_of(self@.nodes),
                self@ == absorb_edges(mid, result@.edges.take(j as int)),
            decreases result.edges@.len() - j,
        {
            proof {
                assert(result@.edges.take(j + 1).drop_last() =~= result@.edges.take(j as int));
                assert(result@.edges.take(j + 1).last() == result.edges@[j as int]@);
                self.lemma_status_per_node();
            }
            let e = &result.edges[j];
            let from = self.ni_of_path(e.nfrom.as_str());
            let to = self.ni_of_path(e.nto.as_str());
            match (from, to) {
                (Some(f), Some(t)) => {
                    if !self.has_edge(f, t) {
                        let failed = self.status_of(t) == GNodeStatus::BuildFailed;
                        if self.link(f, t, EdgeType::Expanded) {
                            if failed {
                                self.set_status(t, GNodeStatus::Initial);
                            }
                        }
                    }
                },
                _ => {},
            }
            j += 1;
        }
        proof {
            assert(result@.edges.take(j as int) =~= result@.edges);
        }
    }

    /// Merges what the nodes proposed into the graph, one proposal after the
    /// other.
    pub fn expand_nodes(&mut self, results: &Vec<ExpandResult>)
        requires
            old(self).wf(),
        ensures
            final(self).wf(),
            final(self).source_dir() == old(self).source_dir(),
            final(self).sandbox_dir() == old(self).sandbox_dir(),
            final(self)@ == absorb_all(old(self)@, expand_views(results@)),
            old(self)@.nodes.is_prefix_of(final(self)@.nodes),
    {
        let mut k: usize = 0;
        proof {
            assert(expand_views(results@).take(0) =~= Seq::<ExpandSpec>::empty());
        }
        while k < results.len()
            invariant
                self.wf(),
                self.source_dir() == old(self).source_dir(),
                self.sandbox_dir() == old(self).sandbox_dir(),
                k <= results@.len(),
                old(self)@.nodes.is_prefix_of(self@.nodes),
                self@ == absorb_all(old(self)@, expand_views(results@).take(k as int)),
            decreases results@.len() - k,
        {
            proof {
                assert(expand_views(results@).take(k + 1).drop_last() =~= expand_views(
                    results@,
                ).take(k as int));
                assert(expand_views(results@).take(k + 1).last() == results@[k as int]@);
            }
            self.expand_single_node(&results[k]);
            k += 1;
        }
        proof {
            assert(expand_views(results@).take(k as int) =~= expand_views(results@));
        }
    }
}

} // verus!
