//! The scan stage: nodes that are built report the paths they depend on,
//! found by looking into their predecessors' content; the graph turns those
//! it can resolve into `Scanned` edges.
//!
//! A node whose dependencies are not all there yet becomes `ScanIncomplete`:
//! it is left alone by the build stage and scanned again in the next pass.
use crate::graph::linked;
use crate::model::EdgeType;
use crate::model::GNodeStatus;
use crate::mount::ascending;
use crate::mount::lists;
use crate::state::GraphState;
use crate::state::G;
use vstd::prelude::*;

verus! {

/// A path that a node depends on.
#[derive(Debug, Clone)]
pub struct ScannedPath {
    pub path: String,
    /// A file is at this path in the sandbox.
    pub exists: bool,
}

/// What a `ScannedPath` stands for.
pub struct ScannedSpec {
    pub path: Seq<char>,
    pub exists: bool,
}

impl View for ScannedPath {
    type V = ScannedSpec;

    open spec fn view(&self) -> ScannedSpec {
        ScannedSpec { path: self.path@, exists: self.exists }
    }
}

/// What one node reports when it scans.
#[derive(Debug, Clone)]
pub struct ScanOutcome {
    /// The node could follow every reference it found.
    pub complete: bool,
    /// The paths it depends on, as written in the content.
    pub paths: Vec<ScannedPath>,
}

/// What a `ScanOutcome` stands for.
pub struct ScanSpec {
    pub complete: bool,
    pub paths: Seq<ScannedSpec>,
}

impl View for ScanOutcome {
    type V = ScanSpec;

    open spec fn view(&self) -> ScanSpec {
        ScanSpec {
            complete: self.complete,
            paths: Seq::new(self.paths@.len(), |i: int| self.paths@[i]@),
        }
    }
}

impl ScanOutcome {
    /// The report of a node that depends on nothing but its predecessors.
    pub fn nothing() -> (r: ScanOutcome)
        ensures
            r@.complete,
            r@.paths.len() == 0,
    {
        ScanOutcome { complete: true, paths: Vec::new() }
    }
}

/// The views of a list of scan outcomes.
pub open spec fn scan_views(v: Seq<ScanOutcome>) -> Seq<ScanSpec> {
    Seq::new(v.len(), |i: int| v[i]@)
}

/// Every node that is not a root is scanned.
pub open spec fn scan_due(s: GraphState, i: int) -> bool {
    !s.is_root(i)
}

/// The graph after node `i` reported one path: if a node has this target
/// path and no edge leads from it to `i` yet, a `Scanned` edge is added.
pub open spec fn add_scanned(s: GraphState, i: int, path: Seq<char>) -> GraphState {
    if s.holds(path) {
        let f = s.index_of(path);
        if linked(s.edges, f as nat, i as nat) || s.edges.len() >= u32::MAX {
            s
        } else {
            s.with_edge(f, i, EdgeType::Scanned)
        }
    } else {
        s
    }
}

/// The graph after node `i` reported the given paths, taken in order.
pub open spec fn add_scanned_all(s: GraphState, i: int, paths: Seq<ScannedSpec>) -> GraphState
    decreases paths.len(),
{
    if paths.len() == 0 {
        s
    } else {
        add_scanned(add_scanned_all(s, i, paths.drop_last()), i, paths.last().path)
    }
}

/// A reported path is not there yet: its node has not been materialized or
/// built so far, or no node has this path and no file is in the sandbox.
pub open spec fn waits(s: GraphState, p: ScannedSpec) -> bool {
    if s.holds(p.path) {
        !s.status[s.index_of(p.path)].success()
    } else {
        !p.exists
    }
}

/// The node has to be scanned again.
pub open spec fn unresolved(s: GraphState, o: ScanSpec) -> bool {
    !o.complete || exists|k: int| 0 <= k < o.paths.len() && waits(s, #[trigger] o.paths[k])
}

/// The graph after the report of node `i` was taken in.
pub open spec fn scanned_one(s: GraphState, i: int, o: ScanSpec) -> GraphState {
    let g = add_scanned_all(s, i, o.paths);
    if unresolved(s, o) && s.status[i] == GNodeStatus::Initial {
        g.with_status(i, GNodeStatus::ScanIncomplete)
    } else {
        g
    }
}

/// The graph after the reports of the listed nodes, taken in order.
pub open spec fn scanned_all(s: GraphState, targets: Seq<usize>, outcomes: Seq<ScanSpec>) -> GraphState
    decreases targets.len(),
{
    if targets.len() == 0 {
        s
    } else {
        scanned_one(
            scanned_all(s, targets.drop_last(), outcomes.drop_last()),
            targets.last() as int,
            outcomes.last(),
        )
    }
}

impl G {
    /// The nodes that are scanned, in the order of their indices.
    pub fn scan_targets(&self) -> (targets: Vec<usize>)
        requires
            self.wf(),
        ensures
            ascending(targets@, self@.nodes.len()),
            forall|i: int| 0 <= i < self@.nodes.len() ==> (lists(targets@, i) <==> scan_due(self@, i)),
    {
        let n = self.node_count();
        let mut targets: Vec<usize> = Vec::new();
        let mut i: usize = 0;
        while i < n
            invariant
                self.wf(),
                n == self@.nodes.len(),
                i <= n,
                forall|k: int| 0 <= k < targets@.len() ==> (#[trigger] targets@[k]) < i,
                forall|j: int, k: int| 0 <= j < k < targets@.len() ==> targets@[j] < targets@[k],
                forall|v: int| 0 <= v < i ==> (lists(targets@, v) <==> scan_due(self@, v)),
            decreases n - i,
        {
            let ghost before = targets@;
            if !self.is_root_node(i) {
                targets.push(i);
                proof {
                    assert(targets@[targets@.len() - 1] == i);
                    assert forall|v: int| 0 <= v < i + 1 implies (lists(targets@, v) <==> scan_due(
                        self@,
                        v,
                    )) by {
                        if v < i && lists(before, v) {
                            let k = choose|k: int| 0 <= k < before.len() && #[trigger] before[k] == v;
                            assert(targets@[k] == v);
                        }
                    }
                }
            }
            i += 1;
        }
        targets
    }

    /// Takes in the report of one node.
    pub fn scan_single_node(&mut self, i: usize, outcome: &ScanOutcome)
        requires
            old(self).wf(),
            i < old(self)@.nodes.len(),
        ensures
            final(self).wf(),
            final(self).source_dir() == old(self).source_dir(),
            final(self).sandbox_dir() == old(self).sandbox_dir(),
            final(self)@ == scanned_one(old(self)@, i as int, outcome@),
            final(self)@.nodes == old(self)@.nodes,
            final(self)@.status.len() == old(self)@.status.len(),
            final(self)@.expanded == old(self)@.expanded,
            old(self)@.edges.is_prefix_of(final(self)@.edges),
    {
        let ghost pre = self@;
        let mut again = !outcome.complete;
        let mut k: usize = 0;
        proof {
            assert(outcome@.paths.take(0) =~= Seq::<ScannedSpec>::empty());
        }
        while k < outcome.paths.len()
            invariant
                self.wf(),
                self.source_dir() == old(self).source_dir(),
                self.sandbox_dir() == old(self).sandbox_dir(),
                pre == old(self)@,
                i < pre.nodes.len(),
                k <= outcome.paths@.len(),
                self@ == add_scanned_all(pre, i as int, outcome@.paths.take(k as int)),
                self@.nodes == pre.nodes,
                self@.status == pre.status,
                self@.expanded == pre.expanded,
                pre.edges.is_prefix_of(self@.edges),
                again == (!outcome@.complete || exists|j: int|
                    0 <= j < k && waits(pre, #[trigger] outcome@.paths[j])),
            decreases outcome.paths@.len() - k,
        {
            proof {
                assert(outcome@.paths.take(k + 1).drop_last() =~= outcome@.paths.take(k as int));
                assert(outcome@.paths.take(k + 1).last() == outcome.paths@[k as int]@);
                self.lemma_status_per_node();
            }
            let p = &outcome.paths[k];
            let ghost was = again;
            match self.ni_of_path(p.path.as_str()) {
                Some(f) => {
                    if !self.status_of(f).is_success() {
                        again = true;
                    }
                    if !self.has_edge(f, i) {
                        self.link(f, i, EdgeType::Scanned);
                    }
                },
                None => {
                    if !p.exists {
                        again = true;
                    }
                },
            }
            proof {
                assert(pre.holds(p@.path) == self@.holds(p@.path));
                assert(again == (was || waits(pre, outcome@.paths[k as int])));
                if again {
                    if was && outcome@.complete {
                        let j = choose|j: int| 0 <= j < k && waits(pre, #[trigger] outcome@.paths[j]);
                        assert(0 <= j < k + 1 && waits(pre, outcome@.paths[j]));
                    }
                }
            }
            k += 1;
        }
        proof {
            assert(outcome@.paths.take(k as int) =~= outcome@.paths);
        }
        if again && self.status_of(i) == GNodeStatus::Initial {
            self.set_status(i, GNodeStatus::ScanIncomplete);
        }
    }

    /// Takes in the reports of the listed nodes, one after the other.
    pub fn scan_nodes(&mut self, targets: &Vec<usize>, outcomes: &Vec<ScanOutcome>)
        requires
            old(self).wf(),
            ascending(targets@, old(self)@.nodes.len()),
            outcomes@.len() == targets@.len(),
        ensures
            final(self).wf(),
            final(self).source_dir() == old(self).source_dir(),
            final(self).sandbox_dir() == old(self).sandbox_dir(),
            final(self)@ == scanned_all(old(self)@, targets@, scan_views(outcomes@)),
            final(self)@.nodes == old(self)@.nodes,
            final(self)@.status.len() == old(self)@.status.len(),
            final(self)@.expanded == old(self)@.expanded,
            old(self)@.edges.is_prefix_of(final(self)@.edges),
    {
        let mut k: usize = 0;
        proof {
            assert(targets@.take(0) =~= Seq::<usize>::empty());
        }
        while k < targets.len()
            invariant
                self.wf(),
                self.source_dir() == old(self).source_dir(),
                self.sandbox_dir() == old(self).sandbox_dir(),
                ascending(targets@, old(self)@.nodes.len()),
                outcomes@.len() == targets@.len(),
                k <= targets@.len(),
                self@.nodes == old(self)@.nodes,
                self@.status.len() == old(self)@.status.len(),
                self@.expanded == old(self)@.expanded,
                old(self)@.edges.is_prefix_of(self@.edges),
                self@ == scanned_all(
                    old(self)@,
                    targets@.take(k as int),
                    scan_views(outcomes@).take(k as int),
                ),
            decreases targets@.len() - k,
        {
            proof {
                assert(targets@.take(k + 1).drop_last() =~= targets@.take(k as int));
                assert(scan_views(outcomes@).take(k + 1).drop_last() =~= scan_views(
                    outcomes@,
                ).take(k as int));
                assert(targets@.take(k + 1).last() == targets@[k as int]);
                assert(scan_views(outcomes@).take(k + 1).last() == outcomes@[k as int]@);
            }
            self.scan_single_node(targets[k], &outcomes[k]);
            k += 1;
        }
        proof {
            assert(targets@.take(k as int) =~= targets@);
            assert(scan_views(outcomes@).take(k as int) =~= scan_views(outcomes@));
        }
    }
}

} // verus!
