//! The orchestrator: mount, expand, scan and build, pass after pass, until
//! the whole-graph digest stops changing; then the report.
//!
//! Nothing here touches a file or runs a build. A run is a conversation:
//! `G::make` takes what the last action brought (an event) and answers with
//! the next action. Whoever drives the run performs the action, all the work
//! of one action side by side if it likes, and comes back with the event.
use crate::digest::digest_entries;
use crate::digest::load_previous_digests;
use crate::digest::DigestTable;
use crate::expand::absorb_all;
use crate::expand::expand_due;
use crate::expand::expand_views;
use crate::expand::ExpandResult;
use crate::model::GNodeStatus;
use crate::model::MakeOutput;
use crate::model::NodeSpec;
use crate::model::OutputSpec;
use crate::model::PathWithTag;
use crate::mount::ascending;
use crate::mount::lists;
use crate::mount::mount_due;
use crate::mount::mount_status;
use crate::mount::mount_views;
use crate::mount::MountOutcome;
use crate::report::all_well;
use crate::report::is_graph_digest;
use crate::report::is_report;
use crate::report::node_paths;
use crate::scan::scan_due;
use crate::scan::scan_views;
use crate::scan::scanned_all;
use crate::scan::ScanOutcome;
use crate::schedule::all_preds_success;
use crate::schedule::build_views;
use crate::schedule::doomed;
use crate::schedule::file_views;
use crate::schedule::planned;
use crate::schedule::route_at;
use crate::schedule::settled;
use crate::schedule::BuildOutcome;
use crate::schedule::FileState;
use crate::schedule::Route;
use crate::state::node_views;
use crate::state::GraphState;
use crate::state::G;
use crate::text::texts;
use vstd::prelude::*;

verus! {

/// What a node is told when it is asked to expand, scan or build, and what
/// is needed to copy a root: the node, and its predecessors by path and tag.
#[derive(Debug, Clone)]
pub struct NodeRequest {
    pub node: usize,
    pub path: String,
    pub tag: String,
    pub predecessors: Vec<PathWithTag>,
}

/// What a `NodeRequest` stands for.
pub struct RequestSpec {
    pub node: int,
    pub path: Seq<char>,
    pub tag: Seq<char>,
    pub predecessors: Seq<NodeSpec>,
}

impl View for NodeRequest {
    type V = RequestSpec;

    open spec fn view(&self) -> RequestSpec {
        RequestSpec {
            node: self.node as int,
            path: self.path@,
            tag: self.tag@,
            predecessors: node_views(self.predecessors@),
        }
    }
}

/// The views of a list of requests.
pub open spec fn request_views(v: Seq<NodeRequest>) -> Seq<RequestSpec> {
    Seq::new(v.len(), |i: int| v[i]@)
}

/// The request for node `i`.
pub open spec fn request_for(s: GraphState, i: int) -> RequestSpec {
    RequestSpec {
        node: i,
        path: s.nodes[i].path,
        tag: s.nodes[i].tag,
        predecessors: s.pred_nodes(i),
    }
}

/// The requests for the listed nodes.
pub open spec fn requests_for(s: GraphState, targets: Seq<usize>) -> Seq<RequestSpec> {
    Seq::new(targets.len(), |k: int| request_for(s, targets[k] as int))
}

/// The target paths of the listed nodes.
pub open spec fn paths_of(s: GraphState, targets: Seq<usize>) -> Seq<Seq<char>> {
    Seq::new(targets.len(), |k: int| s.nodes[targets[k] as int].path)
}

/// What the driver of a run is asked to do next.
#[derive(Debug)]
pub enum MakeAction {
    /// Read the report of the previous run; an empty report if there is none.
    LoadReport,
    /// Look at what is in the sandbox at each of these paths.
    Snapshot(Vec<String>),
    /// Copy these roots from the source tree into the sandbox.
    Mount(Vec<NodeRequest>),
    /// Ask these nodes what they add to the graph.
    Expand(Vec<NodeRequest>),
    /// Ask these nodes what else they depend on.
    Scan(Vec<NodeRequest>),
    /// Remove what is at the paths in `discard`, then build `jobs`.
    Build { jobs: Vec<NodeRequest>, discard: Vec<String> },
    /// The run is over: persist the report and return the verdict.
    Finish { report: MakeOutput, success: bool },
    /// The event does not answer the last action; nothing has changed.
    Rejected,
}

/// What the last action brought.
#[derive(Debug)]
pub enum MakeEvent {
    /// A run is to start.
    Start,
    /// The report of the previous run.
    Report(MakeOutput),
    /// What is in the sandbox, path by path.
    Snapshot(Vec<FileState>),
    /// What became of copying the roots, request by request.
    Mounted(Vec<MountOutcome>),
    /// What the nodes add to the graph, request by request.
    Expanded(Vec<ExpandResult>),
    /// What else the nodes depend on, request by request.
    Scanned(Vec<ScanOutcome>),
    /// What became of the builds, job by job.
    Built(Vec<BuildOutcome>),
}

/// Where a run stands: which event it waits for.
#[derive(Debug, Clone, Copy, PartialEq, Eq, Structural)]
pub enum MakePhase {
    /// No run has started.
    Idle,
    /// Waits for the report of the previous run.
    Report,
    /// Waits for the snapshot before the first pass.
    Baseline,
    /// Waits for the roots to be copied.
    Mount,
    /// Waits for the nodes to expand.
    Expand,
    /// Waits for the nodes to scan.
    Scan,
    /// Waits for the snapshot before the builds.
    Probe,
    /// Waits for the builds.
    Build,
    /// Waits for the snapshot after the builds.
    Settle,
    /// The run is over.
    Done,
}

/// What a run remembers between two events.
pub struct Make {
    phase: MakePhase,
    previous: DigestTable,
    before: String,
    pending: Vec<usize>,
    lost: Vec<usize>,
    passes: usize,
    limit: usize,
}

/// What a `Make` stands for.
pub struct RunSpec {
    pub phase: MakePhase,
    /// The digests recorded by the previous run.
    pub previous: Seq<(Seq<char>, Seq<char>)>,
    /// The whole-graph digest from before the current pass.
    pub baseline: Seq<char>,
    /// The nodes that the last action asked about, in the order of the
    /// requests.
    pub pending: Seq<usize>,
    /// The nodes that were lost behind a failed build when the results of
    /// the last builds were taken in: what is at their paths is stale until
    /// the next builds are asked for.
    pub lost: Seq<usize>,
    /// The number of passes begun in this run.
    pub passes: nat,
    /// The number of passes after which the run gives up.
    pub limit: nat,
}

impl View for Make {
    type V = RunSpec;

    closed spec fn view(&self) -> RunSpec {
        RunSpec {
            phase: self.phase,
            previous: self.previous@,
            baseline: self.before@,
            pending: self.pending@,
            lost: self.lost@,
            passes: self.passes as nat,
            limit: self.limit as nat,
        }
    }
}

/// The run fits the graph: what it asked about and what it remembers as
/// lost are nodes of the graph.
pub open spec fn run_fits(r: RunSpec, s: GraphState) -> bool {
    ascending(r.pending, s.nodes.len()) && ascending(r.lost, s.nodes.len())
}

/// The event answers the action that the run waits on.
pub open spec fn accepts(s: GraphState, r: RunSpec, event: MakeEvent) -> bool {
    match event {
        MakeEvent::Start => r.phase == MakePhase::Idle || r.phase == MakePhase::Done,
        MakeEvent::Report(_) => r.phase == MakePhase::Report,
        MakeEvent::Snapshot(files) => (r.phase == MakePhase::Baseline || r.phase == MakePhase::Probe
            || r.phase == MakePhase::Settle) && files@.len() == s.nodes.len(),
        MakeEvent::Mounted(o) => r.phase == MakePhase::Mount && o@.len() == r.pending.len(),
        MakeEvent::Expanded(o) => r.phase == MakePhase::Expand && o@.len() == r.pending.len(),
        MakeEvent::Scanned(o) => r.phase == MakePhase::Scan && o@.len() == r.pending.len(),
        MakeEvent::Built(o) => r.phase == MakePhase::Build && o@.len() == r.pending.len(),
    }
}

/// The action asks to look at the target path of every node.
pub open spec fn asks_snapshot(s: GraphState, action: MakeAction) -> bool {
    action matches MakeAction::Snapshot(paths) && texts(paths@) == node_paths(s)
}

/// The run carries over what it knows of the previous run and of the pass.
pub open spec fn same_memory(r0: RunSpec, r1: RunSpec) -> bool {
    r1.previous == r0.previous && r1.baseline == r0.baseline && r1.passes == r0.passes && r1.limit
        == r0.limit
}

/// The run carries over all it knows, the nodes that were lost too.
pub open spec fn carried(r0: RunSpec, r1: RunSpec) -> bool {
    same_memory(r0, r1) && r1.lost == r0.lost
}

/// A pass begins: the roots that are due are to be copied.
pub open spec fn pass_begins(s: GraphState, r1: RunSpec, action: MakeAction) -> bool {
    &&& r1.phase == MakePhase::Mount
    &&& ascending(r1.pending, s.nodes.len())
    &&& forall|i: int| 0 <= i < s.nodes.len() ==> (lists(r1.pending, i) <==> mount_due(s, i))
    &&& action matches MakeAction::Mount(reqs)
    &&& request_views(reqs@) == requests_for(s, r1.pending)
}

/// `Start`: the report of the previous run is asked for.
pub open spec fn begun(g0: GraphState, r0: RunSpec, g1: GraphState, r1: RunSpec, action: MakeAction) -> bool {
    &&& g1 == g0
    &&& r1.phase == MakePhase::Report
    &&& r1.passes == 0
    &&& r1.limit == r0.limit
    &&& r1.lost.len() == 0
    &&& action is LoadReport
}

/// `Report`: the digests of the previous run are kept, every node goes back
/// to `Initial`, and the sandbox is looked at.
pub open spec fn loaded(
    g0: GraphState,
    r0: RunSpec,
    report: Seq<OutputSpec>,
    g1: GraphState,
    r1: RunSpec,
    action: MakeAction,
) -> bool {
    &&& r1.passes == r0.passes
    &&& r1.limit == r0.limit
    &&& r1.lost == r0.lost
    &&& g1.same_shape(g0)
    &&& forall|i: int| 0 <= i < g1.status.len() ==> #[trigger] g1.status[i] == GNodeStatus::Initial
    &&& r1.phase == MakePhase::Baseline
    &&& r1.previous == digest_entries(report)
    &&& asks_snapshot(g1, action)
}

/// The first snapshot: the whole-graph digest is kept and the first pass
/// begins.
pub open spec fn based(
    g0: GraphState,
    r0: RunSpec,
    files: Seq<crate::schedule::FileSpec>,
    g1: GraphState,
    r1: RunSpec,
    action: MakeAction,
) -> bool {
    &&& g1 == g0
    &&& r1.previous == r0.previous
    &&& r1.limit == r0.limit
    &&& r1.passes == r0.passes
    &&& r1.lost == r0.lost
    &&& is_graph_digest(g0, files, r1.baseline)
    &&& pass_begins(g1, r1, action)
}

/// A status as the expand stage finds it: `ScanIncomplete` is `Initial`
/// again.
pub open spec fn rescan(st: GNodeStatus) -> GNodeStatus {
    if st == GNodeStatus::ScanIncomplete {
        GNodeStatus::Initial
    } else {
        st
    }
}

/// `Mounted`: the roots are classified, nodes whose scan was incomplete are
/// `Initial` again, and the nodes that have been materialized or built are
/// asked to expand.
pub open spec fn mounted(
    g0: GraphState,
    r0: RunSpec,
    outcomes: Seq<crate::mount::MountSpec>,
    g1: GraphState,
    r1: RunSpec,
    action: MakeAction,
) -> bool {
    &&& g1.same_shape(g0)
    &&& forall|k: int|
        0 <= k < r0.pending.len() ==> g1.status[#[trigger] r0.pending[k] as int] == mount_status(
            outcomes[k],
            r0.previous,
            g0.nodes[r0.pending[k] as int].path,
        )
    &&& forall|i: int|
        0 <= i < g0.status.len() && !lists(r0.pending, i) ==> #[trigger] g1.status[i] == rescan(
            g0.status[i],
        )
    &&& carried(r0, r1)
    &&& r1.phase == MakePhase::Expand
    &&& ascending(r1.pending, g1.nodes.len())
    &&& forall|i: int| 0 <= i < g1.nodes.len() ==> (lists(r1.pending, i) <==> expand_due(g1, i))
    &&& action matches MakeAction::Expand(reqs)
    &&& request_views(reqs@) == requests_for(g1, r1.pending)
}

/// `Expanded`: what the nodes proposed is merged into the graph, and every
/// node that is built is asked to scan.
pub open spec fn expanded(
    g0: GraphState,
    r0: RunSpec,
    results: Seq<crate::expand::ExpandSpec>,
    g1: GraphState,
    r1: RunSpec,
    action: MakeAction,
) -> bool {
    &&& g1 == absorb_all(g0, results)
    &&& carried(r0, r1)
    &&& r1.phase == MakePhase::Scan
    &&& ascending(r1.pending, g1.nodes.len())
    &&& forall|i: int| 0 <= i < g1.nodes.len() ==> (lists(r1.pending, i) <==> scan_due(g1, i))
    &&& action matches MakeAction::Scan(reqs)
    &&& request_views(reqs@) == requests_for(g1, r1.pending)
}

/// `Scanned`: the reports are taken in, and the sandbox is looked at.
pub open spec fn scanned(
    g0: GraphState,
    r0: RunSpec,
    outcomes: Seq<crate::scan::ScanSpec>,
    g1: GraphState,
    r1: RunSpec,
    action: MakeAction,
) -> bool {
    &&& g1 == scanned_all(g0, r0.pending, outcomes)
    &&& carried(r0, r1)
    &&& r1.phase == MakePhase::Probe
    &&& asks_snapshot(g1, action)
}

/// The snapshot before the builds: every node is sent where it goes; the
/// nodes to build are `Running`, and all their predecessors have been
/// materialized or built. What is at the paths of the nodes that are lost
/// is to be removed: first those that this snapshot sends behind a failed
/// predecessor, then those that the run remembers from the last builds.
pub open spec fn probed(
    g0: GraphState,
    r0: RunSpec,
    files: Seq<crate::schedule::FileSpec>,
    g1: GraphState,
    r1: RunSpec,
    action: MakeAction,
) -> bool {
    &&& g1 == planned(g0, files, r0.previous)
    &&& same_memory(r0, r1)
    &&& r1.lost.len() == 0
    &&& r1.phase == MakePhase::Build
    &&& ascending(r1.pending, g1.nodes.len())
    &&& forall|i: int|
        0 <= i < g0.nodes.len() ==> (lists(r1.pending, i) <==> route_at(
            g0,
            files,
            r0.previous,
            i,
        ) == Route::Build)
    &&& forall|k: int|
        0 <= k < r1.pending.len() ==> g1.status[#[trigger] r1.pending[k] as int]
            == GNodeStatus::Running && all_preds_success(g1, r1.pending[k] as int)
    &&& action matches MakeAction::Build { jobs, discard }
    &&& request_views(jobs@) == requests_for(g1, r1.pending)
    &&& exists|lost: Seq<usize>|
        #![trigger paths_of(g1, lost)]
        ascending(lost, g0.nodes.len()) && (forall|i: int|
            0 <= i < g0.nodes.len() ==> (lists(lost, i) <==> route_at(
                g0,
                files,
                r0.previous,
                i,
            ) == Route::AncestorFailed)) && texts(discard@) == paths_of(g1, lost) + paths_of(
            g1,
            r0.lost,
        )
}

/// `Built`: the results are taken in, the nodes behind a failed build are
/// remembered as lost, and the sandbox is looked at.
pub open spec fn built(
    g0: GraphState,
    r0: RunSpec,
    outcomes: Seq<crate::schedule::BuildSpec>,
    g1: GraphState,
    r1: RunSpec,
    action: MakeAction,
) -> bool {
    &&& settled(g0, g1, r0.pending, outcomes, r0.previous)
    &&& same_memory(r0, r1)
    &&& ascending(r1.lost, g0.nodes.len())
    &&& forall|v: int|
        0 <= v < g0.nodes.len() ==> (lists(r1.lost, v) <==> doomed(
            g0,
            r0.pending,
            outcomes,
            r0.previous,
            v,
        ))
    &&& r1.phase == MakePhase::Settle
    &&& asks_snapshot(g1, action)
}

/// The snapshot after the builds: if the whole-graph digest is the one from
/// before the pass, the run is over, and it went well if no node failed. If
/// the digest has changed, it is kept and another pass begins, unless the
/// run has had as many passes as it may have: then it is over and did not
/// go well.
pub open spec fn closed_pass(
    g0: GraphState,
    r0: RunSpec,
    files: Seq<crate::schedule::FileSpec>,
    g1: GraphState,
    r1: RunSpec,
    action: MakeAction,
) -> bool {
    &&& g1 == g0
    &&& r1.previous == r0.previous
    &&& r1.limit == r0.limit
    &&& r1.lost == r0.lost
    &&& exists|d: Seq<char>| #[trigger]
        is_graph_digest(g0, files, d) && if d == r0.baseline || r0.passes >= r0.limit {
            &&& r1.phase == MakePhase::Done
            &&& r1.passes == r0.passes
            &&& action matches MakeAction::Finish { report, success }
            &&& is_report(g0, files, report@)
            &&& success == (d == r0.baseline && all_well(g0))
        } else {
            &&& r1.baseline == d
            &&& r1.passes == r0.passes + 1
            &&& pass_begins(g1, r1, action)
        }
}

/// One step of a run.
pub open spec fn stepped(
    g0: GraphState,
    r0: RunSpec,
    event: MakeEvent,
    g1: GraphState,
    r1: RunSpec,
    action: MakeAction,
) -> bool {
    if !accepts(g0, r0, event) {
        g1 == g0 && r1 == r0 && action is Rejected
    } else {
        match event {
            MakeEvent::Start => begun(g0, r0, g1, r1, action),
            MakeEvent::Report(report) => loaded(g0, r0, report@, g1, r1, action),
            MakeEvent::Snapshot(files) => if r0.phase == MakePhase::Baseline {
                based(g0, r0, file_views(files@), g1, r1, action)
            } else if r0.phase == MakePhase::Probe {
                probed(g0, r0, file_views(files@), g1, r1, action)
            } else {
                closed_pass(g0, r0, file_views(files@), g1, r1, action)
            },
            MakeEvent::Mounted(o) => mounted(g0, r0, mount_views(o@), g1, r1, action),
            MakeEvent::Expanded(o) => expanded(g0, r0, expand_views(o@), g1, r1, action),
            MakeEvent::Scanned(o) => scanned(g0, r0, scan_views(o@), g1, r1, action),
            MakeEvent::Built(o) => built(g0, r0, build_views(o@), g1, r1, action),
        }
    }
}

impl Make {
    /// A run that has not started, and that goes on until nothing changes.
    pub fn new() -> (run: Make)
        ensures
            run@.phase == MakePhase::Idle,
            run@.pending.len() == 0,
            run@.lost.len() == 0,
            run@.limit == usize::MAX,
    {
        Make::bounded(usize::MAX)
    }

    /// A run that has not started, and that gives up after `limit` passes
    /// beyond the first if things still change then.
    pub fn bounded(limit: usize) -> (run: Make)
        ensures
            run@.phase == MakePhase::Idle,
            run@.pending.len() == 0,
            run@.lost.len() == 0,
            run@.limit == limit,
    {
        Make {
            phase: MakePhase::Idle,
            previous: DigestTable::new(),
            before: String::new(),
            pending: Vec::new(),
            lost: Vec::new(),
            passes: 0,
            limit,
        }
    }

    /// The number of passes begun beyond the first.
    pub fn passes(&self) -> (n: usize)
        ensures
            n == self@.passes,
    {
        self.passes
    }

    /// Where the run stands.
    pub fn phase(&self) -> (p: MakePhase)
        ensures
            p == self@.phase,
    {
        self.phase
    }

    /// The nodes that the last action asked about.
    pub fn pending(&self) -> (p: &Vec<usize>)
        ensures
            p@ == self@.pending,
    {
        &self.pending
    }

    /// The nodes that were lost behind a failed build and whose paths have
    /// not been cleared yet.
    pub fn lost(&self) -> (p: &Vec<usize>)
        ensures
            p@ == self@.lost,
    {
        &self.lost
    }
}

impl G {
    /// The requests for the listed nodes.
    pub fn requests(&self, targets: &Vec<usize>) -> (reqs: Vec<NodeRequest>)
        requires
            self.wf(),
            ascending(targets@, self@.nodes.len()),
        ensures
            request_views(reqs@) == requests_for(self@, targets@),
    {
        let mut reqs: Vec<NodeRequest> = Vec::new();
        let mut k: usize = 0;
        while k < targets.len()
            invariant
                self.wf(),
                ascending(targets@, self@.nodes.len()),
                k <= targets@.len(),
                reqs@.len() == k,
                forall|j: int|
                    0 <= j < k ==> (#[trigger] reqs@[j])@ == request_for(self@, targets@[j] as int),
            decreases targets@.len() - k,
        {
            let i = targets[k];
            let node = self.node(i);
            let req = NodeRequest {
                node: i,
                path: node.path.clone(),
                tag: node.tag.clone(),
                predecessors: self.predecessor_nodes(i),
            };
            reqs.push(req);
            k += 1;
        }
        proof {
            assert(request_views(reqs@) =~= requests_for(self@, targets@));
        }
        reqs
    }

    /// The target paths of the listed nodes.
    pub fn paths_at(&self, targets: &Vec<usize>) -> (paths: Vec<String>)
        requires
            self.wf(),
            ascending(targets@, self@.nodes.len()),
        ensures
            texts(paths@) == paths_of(self@, targets@),
    {
        let mut paths: Vec<String> = Vec::new();
        let mut k: usize = 0;
        while k < targets.len()
            invariant
                self.wf(),
                ascending(targets@, self@.nodes.len()),
                k <= targets@.len(),
                paths@.len() == k,
                forall|j: int|
                    0 <= j < k ==> (#[trigger] paths@[j])@ == self@.nodes[targets@[j] as int].path,
            decreases targets@.len() - k,
        {
            paths.push(self.node(targets[k]).path.clone());
            k += 1;
        }
        proof {
            assert(texts(paths@) =~= paths_of(self@, targets@));
        }
        paths
    }

    /// Begins a pass: asks for the roots that are due to be copied.
    fn begin_pass(&self, run: &mut Make) -> (action: MakeAction)
        requires
            self.wf(),
        ensures
            pass_begins(self@, final(run)@, action),
            final(run)@.previous == old(run)@.previous,
            final(run)@.baseline == old(run)@.baseline,
            final(run)@.passes == old(run)@.passes,
            final(run)@.limit == old(run)@.limit,
            final(run)@.lost == old(run)@.lost,
    {
        let targets = self.mount_targets();
        let reqs = self.requests(&targets);
        run.pending = targets;
        run.phase = MakePhase::Mount;
        MakeAction::Mount(reqs)
    }

    /// Takes in the report of the previous run.
    fn make_loaded(&mut self, run: &mut Make, report: &MakeOutput) -> (action: MakeAction)
        requires
            old(self).wf(),
            run_fits(old(run)@, old(self)@),
        ensures
            final(self).wf(),
            final(self).source_dir() == old(self).source_dir(),
            final(self).sandbox_dir() == old(self).sandbox_dir(),
            run_fits(final(run)@, final(self)@),
            loaded(old(self)@, old(run)@, report@, final(self)@, final(run)@, action),
    {
        run.previous = load_previous_digests(report);
        self.reset_all();
        run.pending = Vec::new();
        run.phase = MakePhase::Baseline;
        MakeAction::Snapshot(self.paths())
    }

    /// Takes in what became of copying the roots.
    fn make_mounted(&mut self, run: &mut Make, outcomes: &Vec<MountOutcome>) -> (action: MakeAction)
        requires
            old(self).wf(),
            run_fits(old(run)@, old(self)@),
            outcomes@.len() == old(run)@.pending.len(),
        ensures
            final(self).wf(),
            final(self).source_dir() == old(self).source_dir(),
            final(self).sandbox_dir() == old(self).sandbox_dir(),
            run_fits(final(run)@, final(self)@),
            mounted(old(self)@, old(run)@, mount_views(outcomes@), final(self)@, final(run)@, action),
    {
        self.mount_root_nodes(&run.pending, outcomes, &run.previous);
        let ghost mid = self@;
        self.reset_scan_incomplete();
        proof {
            let g0 = old(self)@;
            let r0 = old(run)@;
            assert forall|k: int| 0 <= k < r0.pending.len() implies self@.status[#[trigger] r0.pending[k] as int]
                == mount_status(
                mount_views(outcomes@)[k],
                r0.previous,
                g0.nodes[r0.pending[k] as int].path,
            ) by {
                assert(mid.status[r0.pending[k] as int] == mount_status(
                    mount_views(outcomes@)[k],
                    r0.previous,
                    g0.nodes[r0.pending[k] as int].path,
                ));
            }
        }
        let targets = self.expand_targets();
        let reqs = self.requests(&targets);
        run.pending = targets;
        run.phase = MakePhase::Expand;
        MakeAction::Expand(reqs)
    }

    /// Takes in what the nodes proposed.
    fn make_expanded(&mut self, run: &mut Make, results: &Vec<ExpandResult>) -> (action: MakeAction)
        requires
            old(self).wf(),
            run_fits(old(run)@, old(self)@),
        ensures
            final(self).wf(),
            final(self).source_dir() == old(self).source_dir(),
            final(self).sandbox_dir() == old(self).sandbox_dir(),
            run_fits(final(run)@, final(self)@),
            expanded(old(self)@, old(run)@, expand_views(results@), final(self)@, final(run)@, action),
    {
        self.expand_nodes(results);
        let targets = self.scan_targets();
        let reqs = self.requests(&targets);
        run.pending = targets;
        run.phase = MakePhase::Scan;
        MakeAction::Scan(reqs)
    }

    /// Takes in what the nodes reported.
    fn make_scanned(&mut self, run: &mut Make, outcomes: &Vec<ScanOutcome>) -> (action: MakeAction)
        requires
            old(self).wf(),
            run_fits(old(run)@, old(self)@),
            outcomes@.len() == old(run)@.pending.len(),
        ensures
            final(self).wf(),
            final(self).source_dir() == old(self).source_dir(),
            final(self).sandbox_dir() == old(self).sandbox_dir(),
            run_fits(final(run)@, final(self)@),
            scanned(old(self)@, old(run)@, scan_views(outcomes@), final(self)@, final(run)@, action),
    {
        self.scan_nodes(&run.pending, outcomes);
        run.phase = MakePhase::Probe;
        MakeAction::Snapshot(self.paths())
    }

    /// Decides what to build in this pass.
    fn make_probed(&mut self, run: &mut Make, files: &Vec<FileState>) -> (action: MakeAction)
        requires
            old(self).wf(),
            run_fits(old(run)@, old(self)@),
            files@.len() == old(self)@.nodes.len(),
        ensures
            final(self).wf(),
            final(self).source_dir() == old(self).source_dir(),
            final(self).sandbox_dir() == old(self).sandbox_dir(),
            run_fits(final(run)@, final(self)@),
            probed(old(self)@, old(run)@, file_views(files@), final(self)@, final(run)@, action),
    {
        let plan = self.plan_builds(files, &run.previous);
        let jobs = self.requests(&plan.jobs);
        let mut discard = self.paths_at(&plan.discard);
        let mut stale = self.paths_at(&run.lost);
        let ghost first = discard@;
        let ghost second = stale@;
        discard.append(&mut stale);
        proof {
            assert(ascending(plan.discard@, old(self)@.nodes.len()));
            assert(texts(discard@) =~= texts(first) + texts(second));
            assert(texts(discard@) == paths_of(self@, plan.discard@) + paths_of(
                self@,
                old(run)@.lost,
            ));
        }
        run.pending = plan.jobs;
        run.lost = Vec::new();
        run.phase = MakePhase::Build;
        MakeAction::Build { jobs, discard }
    }

    /// Takes in what became of the builds.
    fn make_built(&mut self, run: &mut Make, outcomes: &Vec<BuildOutcome>) -> (action: MakeAction)
        requires
            old(self).wf(),
            run_fits(old(run)@, old(self)@),
            outcomes@.len() == old(run)@.pending.len(),
        ensures
            final(self).wf(),
            final(self).source_dir() == old(self).source_dir(),
            final(self).sandbox_dir() == old(self).sandbox_dir(),
            run_fits(final(run)@, final(self)@),
            built(old(self)@, old(run)@, build_views(outcomes@), final(self)@, final(run)@, action),
    {
        run.lost = self.build_nodes(&run.pending, outcomes, &run.previous);
        run.phase = MakePhase::Settle;
        MakeAction::Snapshot(self.paths())
    }

    /// Ends the pass: the run is over if nothing has changed.
    fn make_settled(&self, run: &mut Make, files: &Vec<FileState>) -> (action: MakeAction)
        requires
            self.wf(),
            run_fits(old(run)@, self@),
            files@.len() == self@.nodes.len(),
        ensures
            run_fits(final(run)@, self@),
            closed_pass(self@, old(run)@, file_views(files@), self@, final(run)@, action),
    {
        let after = self.graph_digest(files);
        let same = after == run.before;
        if same || run.passes >= run.limit {
            run.phase = MakePhase::Done;
            run.pending = Vec::new();
            let report = self.save_digests(files);
            let success = same && self.succeeded();
            proof {
                assert(is_graph_digest(self@, file_views(files@), after@));
            }
            MakeAction::Finish { report, success }
        } else {
            run.before = after;
            run.passes = run.passes + 1;
            let action = self.begin_pass(run);
            proof {
                assert(is_graph_digest(self@, file_views(files@), run@.baseline));
            }
            action
        }
    }

    /// Takes one step of a run: takes in what the last action brought and
    /// says what to do next.
    ///
    /// A run starts with `Start` and is over with `Finish`. Each pass copies
    /// the roots that are due, lets nodes expand, lets nodes scan, and builds
    /// what is ready; the run ends after the first pass that leaves the
    /// whole-graph digest as it was, or when it has had as many passes as it
    /// may have. An event that does not answer the last action is rejected
    /// and changes nothing.
    pub fn make(&mut self, run: &mut Make, event: MakeEvent) -> (action: MakeAction)
        requires
            old(self).wf(),
            run_fits(old(run)@, old(self)@),
        ensures
            final(self).wf(),
            final(self).source_dir() == old(self).source_dir(),
            final(self).sandbox_dir() == old(self).sandbox_dir(),
            run_fits(final(run)@, final(self)@),
            stepped(old(self)@, old(run)@, event, final(self)@, final(run)@, action),
    {
        let phase = run.phase;
        match event {
            MakeEvent::Start => {
                if phase == MakePhase::Idle || phase == MakePhase::Done {
                    run.phase = MakePhase::Report;
                    run.passes = 0;
                    run.lost = Vec::new();
                    MakeAction::LoadReport
                } else {
                    MakeAction::Rejected
                }
            },
            MakeEvent::Report(report) => {
                if phase == MakePhase::Report {
                    self.make_loaded(run, &report)
                } else {
                    MakeAction::Rejected
                }
            },
            MakeEvent::Snapshot(files) => {
                if files.len() != self.node_count() {
                    MakeAction::Rejected
                } else if phase == MakePhase::Baseline {
                    run.before = self.graph_digest(&files);
                    self.begin_pass(run)
                } else if phase == MakePhase::Probe {
                    self.make_probed(run, &files)
                } else if phase == MakePhase::Settle {
                    self.make_settled(run, &files)
                } else {
                    MakeAction::Rejected
                }
            },
            MakeEvent::Mounted(outcomes) => {
                if phase == MakePhase::Mount && outcomes.len() == run.pending.len() {
                    self.make_mounted(run, &outcomes)
                } else {
                    MakeAction::Rejected
                }
            },
            MakeEvent::Expanded(results) => {
                if phase == MakePhase::Expand && results.len() == run.pending.len() {
                    self.make_expanded(run, &results)
                } else {
                    MakeAction::Rejected
                }
            },
            MakeEvent::Scanned(outcomes) => {
                if phase == MakePhase::Scan && outcomes.len() == run.pending.len() {
                    self.make_scanned(run, &outcomes)
                } else {
                    MakeAction::Rejected
                }
            },
            MakeEvent::Built(outcomes) => {
                if phase == MakePhase::Build && outcomes.len() == run.pending.len() {
                    self.make_built(run, &outcomes)
                } else {
                    MakeAction::Rejected
                }
            },
        }
    }
}

} // verus!
