//! Whole runs: what holds from `Start` on, step after step, whatever the
//! events bring.
//!
//! A run is told as the moments between its events. Each event is one that
//! the run waits for and takes the run from one moment to the next as a
//! step does; the first event is `Start` and no later one is.
use crate::expand::absorb;
use crate::expand::absorb_all;
use crate::expand::absorb_edges;
use crate::expand::absorb_nodes;
use crate::expand::expand_views;
use crate::expand::ExpandSpec;
use crate::make::accepts;
use crate::make::paths_of;
use crate::make::run_fits;
use crate::make::stepped;
use crate::make::MakeAction;
use crate::make::MakeEvent;
use crate::make::MakePhase;
use crate::make::RunSpec;
use crate::model::GNodeStatus;
use crate::model::LinkSpec;
use crate::model::NodeSpec;
use crate::mount::ascending;
use crate::mount::lists;
use crate::mount::mount_due;
use crate::report::all_well;
use crate::report::is_graph_digest;
use crate::scan::scan_views;
use crate::scan::scanned_all;
use crate::scan::ScanSpec;
use crate::schedule::build_views;
use crate::schedule::doomed;
use crate::schedule::file_views;
use crate::state::GraphState;
use crate::text::texts;
use vstd::prelude::*;

verus! {

/// Where things stand between two events.
pub struct Moment {
    pub g: GraphState,
    pub r: RunSpec,
}

/// Event `k` is one that the run waits for, and takes the run from moment
/// `k` to the next as a step does.
pub open spec fn step_at(ms: Seq<Moment>, evs: Seq<MakeEvent>, acts: Seq<MakeAction>, k: int) -> bool {
    &&& ms[k].g.wf()
    &&& run_fits(ms[k].r, ms[k].g)
    &&& accepts(ms[k].g, ms[k].r, evs[k])
    &&& stepped(ms[k].g, ms[k].r, evs[k], ms[k + 1].g, ms[k + 1].r, acts[k])
}

/// The moments, events and actions of one run, from its `Start`.
pub open spec fn is_run(ms: Seq<Moment>, evs: Seq<MakeEvent>, acts: Seq<MakeAction>) -> bool {
    &&& evs.len() >= 1
    &&& ms.len() == evs.len() + 1
    &&& acts.len() == evs.len()
    &&& evs[0] is Start
    &&& forall|k: int| 0 < k < evs.len() ==> !((#[trigger] evs[k]) is Start)
    &&& forall|k: int| 0 <= k < evs.len() ==> #[trigger] step_at(ms, evs, acts, k)
}

/// What the run waits for fits the graph: the roots it asked to copy are
/// due, and the nodes it asked to build are `Running`.
pub open spec fn coherent(m: Moment) -> bool {
    match m.r.phase {
        MakePhase::Idle => false,
        MakePhase::Report => false,
        MakePhase::Mount => forall|i: int|
            0 <= i < m.g.nodes.len() ==> (#[trigger] lists(m.r.pending, i) <==> mount_due(m.g, i)),
        MakePhase::Build => forall|k: int|
            0 <= k < m.r.pending.len() ==> m.g.status[#[trigger] m.r.pending[k] as int]
                == GNodeStatus::Running,
        _ => true,
    }
}

/// A failure that a run does not come back from: the root could not be
/// copied, or the node is lost behind a failure.
pub open spec fn given_up(st: GNodeStatus) -> bool {
    st == GNodeStatus::MountedFailed || st == GNodeStatus::AncestorFailed
}

/// One status follows the other within a stage that only lets nodes expand:
/// it is the same, or a failed build gets another chance.
pub open spec fn expands_to(a: GNodeStatus, b: GNodeStatus) -> bool {
    b == a || (a == GNodeStatus::BuildFailed && b == GNodeStatus::Initial)
}

/// One status follows the other within a scan stage: it is the same, or a
/// node has to be scanned again.
pub open spec fn scans_to(a: GNodeStatus, b: GNodeStatus) -> bool {
    b == a || (a == GNodeStatus::Initial && b == GNodeStatus::ScanIncomplete)
}

/// Proposed nodes leave the nodes and statuses that are there alone.
proof fn lemma_absorb_nodes_frame(s: GraphState, nodes: Seq<NodeSpec>)
    ensures
        s.nodes.is_prefix_of(absorb_nodes(s, nodes).nodes),
        s.status.is_prefix_of(absorb_nodes(s, nodes).status),
    decreases nodes.len(),
{
    if nodes.len() > 0 {
        lemma_absorb_nodes_frame(s, nodes.drop_last());
    }
}

/// Proposed edges leave the nodes alone, and change no status but that of
/// a failed build.
proof fn lemma_absorb_edges_frame(s: GraphState, edges: Seq<LinkSpec>)
    requires
        s.wf(),
    ensures
        absorb_edges(s, edges).nodes == s.nodes,
        absorb_edges(s, edges).status.len() == s.status.len(),
        forall|v: int|
            0 <= v < s.status.len() ==> expands_to(
                s.status[v],
                #[trigger] absorb_edges(s, edges).status[v],
            ),
    decreases edges.len(),
{
    if edges.len() > 0 {
        lemma_absorb_edges_frame(s, edges.drop_last());
        crate::laws::lemma_absorb_edges_keep_wf(s, edges.drop_last());
        let t = absorb_edges(s, edges.drop_last());
        if t.holds(edges.last().to) {
            crate::laws::lemma_index_of(t, edges.last().to);
        }
    }
}

/// What nodes propose leaves the nodes that are there alone, and changes
/// none of their statuses but that of a failed build.
pub proof fn lemma_absorb_frame(s: GraphState, results: Seq<ExpandSpec>)
    requires
        s.wf(),
    ensures
        absorb_all(s, results).wf(),
        s.nodes.is_prefix_of(absorb_all(s, results).nodes),
        s.status.len() <= absorb_all(s, results).status.len(),
        forall|v: int|
            0 <= v < s.status.len() ==> expands_to(
                s.status[v],
                #[trigger] absorb_all(s, results).status[v],
            ),
    decreases results.len(),
{
    if results.len() > 0 {
        lemma_absorb_frame(s, results.drop_last());
        let t = absorb_all(s, results.drop_last());
        lemma_absorb_nodes_frame(t, results.last().nodes);
        crate::laws::lemma_absorb_nodes_keep_wf(t, results.last().nodes);
        let u = absorb_nodes(t, results.last().nodes);
        lemma_absorb_edges_frame(u, results.last().edges);
        crate::laws::lemma_absorb_edges_keep_wf(u, results.last().edges);
        assert(absorb_all(s, results) == absorb(t, results.last()));
        assert forall|v: int| 0 <= v < s.status.len() implies expands_to(
            s.status[v],
            #[trigger] absorb_all(s, results).status[v],
        ) by {
            assert(expands_to(s.status[v], t.status[v]));
            assert(u.status[v] == t.status[v]);
            assert(expands_to(u.status[v], absorb_edges(u, results.last().edges).status[v]));
        }
    }
}

/// What nodes report leaves the nodes alone, and changes no status but
/// from `Initial` to `ScanIncomplete`.
pub proof fn lemma_scan_frame(s: GraphState, targets: Seq<usize>, outcomes: Seq<ScanSpec>)
    requires
        s.wf(),
        ascending(targets, s.nodes.len()),
        outcomes.len() == targets.len(),
    ensures
        scanned_all(s, targets, outcomes).wf(),
        scanned_all(s, targets, outcomes).nodes == s.nodes,
        scanned_all(s, targets, outcomes).status.len() == s.status.len(),
        forall|v: int|
            0 <= v < s.status.len() ==> scans_to(
                s.status[v],
                #[trigger] scanned_all(s, targets, outcomes).status[v],
            ),
    decreases targets.len(),
{
    crate::laws::law_scans_keep_wf(s, targets, outcomes);
    if targets.len() > 0 {
        let rest = targets.drop_last();
        assert(ascending(rest, s.nodes.len())) by {
            assert forall|k: int| 0 <= k < rest.len() implies (#[trigger] rest[k]) < s.nodes.len() by {
                assert(rest[k] == targets[k]);
            }
            assert forall|j: int, k: int| 0 <= j < k < rest.len() implies rest[j] < rest[k] by {
                assert(rest[j] == targets[j] && rest[k] == targets[k]);
            }
        }
        lemma_scan_frame(s, rest, outcomes.drop_last());
        let t = scanned_all(s, rest, outcomes.drop_last());
        assert(targets.last() == targets[targets.len() - 1]);
        crate::laws::lemma_scan_keeps(t, targets.last() as int, outcomes.last().paths);
    }
}

/// One step of a run that is not its `Start`: what the run waits for still
/// fits the graph, the nodes that are there stay, a node that is lost stays
/// lost, a root that could not be copied is not tried again, and what the
/// run remembers as lost is only touched when builds are asked for or taken
/// in.
pub proof fn lemma_step(m0: Moment, event: MakeEvent, m1: Moment, action: MakeAction)
    requires
        m0.g.wf(),
        run_fits(m0.r, m0.g),
        coherent(m0),
        accepts(m0.g, m0.r, event),
        stepped(m0.g, m0.r, event, m1.g, m1.r, action),
        !(event is Start),
    ensures
        coherent(m1),
        m1.g.wf(),
        m0.g.nodes.is_prefix_of(m1.g.nodes),
        m0.g.status.len() <= m1.g.status.len(),
        forall|v: int|
            0 <= v < m0.g.status.len() && m0.g.status[v] == GNodeStatus::AncestorFailed
                ==> #[trigger] m1.g.status[v] == GNodeStatus::AncestorFailed,
        forall|v: int|
            0 <= v < m0.g.status.len() && given_up(m0.g.status[v]) ==> given_up(
                #[trigger] m1.g.status[v],
            ),
        m0.r.phase != MakePhase::Probe && m0.r.phase != MakePhase::Build ==> m1.r.lost == m0.r.lost,
        m0.r.phase != MakePhase::Probe ==> m1.r.phase != MakePhase::Build,
        m1.r.phase != MakePhase::Baseline,
        m1.r.phase == MakePhase::Mount ==> m0.r.phase == MakePhase::Baseline || (m0.r.phase
            == MakePhase::Settle && m1.r.passes > 0),
{
    match event {
        MakeEvent::Start => {},
        MakeEvent::Report(report) => {},
        MakeEvent::Snapshot(files) => {},
        MakeEvent::Mounted(o) => {
            assert forall|v: int| 0 <= v < m0.g.status.len() && !m0.g.status[v].pending() implies #[trigger] m1.g.status[v]
                == m0.g.status[v] by {
                if lists(m0.r.pending, v) {
                    assert(mount_due(m0.g, v));
                }
            }
        },
        MakeEvent::Expanded(o) => {
            lemma_absorb_frame(m0.g, expand_views(o@));
        },
        MakeEvent::Scanned(o) => {
            lemma_scan_frame(m0.g, m0.r.pending, scan_views(o@));
        },
        MakeEvent::Built(o) => {
            assert forall|v: int| 0 <= v < m0.g.status.len() && given_up(m0.g.status[v]) implies (
            #[trigger] m1.g.status[v] == m0.g.status[v] || m1.g.status[v]
                == GNodeStatus::AncestorFailed) by {
                if lists(m0.r.pending, v) {
                    let k = choose|k: int| 0 <= k < m0.r.pending.len() && #[trigger] m0.r.pending[k] == v;
                    assert(m0.g.status[m0.r.pending[k] as int] == GNodeStatus::Running);
                }
            }
        },
    }
}

/// From the second event on, what the run waits for fits the graph.
pub proof fn lemma_run_coherent(ms: Seq<Moment>, evs: Seq<MakeEvent>, acts: Seq<MakeAction>, k: int)
    requires
        is_run(ms, evs, acts),
        2 <= k < ms.len(),
    ensures
        coherent(ms[k]),
        ms[k].g.wf(),
    decreases k,
{
    assert(step_at(ms, evs, acts, k - 1));
    if k == 2 {
        assert(step_at(ms, evs, acts, 0));
    } else {
        lemma_run_coherent(ms, evs, acts, k - 1);
        lemma_step(ms[k - 1], evs[k - 1], ms[k], acts[k - 1]);
    }
}

/// A node that is lost stays lost to the end of the run: once a node is
/// `AncestorFailed`, it is so at every later moment of the run.
pub proof fn law_lost_stays_lost(
    ms: Seq<Moment>,
    evs: Seq<MakeEvent>,
    acts: Seq<MakeAction>,
    a: int,
    b: int,
    v: int,
)
    requires
        is_run(ms, evs, acts),
        2 <= a <= b < ms.len(),
        0 <= v < ms[a].g.nodes.len(),
        ms[a].g.status[v] == GNodeStatus::AncestorFailed,
    ensures
        0 <= v < ms[b].g.nodes.len(),
        ms[b].g.status[v] == GNodeStatus::AncestorFailed,
    decreases b - a,
{
    if a < b {
        lemma_run_coherent(ms, evs, acts, a);
        assert(step_at(ms, evs, acts, a));
        lemma_step(ms[a], evs[a], ms[a + 1], acts[a]);
        lemma_run_coherent(ms, evs, acts, a + 1);
        law_lost_stays_lost(ms, evs, acts, a + 1, b, v);
    }
}

/// A failure that a run does not come back from stays to the end of the
/// run: a root that could not be copied, or a node that is lost, counts as
/// failed at every later moment.
pub proof fn law_given_up_stays(
    ms: Seq<Moment>,
    evs: Seq<MakeEvent>,
    acts: Seq<MakeAction>,
    a: int,
    b: int,
    v: int,
)
    requires
        is_run(ms, evs, acts),
        2 <= a <= b < ms.len(),
        0 <= v < ms[a].g.nodes.len(),
        given_up(ms[a].g.status[v]),
    ensures
        0 <= v < ms[b].g.nodes.len(),
        given_up(ms[b].g.status[v]),
    decreases b - a,
{
    if a < b {
        lemma_run_coherent(ms, evs, acts, a);
        assert(step_at(ms, evs, acts, a));
        lemma_step(ms[a], evs[a], ms[a + 1], acts[a]);
        lemma_run_coherent(ms, evs, acts, a + 1);
        law_given_up_stays(ms, evs, acts, a + 1, b, v);
    }
}

/// A missing source, for the whole run: when a root cannot be copied it is
/// `MountedFailed`, it counts as failed at every later moment of the run,
/// and a run that ends after that does not end well.
pub proof fn law_missing_source_fails_the_run(
    ms: Seq<Moment>,
    evs: Seq<MakeEvent>,
    acts: Seq<MakeAction>,
    a: int,
    b: int,
    j: int,
)
    requires
        is_run(ms, evs, acts),
        2 <= a < b < ms.len(),
        evs[a] matches MakeEvent::Mounted(o) && 0 <= j < o@.len() && !o@[j]@.copied,
    ensures
        j < ms[a].r.pending.len(),
        ms[a].r.pending[j] < ms[b].g.nodes.len(),
        ms[a + 1].g.status[ms[a].r.pending[j] as int] == GNodeStatus::MountedFailed,
        given_up(ms[b].g.status[ms[a].r.pending[j] as int]),
        acts[b - 1] matches MakeAction::Finish { success, .. } ==> !success,
{
    assert(step_at(ms, evs, acts, a));
    lemma_run_coherent(ms, evs, acts, a);
    lemma_run_coherent(ms, evs, acts, a + 1);
    let v = ms[a].r.pending[j] as int;
    let o = evs[a]->Mounted_0;
    assert(crate::mount::mount_views(o@)[j] == o@[j]@);
    assert(ms[a + 1].g.status[ms[a].r.pending[j] as int] == GNodeStatus::MountedFailed);
    law_given_up_stays(ms, evs, acts, a + 1, b, v);
    if b - 1 > a {
        law_given_up_stays(ms, evs, acts, a + 1, b - 1, v);
        lemma_run_coherent(ms, evs, acts, b - 1);
        assert(step_at(ms, evs, acts, b - 1));
        if acts[b - 1] is Finish {
            assert(ms[b - 1].g.status[v].failed());
        }
    }
}

/// Failure propagation, for the whole run: when the results of the builds
/// are taken in and the build of a job has failed, every node that depends
/// on that job, directly or through other nodes, is `AncestorFailed` from
/// then on at every moment of the run, and a run that ends after that does
/// not end well.
pub proof fn law_failed_build_dooms(
    ms: Seq<Moment>,
    evs: Seq<MakeEvent>,
    acts: Seq<MakeAction>,
    a: int,
    b: int,
    v: int,
)
    requires
        is_run(ms, evs, acts),
        2 <= a < b < ms.len(),
        evs[a] matches MakeEvent::Built(o) && doomed(
            ms[a].g,
            ms[a].r.pending,
            build_views(o@),
            ms[a].r.previous,
            v,
        ),
        0 <= v < ms[a].g.nodes.len(),
    ensures
        0 <= v < ms[b].g.nodes.len(),
        ms[b].g.status[v] == GNodeStatus::AncestorFailed,
        acts[b - 1] matches MakeAction::Finish { success, .. } ==> !success,
{
    assert(step_at(ms, evs, acts, a));
    lemma_run_coherent(ms, evs, acts, a);
    lemma_run_coherent(ms, evs, acts, a + 1);
    assert(ms[a + 1].g.status[v] == GNodeStatus::AncestorFailed);
    law_lost_stays_lost(ms, evs, acts, a + 1, b, v);
    if b - 1 > a {
        law_lost_stays_lost(ms, evs, acts, a + 1, b - 1, v);
        lemma_run_coherent(ms, evs, acts, b - 1);
        assert(step_at(ms, evs, acts, b - 1));
        if acts[b - 1] is Finish {
            assert(ms[b - 1].g.status[v].failed());
        }
    }
}

/// What the run remembers as lost when the results of the builds were
/// taken in, it remembers until builds are asked for again; the nodes that
/// were there stay meanwhile.
proof fn lemma_lost_kept(ms: Seq<Moment>, evs: Seq<MakeEvent>, acts: Seq<MakeAction>, a: int, k: int)
    requires
        is_run(ms, evs, acts),
        2 <= a < k < ms.len(),
        evs[a] is Built,
        forall|j: int| a < j < k ==> (#[trigger] ms[j]).r.phase != MakePhase::Probe,
    ensures
        ms[k].r.lost == ms[a + 1].r.lost,
        ms[a + 1].g.nodes.is_prefix_of(ms[k].g.nodes),
        ms[k].r.phase != MakePhase::Build,
    decreases k,
{
    if k == a + 1 {
        assert(step_at(ms, evs, acts, a));
    } else {
        lemma_lost_kept(ms, evs, acts, a, k - 1);
        lemma_run_coherent(ms, evs, acts, k - 1);
        assert(step_at(ms, evs, acts, k - 1));
        assert(ms[k - 1].r.phase != MakePhase::Probe);
        lemma_step(ms[k - 1], evs[k - 1], ms[k], acts[k - 1]);
    }
}

/// Nothing stale is left behind a failed build: when the results of the
/// builds are taken in and a node is lost behind a failed job, the next
/// time the run asks for builds it asks to remove what is at the path of
/// that node.
pub proof fn law_stale_outputs_are_removed(
    ms: Seq<Moment>,
    evs: Seq<MakeEvent>,
    acts: Seq<MakeAction>,
    a: int,
    b: int,
    v: int,
)
    requires
        is_run(ms, evs, acts),
        2 <= a < b < evs.len(),
        evs[a] matches MakeEvent::Built(o) && doomed(
            ms[a].g,
            ms[a].r.pending,
            build_views(o@),
            ms[a].r.previous,
            v,
        ),
        0 <= v < ms[a].g.nodes.len(),
        ms[b].r.phase == MakePhase::Probe,
        forall|j: int| a < j < b ==> (#[trigger] ms[j]).r.phase != MakePhase::Probe,
    ensures
        acts[b] matches MakeAction::Build { discard, .. } && exists|k: int|
            0 <= k < discard@.len() && (#[trigger] discard@[k])@ == ms[a].g.nodes[v].path,
{
    assert(step_at(ms, evs, acts, a));
    assert(step_at(ms, evs, acts, b));
    lemma_lost_kept(ms, evs, acts, a, b);
    let lost = ms[b].r.lost;
    assert(lists(lost, v));
    let j = choose|j: int| 0 <= j < lost.len() && #[trigger] lost[j] == v;
    match acts[b] {
        MakeAction::Build { jobs, discard } => {
            let first = choose|first: Seq<usize>|
                #![trigger paths_of(ms[b + 1].g, first)]
                texts(discard@) == paths_of(ms[b + 1].g, first) + paths_of(ms[b + 1].g, lost);
            let k = first.len() + j;
            assert(paths_of(ms[b + 1].g, first).len() == first.len());
            assert(paths_of(ms[b + 1].g, lost).len() == lost.len());
            assert(texts(discard@).len() == discard@.len());
            assert(texts(discard@)[k] == paths_of(ms[b + 1].g, lost)[j]);
            assert(texts(discard@)[k] == discard@[k]@);
            assert(ms[b].g.nodes[v] == ms[a + 1].g.nodes[v]);
            assert(discard@[k]@ == ms[a].g.nodes[v].path);
        },
        _ => {},
    }
}

/// The stage that a run is in tells the stage it was in before: the stages
/// of a pass follow one another, a pass begins behind a look at the
/// sandbox, and the whole-graph digest that the run keeps is that of the
/// graph and the sandbox as they were at that look.
pub proof fn lemma_stage_before(m0: Moment, event: MakeEvent, m1: Moment, action: MakeAction)
    requires
        accepts(m0.g, m0.r, event),
        stepped(m0.g, m0.r, event, m1.g, m1.r, action),
        !(event is Start),
    ensures
        m1.r.phase == MakePhase::Expand ==> m0.r.phase == MakePhase::Mount,
        m1.r.phase == MakePhase::Scan ==> m0.r.phase == MakePhase::Expand,
        m1.r.phase == MakePhase::Probe ==> m0.r.phase == MakePhase::Scan,
        m1.r.phase == MakePhase::Build ==> m0.r.phase == MakePhase::Probe,
        m1.r.phase == MakePhase::Settle ==> m0.r.phase == MakePhase::Build,
        m1.r.phase == MakePhase::Done ==> m0.r.phase == MakePhase::Settle,
        m1.r.phase == MakePhase::Mount ==> (m0.r.phase == MakePhase::Baseline || m0.r.phase
            == MakePhase::Settle) && (event matches MakeEvent::Snapshot(files) && is_graph_digest(
            m0.g,
            file_views(files@),
            m1.r.baseline,
        )),
        m1.r.phase != MakePhase::Mount && m1.r.phase != MakePhase::Done && m1.r.phase
            != MakePhase::Baseline ==> m1.r.baseline == m0.r.baseline,
{
}

/// Convergence, for the whole run: a run ends well only behind a whole
/// pass that left the whole-graph digest as it was. When a run ends well,
/// no node has failed, and the digest of the graph and the sandbox at its
/// end is the digest that was taken before the roots were last copied, six
/// events earlier; every node that was added since, and its status, is part
/// of the digest at the end.
pub proof fn law_ends_on_a_repeated_digest(
    ms: Seq<Moment>,
    evs: Seq<MakeEvent>,
    acts: Seq<MakeAction>,
    k: int,
)
    requires
        is_run(ms, evs, acts),
        2 <= k < evs.len(),
        acts[k] matches MakeAction::Finish { success, .. } && success,
    ensures
        k >= 8,
        all_well(ms[k].g),
        ms[k - 6].g.nodes.is_prefix_of(ms[k].g.nodes),
        evs[k] matches MakeEvent::Snapshot(last) && (evs[k - 6] matches MakeEvent::Snapshot(first)
            && exists|d: Seq<char>|
            is_graph_digest(ms[k - 6].g, file_views(first@), d) && #[trigger] is_graph_digest(
                ms[k].g,
                file_views(last@),
                d,
            )),
{
    assert(step_at(ms, evs, acts, k));
    assert(step_at(ms, evs, acts, 0));
    assert(step_at(ms, evs, acts, 1));
    assert(ms[k].r.phase == MakePhase::Settle);
    assert(ms[2].r.phase == MakePhase::Baseline);
    if k >= 3 {
        assert(step_at(ms, evs, acts, k - 1));
        lemma_stage_before(ms[k - 1], evs[k - 1], ms[k], acts[k - 1]);
    }
    if k >= 4 {
        assert(step_at(ms, evs, acts, k - 2));
        lemma_stage_before(ms[k - 2], evs[k - 2], ms[k - 1], acts[k - 2]);
    }
    if k >= 5 {
        assert(step_at(ms, evs, acts, k - 3));
        lemma_stage_before(ms[k - 3], evs[k - 3], ms[k - 2], acts[k - 3]);
    }
    if k >= 6 {
        assert(step_at(ms, evs, acts, k - 4));
        lemma_stage_before(ms[k - 4], evs[k - 4], ms[k - 3], acts[k - 4]);
    }
    if k >= 7 {
        assert(step_at(ms, evs, acts, k - 5));
        lemma_stage_before(ms[k - 5], evs[k - 5], ms[k - 4], acts[k - 5]);
    }
    if k >= 8 {
        assert(step_at(ms, evs, acts, k - 6));
        lemma_stage_before(ms[k - 6], evs[k - 6], ms[k - 5], acts[k - 6]);
        lemma_nodes_stay(ms, evs, acts, k - 6, k);
        let last = evs[k]->Snapshot_0;
        let first = evs[k - 6]->Snapshot_0;
        let d = ms[k].r.baseline;
        assert(ms[k - 5].r.baseline == d);
        assert(is_graph_digest(ms[k - 6].g, file_views(first@), d));
        assert(is_graph_digest(ms[k].g, file_views(last@), d));
    }
}

/// The nodes that are there stay, from one moment of a run to a later one.
pub proof fn lemma_nodes_stay(ms: Seq<Moment>, evs: Seq<MakeEvent>, acts: Seq<MakeAction>, a: int, b: int)
    requires
        is_run(ms, evs, acts),
        2 <= a <= b < ms.len(),
    ensures
        ms[a].g.nodes.is_prefix_of(ms[b].g.nodes),
    decreases b - a,
{
    if a < b {
        lemma_run_coherent(ms, evs, acts, a);
        assert(step_at(ms, evs, acts, a));
        lemma_step(ms[a], evs[a], ms[a + 1], acts[a]);
        lemma_nodes_stay(ms, evs, acts, a + 1, b);
    }
}

} // verus!
