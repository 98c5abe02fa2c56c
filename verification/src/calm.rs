//! Calm runs: runs in which nothing fails and the graph stays as it is.
//!
//! In a calm run every root can be copied, nodes propose and report nothing
//! that the graph does not hold yet, and every build succeeds and leaves
//! the output that the previous run recorded. Some roots may have changed
//! since the previous run, and some outputs may be missing or differ from
//! what was recorded. What such a run does to each node is then settled by
//! these two things alone.
use crate::digest::same_as_recorded;
use crate::expand::absorb_all;
use crate::expand::expand_views;
use crate::graph::linked;
use crate::laws::lemma_built_node_has_predecessor;
use crate::laws::ranked;
use crate::make::accepts;
use crate::make::run_fits;
use crate::make::stepped;
use crate::make::MakeAction;
use crate::make::MakeEvent;
use crate::make::MakePhase;
use crate::make::RunSpec;
use crate::model::GNodeStatus;
use crate::mount::lists;
use crate::mount::mount_due;
use crate::mount::mount_views;
use crate::runs::coherent;
use crate::runs::is_run;
use crate::runs::lemma_run_coherent;
use crate::runs::lemma_step;
use crate::runs::step_at;
use crate::runs::Moment;
use crate::scan::scan_views;
use crate::scan::scanned_all;
use crate::schedule::all_preds_success;
use crate::schedule::all_preds_unchanged;
use crate::schedule::build_views;
use crate::schedule::built_status;
use crate::schedule::doomed;
use crate::schedule::file_views;
use crate::schedule::has_failed_pred;
use crate::schedule::job_failed;
use crate::schedule::route_at;
use crate::schedule::Route;
use crate::state::GraphState;
use vstd::prelude::*;

verus! {

/// Node `p` is a root that was found changed.
pub open spec fn changed_root(g: GraphState, changed: spec_fn(int) -> bool, p: int) -> bool {
    g.is_root(p) && changed(p)
}

/// Nothing asks for a build of node `v`: none of its predecessors is a root
/// that was found changed, and at its path is the file that the previous
/// run recorded.
pub open spec fn quiet(
    g: GraphState,
    changed: spec_fn(int) -> bool,
    intact: spec_fn(int) -> bool,
    v: int,
) -> bool {
    intact(v) && forall|k: int|
        0 <= k < g.preds(v).len() ==> !changed_root(g, changed, #[trigger] g.preds(v)[k] as int)
}

/// The status with which a calm run leaves node `v`: a root is
/// `MountedChanged` if it was found changed and `MountedNotChanged` if not;
/// a node that is built is `BuildNotRequired` if nothing asks for its build,
/// and `BuildNotChanged` if it had to be built.
pub open spec fn calm_status(
    g: GraphState,
    changed: spec_fn(int) -> bool,
    intact: spec_fn(int) -> bool,
    v: int,
) -> GNodeStatus {
    if g.is_root(v) {
        if changed(v) {
            GNodeStatus::MountedChanged
        } else {
            GNodeStatus::MountedNotChanged
        }
    } else if quiet(g, changed, intact, v) {
        GNodeStatus::BuildNotRequired
    } else {
        GNodeStatus::BuildNotChanged
    }
}

/// Node `v` has the status that a calm run leaves it with, or is a node
/// that is built and still open, or one whose build was asked for.
pub open spec fn node_calm(
    g: GraphState,
    changed: spec_fn(int) -> bool,
    intact: spec_fn(int) -> bool,
    v: int,
) -> bool {
    g.status[v] == calm_status(g, changed, intact, v) || (!g.is_root(v) && (g.status[v]
        == GNodeStatus::Initial || (g.status[v] == GNodeStatus::Running && !quiet(
        g,
        changed,
        intact,
        v,
    ))))
}

/// The number of build stages that the run has been through.
pub open spec fn progress(r: RunSpec) -> nat {
    if r.phase == MakePhase::Build || r.phase == MakePhase::Settle || r.phase == MakePhase::Done {
        r.passes + 1
    } else {
        r.passes
    }
}

/// The roots have not been copied yet in this run.
pub open spec fn before_mount(r: RunSpec) -> bool {
    r.phase == MakePhase::Baseline || (r.phase == MakePhase::Mount && r.passes == 0)
}

/// What holds at every moment of a calm run: before the roots are copied,
/// every node is `Initial`; from then on every node has the status that the
/// run leaves it with or is still open, no node of a rank up to the number
/// of build stages is still `Initial`, and a node is `Running` only while
/// its build is asked for.
pub open spec fn calm_at(
    m: Moment,
    changed: spec_fn(int) -> bool,
    intact: spec_fn(int) -> bool,
    rank: spec_fn(int) -> nat,
) -> bool {
    if before_mount(m.r) {
        m.r.passes == 0 && forall|v: int|
            0 <= v < m.g.status.len() ==> #[trigger] m.g.status[v] == GNodeStatus::Initial
    } else {
        &&& forall|v: int| 0 <= v < m.g.nodes.len() ==> #[trigger] node_calm(m.g, changed, intact, v)
        &&& forall|v: int|
            0 <= v < m.g.nodes.len() && rank(v) <= progress(m.r) ==> #[trigger] m.g.status[v]
                != GNodeStatus::Initial
        &&& forall|v: int|
            0 <= v < m.g.nodes.len() && #[trigger] m.g.status[v] == GNodeStatus::Running
                ==> m.r.phase == MakePhase::Build && lists(m.r.pending, v)
    }
}

/// The event is one of a calm run: every root is copied, and is found
/// changed exactly if `changed` says so; nodes propose and report nothing
/// new; at the path of a node that is still open is the recorded file
/// exactly if `intact` says so; every build leaves the recorded output.
pub open spec fn calm_event(
    m: Moment,
    event: MakeEvent,
    changed: spec_fn(int) -> bool,
    intact: spec_fn(int) -> bool,
) -> bool {
    match event {
        MakeEvent::Mounted(o) => forall|j: int|
            0 <= j < o@.len() ==> (#[trigger] mount_views(o@)[j]).copied && (same_as_recorded(
                m.r.previous,
                m.g.nodes[m.r.pending[j] as int].path,
                mount_views(o@)[j].digest,
            ) <==> !changed(m.r.pending[j] as int)),
        MakeEvent::Expanded(o) => absorb_all(m.g, expand_views(o@)) == m.g,
        MakeEvent::Scanned(o) => scanned_all(m.g, m.r.pending, scan_views(o@)) == m.g,
        MakeEvent::Snapshot(files) => m.r.phase == MakePhase::Probe ==> forall|v: int|
            0 <= v < m.g.nodes.len() && m.g.status[v] == GNodeStatus::Initial ==> (same_as_recorded(
                m.r.previous,
                m.g.nodes[v].path,
                (#[trigger] file_views(files@)[v]).digest,
            ) <==> intact(v)),
        MakeEvent::Built(o) => forall|j: int|
            0 <= j < o@.len() ==> built_status(
                #[trigger] build_views(o@)[j],
                m.r.previous,
                m.g.nodes[m.r.pending[j] as int].path,
            ) == GNodeStatus::BuildNotChanged,
        _ => true,
    }
}

/// A predecessor is a node of the graph and has a lower rank.
proof fn lemma_pred_below(g: GraphState, rank: spec_fn(int) -> nat, v: int, k: int)
    requires
        g.wf(),
        ranked(g, rank),
        0 <= v < g.nodes.len(),
        0 <= k < g.preds(v).len(),
    ensures
        g.preds(v)[k] < g.nodes.len(),
        rank(g.preds(v)[k] as int) < rank(v),
{
    crate::graph::lemma_neighbors_in_range(g.edges, g.nodes.len(), v as nat, true);
    crate::graph::lemma_neighbors_linked(g.edges, v as nat, true);
    let b = g.preds(v)[k];
    assert(g.preds(v).contains(b));
    assert(linked(g.edges, b, v as nat));
    let e = choose|e: int| 0 <= e < g.edges.len() && #[trigger] g.edges[e] == (b, v as nat);
    assert(rank(g.edges[e].0 as int) < rank(g.edges[e].1 as int));
}

/// A node that is built has a rank above zero.
proof fn lemma_built_rank(g: GraphState, rank: spec_fn(int) -> nat, v: int)
    requires
        g.wf(),
        ranked(g, rank),
        0 <= v < g.nodes.len(),
        !g.is_root(v),
    ensures
        rank(v) > 0,
{
    lemma_built_node_has_predecessor(g, v);
    let e = choose|e: int| 0 <= e < g.edges.len() && (#[trigger] g.edges[e]).1 == v as nat;
    assert(rank(g.edges[e].0 as int) < rank(g.edges[e].1 as int));
}

/// The roots are copied in a calm run.
proof fn lemma_calm_mount(
    m0: Moment,
    event: MakeEvent,
    m1: Moment,
    action: MakeAction,
    changed: spec_fn(int) -> bool,
    intact: spec_fn(int) -> bool,
    rank: spec_fn(int) -> nat,
)
    requires
        m0.g.wf(),
        run_fits(m0.r, m0.g),
        coherent(m0),
        accepts(m0.g, m0.r, event),
        stepped(m0.g, m0.r, event, m1.g, m1.r, action),
        event is Mounted,
        calm_event(m0, event, changed, intact),
        ranked(m0.g, rank),
        calm_at(m0, changed, intact, rank),
    ensures
        calm_at(m1, changed, intact, rank),
        m1.g.same_shape(m0.g),
{
    let o = event->Mounted_0;
    let n = m0.g.nodes.len();
    assert forall|v: int| 0 <= v < n implies #[trigger] node_calm(m1.g, changed, intact, v) && (
    rank(v) <= progress(m1.r) ==> m1.g.status[v] != GNodeStatus::Initial) && m1.g.status[v]
        != GNodeStatus::Running by {
        assert(m1.g.is_root(v) == m0.g.is_root(v));
        assert(m1.g.preds(v) == m0.g.preds(v));
        if m0.r.passes == 0 {
            assert(m0.g.status[v] == GNodeStatus::Initial);
            if m0.g.is_root(v) {
                assert(mount_due(m0.g, v));
                assert(lists(m0.r.pending, v));
                let j = choose|j: int| 0 <= j < m0.r.pending.len() && #[trigger] m0.r.pending[j] == v;
                assert(mount_views(o@)[j].copied);
            } else {
                assert(!mount_due(m0.g, v));
                assert(!lists(m0.r.pending, v));
                lemma_built_rank(m0.g, rank, v);
            }
        } else {
            assert(node_calm(m0.g, changed, intact, v));
            assert(!mount_due(m0.g, v));
            assert(!lists(m0.r.pending, v));
            assert(m1.g.status[v] == m0.g.status[v]);
        }
        assert forall|k: int| 0 <= k < m0.g.preds(v).len() implies changed_root(
            m1.g,
            changed,
            #[trigger] m1.g.preds(v)[k] as int,
        ) == changed_root(m0.g, changed, m0.g.preds(v)[k] as int) by {}
        assert(quiet(m1.g, changed, intact, v) == quiet(m0.g, changed, intact, v));
    }
    assert forall|v: int| 0 <= v < n && rank(v) <= progress(m1.r) implies #[trigger] m1.g.status[v]
        != GNodeStatus::Initial by {
        assert(node_calm(m1.g, changed, intact, v));
    }
    assert forall|v: int|
        0 <= v < n && #[trigger] m1.g.status[v] == GNodeStatus::Running implies m1.r.phase
        == MakePhase::Build && lists(m1.r.pending, v) by {
        assert(node_calm(m1.g, changed, intact, v));
    }
    assert(!before_mount(m1.r));
}

/// The build stage of a calm run.
proof fn lemma_calm_probe(
    m0: Moment,
    event: MakeEvent,
    m1: Moment,
    action: MakeAction,
    changed: spec_fn(int) -> bool,
    intact: spec_fn(int) -> bool,
    rank: spec_fn(int) -> nat,
)
    requires
        m0.g.wf(),
        run_fits(m0.r, m0.g),
        coherent(m0),
        accepts(m0.g, m0.r, event),
        stepped(m0.g, m0.r, event, m1.g, m1.r, action),
        event is Snapshot,
        m0.r.phase == MakePhase::Probe,
        calm_event(m0, event, changed, intact),
        ranked(m0.g, rank),
        calm_at(m0, changed, intact, rank),
    ensures
        calm_at(m1, changed, intact, rank),
        m1.g.same_shape(m0.g),
{
    let files = file_views(event->Snapshot_0@);
    let n = m0.g.nodes.len();
    let g = m0.g;
    assert forall|v: int| 0 <= v < n implies #[trigger] node_calm(m1.g, changed, intact, v) && (
    rank(v) <= progress(m1.r) ==> m1.g.status[v] != GNodeStatus::Initial) && (m1.g.status[v]
        == GNodeStatus::Running ==> lists(m1.r.pending, v)) by {
        assert(m1.g.is_root(v) == g.is_root(v));
        assert(m1.g.preds(v) == g.preds(v));
        assert(node_calm(g, changed, intact, v));
        assert(g.status[v] != GNodeStatus::Running);
        assert forall|k: int| 0 <= k < g.preds(v).len() implies changed_root(
            m1.g,
            changed,
            #[trigger] m1.g.preds(v)[k] as int,
        ) == changed_root(g, changed, g.preds(v)[k] as int) by {}
        assert(quiet(m1.g, changed, intact, v) == quiet(g, changed, intact, v));
        if g.status[v] == GNodeStatus::Initial {
            assert(!g.is_root(v));
            assert forall|k: int| 0 <= k < g.preds(v).len() implies !g.status[#[trigger] g.preds(
                v,
            )[k] as int].failed() by {
                lemma_pred_below(g, rank, v, k);
                assert(node_calm(g, changed, intact, g.preds(v)[k] as int));
            }
            assert(!has_failed_pred(g, v));
            if all_preds_success(g, v) {
                assert forall|k: int| 0 <= k < g.preds(v).len() implies (g.status[#[trigger] g.preds(
                    v,
                )[k] as int].unchanged() <==> !changed_root(g, changed, g.preds(v)[k] as int)) by {
                    lemma_pred_below(g, rank, v, k);
                    let q = g.preds(v)[k] as int;
                    assert(node_calm(g, changed, intact, q));
                    assert(g.status[q].success());
                    assert(g.status[q] != GNodeStatus::Running);
                }
                assert(all_preds_unchanged(g, v) <==> forall|k: int|
                    0 <= k < g.preds(v).len() ==> !changed_root(
                        g,
                        changed,
                        #[trigger] g.preds(v)[k] as int,
                    ));
                assert(same_as_recorded(m0.r.previous, g.nodes[v].path, files[v].digest)
                    <==> intact(v));
                if quiet(g, changed, intact, v) {
                    assert(route_at(g, files, m0.r.previous, v) == Route::NotRequired);
                } else {
                    assert(route_at(g, files, m0.r.previous, v) == Route::Build);
                }
            } else {
                assert(route_at(g, files, m0.r.previous, v) == Route::Leave);
                if rank(v) <= progress(m1.r) {
                    assert forall|k: int| 0 <= k < g.preds(v).len() implies g.status[#[trigger] g.preds(
                        v,
                    )[k] as int].success() by {
                        lemma_pred_below(g, rank, v, k);
                        let q = g.preds(v)[k] as int;
                        assert(node_calm(g, changed, intact, q));
                        assert(g.status[q] != GNodeStatus::Initial);
                        assert(g.status[q] != GNodeStatus::Running);
                    }
                }
            }
        } else {
            assert(route_at(g, files, m0.r.previous, v) == Route::Leave);
        }
    }
    assert forall|v: int| 0 <= v < n && rank(v) <= progress(m1.r) implies #[trigger] m1.g.status[v]
        != GNodeStatus::Initial by {
        assert(node_calm(m1.g, changed, intact, v));
    }
    assert forall|v: int|
        0 <= v < n && #[trigger] m1.g.status[v] == GNodeStatus::Running implies m1.r.phase
        == MakePhase::Build && lists(m1.r.pending, v) by {
        assert(node_calm(m1.g, changed, intact, v));
    }
    assert(!before_mount(m1.r));
}

/// The results of the builds are taken in in a calm run.
proof fn lemma_calm_built(
    m0: Moment,
    event: MakeEvent,
    m1: Moment,
    action: MakeAction,
    changed: spec_fn(int) -> bool,
    intact: spec_fn(int) -> bool,
    rank: spec_fn(int) -> nat,
)
    requires
        m0.g.wf(),
        run_fits(m0.r, m0.g),
        coherent(m0),
        accepts(m0.g, m0.r, event),
        stepped(m0.g, m0.r, event, m1.g, m1.r, action),
        event is Built,
        calm_event(m0, event, changed, intact),
        ranked(m0.g, rank),
        calm_at(m0, changed, intact, rank),
    ensures
        calm_at(m1, changed, intact, rank),
        m1.g.same_shape(m0.g),
{
    let o = build_views(event->Built_0@);
    let n = m0.g.nodes.len();
    let g = m0.g;
    assert forall|v: int| 0 <= v < n implies !doomed(g, m0.r.pending, o, m0.r.previous, v) by {
        if doomed(g, m0.r.pending, o, m0.r.previous, v) {
            let k = choose|k: int|
                0 <= k < m0.r.pending.len() && #[trigger] job_failed(
                    g,
                    m0.r.pending,
                    o,
                    m0.r.previous,
                    k,
                );
            assert(built_status(o[k], m0.r.previous, g.nodes[m0.r.pending[k] as int].path)
                == GNodeStatus::BuildNotChanged);
        }
    }
    assert forall|v: int| 0 <= v < n implies #[trigger] node_calm(m1.g, changed, intact, v) && (
    rank(v) <= progress(m1.r) ==> m1.g.status[v] != GNodeStatus::Initial) && m1.g.status[v]
        != GNodeStatus::Running by {
        assert(m1.g.is_root(v) == g.is_root(v));
        assert(m1.g.preds(v) == g.preds(v));
        assert(node_calm(g, changed, intact, v));
        assert forall|k: int| 0 <= k < g.preds(v).len() implies changed_root(
            m1.g,
            changed,
            #[trigger] m1.g.preds(v)[k] as int,
        ) == changed_root(g, changed, g.preds(v)[k] as int) by {}
        assert(quiet(m1.g, changed, intact, v) == quiet(g, changed, intact, v));
        assert(!doomed(g, m0.r.pending, o, m0.r.previous, v));
        if lists(m0.r.pending, v) {
            let k = choose|k: int| 0 <= k < m0.r.pending.len() && #[trigger] m0.r.pending[k] == v;
            assert(g.status[m0.r.pending[k] as int] == GNodeStatus::Running);
            assert(built_status(o[k], m0.r.previous, g.nodes[m0.r.pending[k] as int].path)
                == GNodeStatus::BuildNotChanged);
            assert(m1.g.status[m0.r.pending[k] as int] == GNodeStatus::BuildNotChanged);
        } else {
            assert(m1.g.status[v] == g.status[v]);
        }
    }
}

/// One step of a calm run keeps what holds of it.
pub proof fn lemma_calm_step(
    m0: Moment,
    event: MakeEvent,
    m1: Moment,
    action: MakeAction,
    changed: spec_fn(int) -> bool,
    intact: spec_fn(int) -> bool,
    rank: spec_fn(int) -> nat,
)
    requires
        m0.g.wf(),
        run_fits(m0.r, m0.g),
        coherent(m0),
        accepts(m0.g, m0.r, event),
        stepped(m0.g, m0.r, event, m1.g, m1.r, action),
        !(event is Start),
        calm_event(m0, event, changed, intact),
        ranked(m0.g, rank),
        calm_at(m0, changed, intact, rank),
    ensures
        calm_at(m1, changed, intact, rank),
        m1.g.same_shape(m0.g),
{
    match event {
        MakeEvent::Start => {},
        MakeEvent::Report(report) => {},
        MakeEvent::Snapshot(files) => {
            if m0.r.phase == MakePhase::Probe {
                lemma_calm_probe(m0, event, m1, action, changed, intact, rank);
            }
        },
        MakeEvent::Mounted(o) => {
            lemma_calm_mount(m0, event, m1, action, changed, intact, rank);
        },
        MakeEvent::Expanded(o) => {},
        MakeEvent::Scanned(o) => {},
        MakeEvent::Built(o) => {
            lemma_calm_built(m0, event, m1, action, changed, intact, rank);
        },
    }
}

/// From the report on, the events of the run are those of a calm run.
pub open spec fn calm_run(
    ms: Seq<Moment>,
    evs: Seq<MakeEvent>,
    changed: spec_fn(int) -> bool,
    intact: spec_fn(int) -> bool,
) -> bool {
    forall|k: int| 2 <= k < evs.len() ==> #[trigger] calm_event(ms[k], evs[k], changed, intact)
}

/// Of no node.
pub open spec fn of_none() -> spec_fn(int) -> bool {
    |v: int| false
}

/// Of every node.
pub open spec fn of_all() -> spec_fn(int) -> bool {
    |v: int| true
}

/// A calm run, from the report on: the graph stays as it is, and at every
/// moment every node has the status that the run leaves it with or is still
/// open.
pub proof fn lemma_calm_run(
    ms: Seq<Moment>,
    evs: Seq<MakeEvent>,
    acts: Seq<MakeAction>,
    changed: spec_fn(int) -> bool,
    intact: spec_fn(int) -> bool,
    rank: spec_fn(int) -> nat,
    k: int,
)
    requires
        is_run(ms, evs, acts),
        calm_run(ms, evs, changed, intact),
        2 <= k < ms.len(),
        ranked(ms[2].g, rank),
    ensures
        calm_at(ms[k], changed, intact, rank),
        ms[k].g.same_shape(ms[2].g),
        ms[k].g.wf(),
        coherent(ms[k]),
        k >= 4 ==> !before_mount(ms[k].r),
    decreases k,
{
    lemma_run_coherent(ms, evs, acts, k);
    assert(step_at(ms, evs, acts, k - 1));
    if k == 2 {
        assert(step_at(ms, evs, acts, 0));
    } else {
        lemma_calm_run(ms, evs, acts, changed, intact, rank, k - 1);
        assert(calm_event(ms[k - 1], evs[k - 1], changed, intact));
        lemma_calm_step(ms[k - 1], evs[k - 1], ms[k], acts[k - 1], changed, intact, rank);
        lemma_step(ms[k - 1], evs[k - 1], ms[k], acts[k - 1]);
        if k >= 4 {
            lemma_run_coherent(ms, evs, acts, k - 2);
            assert(step_at(ms, evs, acts, k - 2));
            lemma_step(ms[k - 2], evs[k - 2], ms[k - 1], acts[k - 2]);
        }
    }
}

/// What a calm run does to each node: once the roots are copied, a root is
/// `MountedChanged` if it was found changed and `MountedNotChanged` if not.
/// A node that is built is `Initial` until its turn comes, which is in the
/// build stage of its rank at the latest; it is `Running` only while its
/// build is asked for, and then it is `BuildNotRequired` if none of its
/// predecessors is a root that was found changed and its output is the
/// recorded one, and `BuildNotChanged` if not.
pub proof fn law_calm_run(
    ms: Seq<Moment>,
    evs: Seq<MakeEvent>,
    acts: Seq<MakeAction>,
    changed: spec_fn(int) -> bool,
    intact: spec_fn(int) -> bool,
    rank: spec_fn(int) -> nat,
    k: int,
    v: int,
)
    requires
        is_run(ms, evs, acts),
        calm_run(ms, evs, changed, intact),
        4 <= k < ms.len(),
        ranked(ms[2].g, rank),
        0 <= v < ms[k].g.nodes.len(),
    ensures
        ms[k].g.same_shape(ms[2].g),
        node_calm(ms[k].g, changed, intact, v),
        ms[k].g.status[v] == GNodeStatus::Running ==> ms[k].r.phase == MakePhase::Build,
        rank(v) <= progress(ms[k].r) && ms[k].r.phase != MakePhase::Build ==> ms[k].g.status[v]
            == calm_status(ms[k].g, changed, intact, v),
{
    lemma_calm_run(ms, evs, acts, changed, intact, rank, k);
}

/// Idempotence, for the whole run: in a run that finds no root changed and
/// every output as the previous run recorded it, once the roots are copied
/// every root is `MountedNotChanged` at every moment, every node that is
/// built is `Initial` until its turn comes and `BuildNotRequired` from then
/// on, which is after the build stage of its rank at the latest, and no
/// build is ever asked for.
pub proof fn law_idempotent_run(
    ms: Seq<Moment>,
    evs: Seq<MakeEvent>,
    acts: Seq<MakeAction>,
    rank: spec_fn(int) -> nat,
    k: int,
    v: int,
)
    requires
        is_run(ms, evs, acts),
        calm_run(ms, evs, of_none(), of_all()),
        4 <= k < ms.len(),
        ranked(ms[2].g, rank),
        0 <= v < ms[k].g.nodes.len(),
    ensures
        ms[k].g.is_root(v) ==> ms[k].g.status[v] == GNodeStatus::MountedNotChanged,
        !ms[k].g.is_root(v) ==> ms[k].g.status[v] == GNodeStatus::Initial || ms[k].g.status[v]
            == GNodeStatus::BuildNotRequired,
        !ms[k].g.is_root(v) && rank(v) <= progress(ms[k].r) ==> ms[k].g.status[v]
            == GNodeStatus::BuildNotRequired,
        acts[k - 1] matches MakeAction::Build { jobs, .. } ==> jobs@.len() == 0,
{
    lemma_calm_run(ms, evs, acts, of_none(), of_all(), rank, k);
    assert(node_calm(ms[k].g, of_none(), of_all(), v));
    assert(quiet(ms[k].g, of_none(), of_all(), v));
    assert(step_at(ms, evs, acts, k - 1));
    if acts[k - 1] is Build {
        lemma_run_coherent(ms, evs, acts, k - 1);
        if ms[k].r.pending.len() > 0 {
            let j = ms[k].r.pending[0] as int;
            assert(ms[k].g.status[ms[k].r.pending[0] as int] == GNodeStatus::Running);
            assert(node_calm(ms[k].g, of_none(), of_all(), j));
            assert(quiet(ms[k].g, of_none(), of_all(), j));
        }
        let jobs = acts[k - 1]->Build_jobs;
        assert(crate::make::request_views(jobs@).len() == jobs@.len());
        assert(crate::make::requests_for(ms[k].g, ms[k].r.pending).len() == ms[k].r.pending.len());
    }
}

/// Change propagation, for the whole run: in a run that finds some roots
/// changed and every output as the previous run recorded it, and in which
/// every build leaves the recorded output again, once the roots are copied
/// a root that was found changed is `MountedChanged`; and a node that is
/// built is, after the build stage of its rank at the latest,
/// `BuildNotChanged` if one of its predecessors is a root that was found
/// changed, and `BuildNotRequired` if none is.
pub proof fn law_change_propagates(
    ms: Seq<Moment>,
    evs: Seq<MakeEvent>,
    acts: Seq<MakeAction>,
    changed: spec_fn(int) -> bool,
    rank: spec_fn(int) -> nat,
    k: int,
    v: int,
)
    requires
        is_run(ms, evs, acts),
        calm_run(ms, evs, changed, of_all()),
        4 <= k < ms.len(),
        ranked(ms[2].g, rank),
        0 <= v < ms[k].g.nodes.len(),
        ms[k].r.phase != MakePhase::Build,
    ensures
        ms[k].g.is_root(v) && changed(v) ==> ms[k].g.status[v] == GNodeStatus::MountedChanged,
        ms[k].g.is_root(v) && !changed(v) ==> ms[k].g.status[v] == GNodeStatus::MountedNotChanged,
        !ms[k].g.is_root(v) && rank(v) <= progress(ms[k].r) ==> ms[k].g.status[v] == if exists|j: int|
            0 <= j < ms[k].g.preds(v).len() && changed_root(
                ms[k].g,
                changed,
                #[trigger] ms[k].g.preds(v)[j] as int,
            ) {
            GNodeStatus::BuildNotChanged
        } else {
            GNodeStatus::BuildNotRequired
        },
{
    lemma_calm_run(ms, evs, acts, changed, of_all(), rank, k);
    assert(node_calm(ms[k].g, changed, of_all(), v));
}

/// Deletion recovery, for the whole run: in a run that finds no root
/// changed, and in which every build leaves the recorded output again, a
/// node that is built and whose output is missing or differs from what was
/// recorded is never `BuildNotRequired`: it is `Initial` until its build is
/// asked for, which is in the build stage of its rank at the latest, and
/// `BuildNotChanged` once its build was taken in. A node whose output is
/// the recorded one is `BuildNotRequired` by then.
pub proof fn law_deleted_output_is_rebuilt(
    ms: Seq<Moment>,
    evs: Seq<MakeEvent>,
    acts: Seq<MakeAction>,
    intact: spec_fn(int) -> bool,
    rank: spec_fn(int) -> nat,
    k: int,
    v: int,
)
    requires
        is_run(ms, evs, acts),
        calm_run(ms, evs, of_none(), intact),
        4 <= k < ms.len(),
        ranked(ms[2].g, rank),
        0 <= v < ms[k].g.nodes.len(),
        !ms[k].g.is_root(v),
    ensures
        !intact(v) ==> ms[k].g.status[v] == GNodeStatus::Initial || ms[k].g.status[v]
            == GNodeStatus::Running || ms[k].g.status[v] == GNodeStatus::BuildNotChanged,
        rank(v) <= progress(ms[k].r) && ms[k].r.phase != MakePhase::Build ==> ms[k].g.status[v]
            == if intact(v) {
            GNodeStatus::BuildNotRequired
        } else {
            GNodeStatus::BuildNotChanged
        },
{
    lemma_calm_run(ms, evs, acts, of_none(), intact, rank, k);
    assert(node_calm(ms[k].g, of_none(), intact, v));
    assert(quiet(ms[k].g, of_none(), intact, v) == intact(v));
}

} // verus!
