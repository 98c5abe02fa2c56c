//! What holds of the stages for every graph and every outcome.
use crate::digest::same_as_recorded;
use crate::expand::absorb;
use crate::expand::absorb_all;
use crate::expand::absorb_edge;
use crate::expand::absorb_edges;
use crate::expand::absorb_node;
use crate::expand::absorb_nodes;
use crate::expand::ExpandSpec;
use crate::make::accepts;
use crate::make::stepped;
use crate::make::MakeAction;
use crate::make::MakeEvent;
use crate::make::MakePhase;
use crate::make::RunSpec;
use crate::model::LinkSpec;
use crate::model::NodeSpec;
use crate::graph::linked;
use crate::model::GNodeStatus;
use crate::mount::assigned;
use crate::mount::mount_status;
use crate::mount::mount_statuses;
use crate::mount::MountSpec;
use crate::model::OutputSpec;
use crate::report::all_well;
use crate::report::is_graph_digest;
use crate::report::is_report;
use crate::report::listing;
use crate::report::node_paths;
use crate::scan::add_scanned;
use crate::scan::add_scanned_all;
use crate::scan::scanned_all;
use crate::scan::scanned_one;
use crate::scan::ScanSpec;
use crate::scan::ScannedSpec;
use crate::schedule::all_preds_success;
use crate::schedule::all_preds_unchanged;
use crate::schedule::built_status;
use crate::schedule::doomed;
use crate::schedule::downstream;
use crate::schedule::has_failed_pred;
use crate::schedule::job_failed;
use crate::schedule::planned;
use crate::schedule::route;
use crate::schedule::route_at;
use crate::schedule::routed_status;
use crate::schedule::settled;
use crate::schedule::BuildSpec;
use crate::schedule::FileSpec;
use crate::schedule::Route;
use crate::state::GraphState;
use crate::text::same_path;
use vstd::prelude::*;

verus! {

/// A root is classified as unchanged exactly when it was copied and the
/// digest of its source is the one that the previous run recorded for its
/// path; as failed exactly when it could not be copied.
pub proof fn law_mount_classes(o: MountSpec, previous: Seq<(Seq<char>, Seq<char>)>, path: Seq<char>)
    ensures
        mount_status(o, previous, path) == GNodeStatus::MountedNotChanged <==> o.copied
            && same_as_recorded(previous, path, o.digest),
        mount_status(o, previous, path) == GNodeStatus::MountedFailed <==> !o.copied,
        mount_status(o, previous, path) == GNodeStatus::MountedChanged <==> o.copied
            && !same_as_recorded(previous, path, o.digest),
{
}

/// A root whose source cannot be copied ends as `MountedFailed`, and the run
/// cannot go well any more.
pub proof fn law_missing_source_fails(
    pre: GraphState,
    post: GraphState,
    targets: Seq<usize>,
    outcomes: Seq<MountSpec>,
    previous: Seq<(Seq<char>, Seq<char>)>,
    k: int,
)
    requires
        pre.wf(),
        crate::mount::ascending(targets, pre.nodes.len()),
        outcomes.len() == targets.len(),
        assigned(pre, post, targets, mount_statuses(pre, targets, outcomes, previous)),
        0 <= k < targets.len(),
        !outcomes[k].copied,
    ensures
        post.status[targets[k] as int] == GNodeStatus::MountedFailed,
        !all_well(post),
{
    assert(mount_statuses(pre, targets, outcomes, previous)[k] == GNodeStatus::MountedFailed);
    assert(post.status[targets[k] as int].failed());
}

/// A node that is built and still open is lost as soon as one of its
/// predecessors has failed, whatever else holds of it.
pub proof fn law_failed_predecessor_decides(
    s: GraphState,
    i: int,
    digest: Option<Seq<char>>,
    previous: Seq<(Seq<char>, Seq<char>)>,
)
    requires
        0 <= i < s.status.len(),
        s.status[i].pending(),
        !s.is_root(i),
        has_failed_pred(s, i),
    ensures
        route(s, i, digest, previous) == Route::AncestorFailed,
        routed_status(s.status[i], route(s, i, digest, previous)) == GNodeStatus::AncestorFailed,
{
}

/// A node needs no build exactly when it is `Initial` and built, every
/// predecessor is settled and unchanged, and the file at its target path
/// has the digest that the previous run recorded.
pub proof fn law_no_build_required(
    s: GraphState,
    i: int,
    digest: Option<Seq<char>>,
    previous: Seq<(Seq<char>, Seq<char>)>,
)
    requires
        s.wf(),
        0 <= i < s.status.len(),
    ensures
        route(s, i, digest, previous) == Route::NotRequired <==> s.status[i] == GNodeStatus::Initial
            && !s.is_root(i) && all_preds_unchanged(s, i) && same_as_recorded(
            previous,
            s.nodes[i].path,
            digest,
        ),
{
    crate::graph::lemma_neighbors_in_range(s.edges, s.nodes.len(), i as nat, true);
    if all_preds_unchanged(s, i) {
        assert forall|k: int| 0 <= k < s.preds(i).len() implies s.status[#[trigger] s.preds(i)[k] as int].success() by {
            assert(s.status[s.preds(i)[k] as int].unchanged());
        }
        if has_failed_pred(s, i) {
            let k = choose|k: int|
                0 <= k < s.preds(i).len() && s.status[#[trigger] s.preds(i)[k] as int].failed();
            assert(s.status[s.preds(i)[k] as int].unchanged());
        }
    }
}

/// A node is built only if it is `Initial`, no root, and every predecessor
/// has been materialized or built.
pub proof fn law_built_only_when_ready(
    s: GraphState,
    i: int,
    digest: Option<Seq<char>>,
    previous: Seq<(Seq<char>, Seq<char>)>,
)
    requires
        route(s, i, digest, previous) == Route::Build,
    ensures
        s.status[i] == GNodeStatus::Initial,
        !s.is_root(i),
        all_preds_success(s, i),
        !has_failed_pred(s, i),
{
}

/// A build ends as unchanged exactly when the action succeeded, the output
/// is there, and its digest is the one that the previous run recorded; it
/// ends as failed exactly when the action failed or left no output.
pub proof fn law_build_classes(o: BuildSpec, previous: Seq<(Seq<char>, Seq<char>)>, path: Seq<char>)
    ensures
        built_status(o, previous, path) == GNodeStatus::BuildNotChanged <==> o.ok && o.exists
            && same_as_recorded(previous, path, o.digest),
        built_status(o, previous, path) == GNodeStatus::BuildFailed <==> !o.ok || !o.exists,
        built_status(o, previous, path) == GNodeStatus::BuildSuccess <==> o.ok && o.exists
            && !same_as_recorded(previous, path, o.digest),
{
}

/// When the build of a node fails, every node that depends on it, directly
/// or through other nodes, is `AncestorFailed` once the results are taken
/// in, and the run cannot go well any more.
pub proof fn law_failure_propagates(
    pre: GraphState,
    post: GraphState,
    jobs: Seq<usize>,
    outcomes: Seq<BuildSpec>,
    previous: Seq<(Seq<char>, Seq<char>)>,
    k: int,
    v: int,
)
    requires
        pre.wf(),
        crate::mount::ascending(jobs, pre.nodes.len()),
        outcomes.len() == jobs.len(),
        settled(pre, post, jobs, outcomes, previous),
        0 <= k < jobs.len(),
        job_failed(pre, jobs, outcomes, previous, k),
        0 <= v < pre.nodes.len(),
        downstream(pre.edges, jobs[k] as nat, v as nat),
    ensures
        post.status[v] == GNodeStatus::AncestorFailed,
        post.status[jobs[k] as int].failed(),
        !all_well(post),
{
    assert(doomed(pre, jobs, outcomes, previous, v));
    if !doomed(pre, jobs, outcomes, previous, jobs[k] as int) {
        assert(post.status[jobs[k] as int] == GNodeStatus::BuildFailed);
    }
}

/// The build stage touches nothing but the statuses of nodes that are
/// still open.
pub proof fn law_plan_frame(s: GraphState, files: Seq<FileSpec>, previous: Seq<(Seq<char>, Seq<char>)>)
    requires
        s.wf(),
    ensures
        planned(s, files, previous).same_shape(s),
        planned(s, files, previous).wf(),
        forall|v: int|
            0 <= v < s.status.len() && !s.status[v].pending() ==> #[trigger] planned(
                s,
                files,
                previous,
            ).status[v] == s.status[v],
{
}

/// A node that is built and open, with a predecessor that has failed, is
/// `AncestorFailed` after the build stage.
pub proof fn law_lost_in_one_pass(
    s: GraphState,
    files: Seq<FileSpec>,
    previous: Seq<(Seq<char>, Seq<char>)>,
    i: int,
)
    requires
        s.wf(),
        0 <= i < s.nodes.len(),
        s.status[i].pending(),
        !s.is_root(i),
        has_failed_pred(s, i),
    ensures
        route_at(s, files, previous, i) == Route::AncestorFailed,
        planned(s, files, previous).status[i] == GNodeStatus::AncestorFailed,
{
}

/// A node that is `Initial` and built, whose predecessors are all settled
/// and unchanged and whose file is the recorded one, is `BuildNotRequired`
/// after the build stage: where nothing has changed, nothing is built.
pub proof fn law_nothing_changed_nothing_built(
    s: GraphState,
    files: Seq<FileSpec>,
    previous: Seq<(Seq<char>, Seq<char>)>,
    i: int,
)
    requires
        s.wf(),
        0 <= i < s.nodes.len(),
        s.status[i] == GNodeStatus::Initial,
        !s.is_root(i),
        all_preds_unchanged(s, i),
        same_as_recorded(previous, s.nodes[i].path, files[i].digest),
    ensures
        route_at(s, files, previous, i) == Route::NotRequired,
        planned(s, files, previous).status[i] == GNodeStatus::BuildNotRequired,
{
    law_no_build_required(s, i, files[i].digest, previous);
}

/// A node that is being built after the build stage was `Initial` before,
/// is no root, and has only predecessors that have been materialized or
/// built.
pub proof fn law_running_means_ready(
    s: GraphState,
    files: Seq<FileSpec>,
    previous: Seq<(Seq<char>, Seq<char>)>,
    i: int,
)
    requires
        s.wf(),
        0 <= i < s.nodes.len(),
        s.status[i] != GNodeStatus::Running,
        planned(s, files, previous).status[i] == GNodeStatus::Running,
    ensures
        s.status[i] == GNodeStatus::Initial,
        !s.is_root(i),
        all_preds_success(s, i),
        all_preds_success(planned(s, files, previous), i),
{
    let p = planned(s, files, previous);
    assert(route_at(s, files, previous, i) == Route::Build);
    crate::graph::lemma_neighbors_in_range(s.edges, s.nodes.len(), i as nat, true);
    assert(p.preds(i) == s.preds(i));
    assert forall|m: int| 0 <= m < p.preds(i).len() implies p.status[#[trigger] p.preds(i)[m] as int].success() by {
        let q = s.preds(i)[m] as int;
        assert(s.status[q].success());
    }
}

/// The edges of the graph are still there after a path was reported, and so
/// are the nodes and their statuses.
pub proof fn lemma_scan_keeps(s: GraphState, i: int, paths: Seq<ScannedSpec>)
    ensures
        add_scanned_all(s, i, paths).nodes == s.nodes,
        add_scanned_all(s, i, paths).status == s.status,
        s.edges.is_prefix_of(add_scanned_all(s, i, paths).edges),
        add_scanned_all(s, i, paths).edges.len() <= s.edges.len() + paths.len(),
    decreases paths.len(),
{
    if paths.len() > 0 {
        lemma_scan_keeps(s, i, paths.drop_last());
    }
}

/// After a node has reported a path that is the target path of a node of
/// the graph, an edge leads from that node to the reporting node, provided
/// the graph has room for the edges.
pub proof fn law_scan_links(s: GraphState, i: int, o: ScanSpec, k: int)
    requires
        s.wf(),
        0 <= i < s.nodes.len(),
        0 <= k < o.paths.len(),
        s.holds(o.paths[k].path),
        s.edges.len() + o.paths.len() <= u32::MAX,
    ensures
        linked(scanned_one(s, i, o).edges, s.index_of(o.paths[k].path) as nat, i as nat),
        scanned_one(s, i, o).nodes == s.nodes,
{
    lemma_scan_links_upto(s, i, o.paths, k, o.paths.len() as int);
    lemma_scan_keeps(s, i, o.paths);
    assert(o.paths.take(o.paths.len() as int) =~= o.paths);
}

/// The edge to a reported path is there once the path was taken in, and
/// stays there while further paths are taken in.
proof fn lemma_scan_links_upto(s: GraphState, i: int, paths: Seq<ScannedSpec>, k: int, m: int)
    requires
        s.wf(),
        0 <= i < s.nodes.len(),
        0 <= k < m <= paths.len(),
        s.holds(paths[k].path),
        s.edges.len() + paths.len() <= u32::MAX,
    ensures
        linked(
            add_scanned_all(s, i, paths.take(m)).edges,
            s.index_of(paths[k].path) as nat,
            i as nat,
        ),
    decreases m,
{
    let f = s.index_of(paths[k].path) as nat;
    let before = add_scanned_all(s, i, paths.take(m - 1));
    let after = add_scanned_all(s, i, paths.take(m));
    assert(paths.take(m).drop_last() =~= paths.take(m - 1));
    assert(paths.take(m).last() == paths[m - 1]);
    assert(after == add_scanned(before, i, paths[m - 1].path));
    lemma_scan_keeps(s, i, paths.take(m - 1));
    assert(before.holds(paths[k].path) == s.holds(paths[k].path));
    assert(before.index_of(paths[k].path) == s.index_of(paths[k].path));
    if m - 1 == k {
        if !linked(before.edges, f, i as nat) {
            assert(after.edges[after.edges.len() - 1] == (f, i as nat));
        }
    } else {
        lemma_scan_links_upto(s, i, paths, k, m - 1);
        let e = choose|e: int| 0 <= e < before.edges.len() && #[trigger] before.edges[e] == (f, i as nat);
        assert(after.edges[e] == (f, i as nat));
    }
}

/// The graph has taken in all it can of a proposal: every proposed node is
/// there or the graph is full, and every proposed edge between nodes of the
/// graph is there or the graph is full.
pub open spec fn at_rest(w: GraphState, r: ExpandSpec) -> bool {
    &&& forall|k: int|
        0 <= k < r.nodes.len() ==> w.holds((#[trigger] r.nodes[k]).path) || w.nodes.len()
            >= u32::MAX
    &&& forall|k: int|
        0 <= k < r.edges.len() ==> edge_at_rest(w, #[trigger] r.edges[k])
}

/// The graph has taken in all it can of a proposed edge.
pub open spec fn edge_at_rest(w: GraphState, e: LinkSpec) -> bool {
    !(w.holds(e.from) && w.holds(e.to)) || linked(
        w.edges,
        w.index_of(e.from) as nat,
        w.index_of(e.to) as nat,
    ) || w.edges.len() >= u32::MAX
}

/// Proposed nodes that are all there already change nothing.
proof fn lemma_nodes_at_rest(w: GraphState, nodes: Seq<NodeSpec>)
    requires
        forall|k: int|
            0 <= k < nodes.len() ==> w.holds((#[trigger] nodes[k]).path) || w.nodes.len()
                >= u32::MAX,
    ensures
        absorb_nodes(w, nodes) == w,
    decreases nodes.len(),
{
    if nodes.len() > 0 {
        let rest = nodes.drop_last();
        assert forall|k: int| 0 <= k < rest.len() implies w.holds((#[trigger] rest[k]).path)
            || w.nodes.len() >= u32::MAX by {
            assert(rest[k] == nodes[k]);
        }
        lemma_nodes_at_rest(w, rest);
        assert(nodes.last() == nodes[nodes.len() - 1]);
    }
}

/// Proposed edges that are all there already change nothing.
proof fn lemma_edges_at_rest(w: GraphState, edges: Seq<LinkSpec>)
    requires
        forall|k: int| 0 <= k < edges.len() ==> edge_at_rest(w, #[trigger] edges[k]),
    ensures
        absorb_edges(w, edges) == w,
    decreases edges.len(),
{
    if edges.len() > 0 {
        let rest = edges.drop_last();
        assert forall|k: int| 0 <= k < rest.len() implies edge_at_rest(w, #[trigger] rest[k]) by {
            assert(rest[k] == edges[k]);
        }
        lemma_edges_at_rest(w, rest);
        assert(edge_at_rest(w, edges[edges.len() - 1]));
    }
}

/// A node that is there stays there when a node is added.
proof fn lemma_holds_grows(a: GraphState, b: GraphState, path: Seq<char>)
    requires
        a.nodes.is_prefix_of(b.nodes),
        a.holds(path),
    ensures
        b.holds(path),
{
    let i = choose|i: int| 0 <= i < a.nodes.len() && same_path((#[trigger] a.nodes[i]).path, path);
    assert(b.nodes[i] == a.nodes[i]);
}

/// An edge that is there stays there when an edge is added.
proof fn lemma_linked_grows(a: Seq<(nat, nat)>, b: Seq<(nat, nat)>, f: nat, t: nat)
    requires
        a.is_prefix_of(b),
        linked(a, f, t),
    ensures
        linked(b, f, t),
{
    let i = choose|i: int| 0 <= i < a.len() && #[trigger] a[i] == (f, t);
    assert(b[i] == (f, t));
}

/// What taking in proposed nodes does to the graph: the edges stay, the
/// nodes that were there stay, and each proposed node is there afterwards
/// unless the graph is full.
proof fn lemma_absorb_nodes_effect(s: GraphState, nodes: Seq<NodeSpec>)
    ensures
        absorb_nodes(s, nodes).edges == s.edges,
        absorb_nodes(s, nodes).kinds == s.kinds,
        s.nodes.is_prefix_of(absorb_nodes(s, nodes).nodes),
        forall|k: int|
            0 <= k < nodes.len() ==> absorb_nodes(s, nodes).holds((#[trigger] nodes[k]).path)
                || absorb_nodes(s, nodes).nodes.len() >= u32::MAX,
    decreases nodes.len(),
{
    if nodes.len() > 0 {
        let rest = nodes.drop_last();
        lemma_absorb_nodes_effect(s, rest);
        let before = absorb_nodes(s, rest);
        let after = absorb_nodes(s, nodes);
        assert(after == absorb_node(before, nodes.last()));
        assert(before.nodes.is_prefix_of(after.nodes));
        assert forall|k: int| 0 <= k < nodes.len() implies after.holds(
            (#[trigger] nodes[k]).path,
        ) || after.nodes.len() >= u32::MAX by {
            if k < rest.len() {
                assert(rest[k] == nodes[k]);
                if before.holds(nodes[k].path) {
                    lemma_holds_grows(before, after, nodes[k].path);
                }
            } else {
                assert(nodes[k] == nodes.last());
                if before.holds(nodes[k].path) {
                    lemma_holds_grows(before, after, nodes[k].path);
                } else if before.nodes.len() < u32::MAX {
                    assert(same_path(after.nodes[after.nodes.len() - 1].path, nodes[k].path));
                }
            }
        }
    }
}

/// What taking in proposed edges does to the graph: the nodes stay, the
/// edges that were there stay, and each proposed edge between nodes of the
/// graph is there afterwards unless the graph is full.
proof fn lemma_absorb_edges_effect(t: GraphState, edges: Seq<LinkSpec>)
    ensures
        absorb_edges(t, edges).nodes == t.nodes,
        t.edges.is_prefix_of(absorb_edges(t, edges).edges),
        forall|k: int|
            0 <= k < edges.len() ==> edge_at_rest(absorb_edges(t, edges), #[trigger] edges[k]),
    decreases edges.len(),
{
    if edges.len() > 0 {
        let rest = edges.drop_last();
        lemma_absorb_edges_effect(t, rest);
        let before = absorb_edges(t, rest);
        let after = absorb_edges(t, edges);
        let e = edges.last();
        assert(after == absorb_edge(before, e));
        assert(after.nodes == before.nodes);
        assert(before.edges.is_prefix_of(after.edges));
        assert forall|k: int| 0 <= k < edges.len() implies edge_at_rest(
            after,
            #[trigger] edges[k],
        ) by {
            let x = edges[k];
            if after.holds(x.from) && after.holds(x.to) && after.edges.len() < u32::MAX {
                let f = after.index_of(x.from) as nat;
                let to = after.index_of(x.to) as nat;
                assert(before.index_of(x.from) == after.index_of(x.from));
                assert(before.index_of(x.to) == after.index_of(x.to));
                if k < rest.len() {
                    assert(rest[k] == x);
                    assert(edge_at_rest(before, x));
                    lemma_linked_grows(before.edges, after.edges, f, to);
                } else {
                    assert(x == e);
                    if linked(before.edges, f, to) {
                        lemma_linked_grows(before.edges, after.edges, f, to);
                    } else {
                        assert(after.edges[after.edges.len() - 1] == (f, to));
                    }
                }
            }
        }
    }
}

/// A proposal that is taken in a second time changes nothing: a node may
/// propose the same nodes and edges in every pass.
pub proof fn law_expand_idempotent(s: GraphState, r: ExpandSpec)
    ensures
        at_rest(absorb(s, r), r),
        absorb(absorb(s, r), r) == absorb(s, r),
{
    let t = absorb_nodes(s, r.nodes);
    let u = absorb_edges(t, r.edges);
    lemma_absorb_nodes_effect(s, r.nodes);
    lemma_absorb_edges_effect(t, r.edges);
    assert forall|k: int| 0 <= k < r.nodes.len() implies u.holds((#[trigger] r.nodes[k]).path)
        || u.nodes.len() >= u32::MAX by {
        if t.holds(r.nodes[k].path) {
            lemma_holds_grows(t, u, r.nodes[k].path);
        }
    }
    lemma_nodes_at_rest(u, r.nodes);
    lemma_edges_at_rest(u, r.edges);
}

/// Nothing has changed since the previous run: every root was found
/// unchanged, and at the target path of every other node is the file that
/// the previous run recorded.
pub open spec fn nothing_changed(
    s: GraphState,
    files: Seq<FileSpec>,
    previous: Seq<(Seq<char>, Seq<char>)>,
) -> bool {
    forall|v: int|
        0 <= v < s.nodes.len() ==> if s.is_root(v) {
            #[trigger] s.status[v] == GNodeStatus::MountedNotChanged
        } else {
            s.status[v] == GNodeStatus::Initial && same_as_recorded(
                previous,
                s.nodes[v].path,
                files[v].digest,
            )
        }
}

/// Every node has a higher rank than the nodes it depends on: no node
/// depends on itself, directly or through other nodes.
pub open spec fn ranked(s: GraphState, rank: spec_fn(int) -> nat) -> bool {
    forall|e: int|
        0 <= e < s.edges.len() ==> rank((#[trigger] s.edges[e]).0 as int) < rank(s.edges[e].1 as int)
}

/// The status of node `v` at the end of a run that finds nothing changed.
pub open spec fn idle_status(s: GraphState, v: int) -> GNodeStatus {
    if s.is_root(v) {
        GNodeStatus::MountedNotChanged
    } else {
        GNodeStatus::BuildNotRequired
    }
}

/// The graph after `k` build stages in a row.
pub open spec fn plan_passes(
    s: GraphState,
    files: Seq<FileSpec>,
    previous: Seq<(Seq<char>, Seq<char>)>,
    k: nat,
) -> GraphState
    decreases k,
{
    if k == 0 {
        s
    } else {
        planned(plan_passes(s, files, previous, (k - 1) as nat), files, previous)
    }
}

/// While nothing has changed, build stages only ever settle nodes without a
/// build, and after `k` stages every node of rank up to `k` is settled.
proof fn lemma_idle_passes(
    s: GraphState,
    files: Seq<FileSpec>,
    previous: Seq<(Seq<char>, Seq<char>)>,
    rank: spec_fn(int) -> nat,
    k: nat,
)
    requires
        s.wf(),
        files.len() == s.nodes.len(),
        nothing_changed(s, files, previous),
        ranked(s, rank),
    ensures
        plan_passes(s, files, previous, k).same_shape(s),
        forall|v: int|
            0 <= v < s.nodes.len() ==> (#[trigger] plan_passes(s, files, previous, k).status[v]
                == idle_status(s, v) || (!s.is_root(v) && plan_passes(
                s,
                files,
                previous,
                k,
            ).status[v] == GNodeStatus::Initial)),
        forall|v: int|
            0 <= v < s.nodes.len() && rank(v) <= k ==> #[trigger] plan_passes(
                s,
                files,
                previous,
                k,
            ).status[v] == idle_status(s, v),
    decreases k,
{
    let n = s.nodes.len();
    if k == 0 {
        assert forall|v: int| 0 <= v < n implies (#[trigger] s.status[v] == idle_status(s, v) || (
        !s.is_root(v) && s.status[v] == GNodeStatus::Initial)) by {}
        assert forall|v: int| 0 <= v < n && rank(v) <= 0 implies #[trigger] s.status[v]
            == idle_status(s, v) by {
            if !s.is_root(v) {
                lemma_built_node_has_predecessor(s, v);
                let e = choose|e: int| 0 <= e < s.edges.len() && (#[trigger] s.edges[e]).1 == v as nat;
                assert(rank(s.edges[e].0 as int) < rank(s.edges[e].1 as int));
            }
        }
    } else {
        lemma_idle_passes(s, files, previous, rank, (k - 1) as nat);
        let t = plan_passes(s, files, previous, (k - 1) as nat);
        let u = plan_passes(s, files, previous, k);
        assert(u == planned(t, files, previous));
        assert forall|v: int| 0 <= v < n implies (#[trigger] u.status[v] == idle_status(s, v) || (
        !s.is_root(v) && u.status[v] == GNodeStatus::Initial)) && (rank(v) <= k ==> u.status[v]
            == idle_status(s, v)) by {
            assert(t.is_root(v) == s.is_root(v));
            assert(t.preds(v) == s.preds(v));
            assert(t.status[v] == idle_status(s, v) || (!s.is_root(v) && t.status[v]
                == GNodeStatus::Initial));
            if t.status[v] == GNodeStatus::Initial {
                // the node is built and still open
                assert(!s.is_root(v));
                assert(s.status[v] == GNodeStatus::Initial);
                assert(same_as_recorded(previous, t.nodes[v].path, files[v].digest));
                crate::graph::lemma_neighbors_in_range(s.edges, n, v as nat, true);
                crate::graph::lemma_neighbors_linked(s.edges, v as nat, true);
                assert forall|m: int| 0 <= m < t.preds(v).len() implies !t.status[#[trigger] t.preds(
                    v,
                )[m] as int].failed() by {
                    let q = t.preds(v)[m] as int;
                    assert(t.status[q] == idle_status(s, q) || (!s.is_root(q) && t.status[q]
                        == GNodeStatus::Initial));
                }
                assert(!has_failed_pred(t, v));
                if all_preds_success(t, v) {
                    assert forall|m: int| 0 <= m < t.preds(v).len() implies t.status[#[trigger] t.preds(
                        v,
                    )[m] as int].unchanged() by {
                        let q = t.preds(v)[m] as int;
                        assert(t.status[q].success());
                        assert(t.status[q] == idle_status(s, q) || (!s.is_root(q) && t.status[q]
                            == GNodeStatus::Initial));
                    }
                    assert(route_at(t, files, previous, v) == Route::NotRequired);
                } else {
                    assert(route_at(t, files, previous, v) == Route::Leave);
                }
                if rank(v) <= k {
                    assert forall|m: int| 0 <= m < t.preds(v).len() implies t.status[#[trigger] t.preds(
                        v,
                    )[m] as int].success() by {
                        let b = s.preds(v)[m];
                        assert(s.preds(v).contains(b));
                        assert(linked(s.edges, b, v as nat));
                        let e = choose|e: int|
                            0 <= e < s.edges.len() && #[trigger] s.edges[e] == (b, v as nat);
                        assert(rank(s.edges[e].0 as int) < rank(s.edges[e].1 as int));
                        assert(t.status[b as int] == idle_status(s, b as int));
                    }
                    assert(all_preds_success(t, v));
                }
            } else {
                assert(route_at(t, files, previous, v) == Route::Leave);
            }
        }
    }
}

/// A node that is built depends on some node.
pub proof fn lemma_built_node_has_predecessor(s: GraphState, v: int)
    requires
        s.wf(),
        0 <= v < s.nodes.len(),
        !s.is_root(v),
    ensures
        exists|e: int| 0 <= e < s.edges.len() && (#[trigger] s.edges[e]).1 == v as nat,
{
    match s.root_rule {
        crate::model::RootRule::NoIncoming => {
            crate::graph::lemma_neighbors_empty(s.edges, v as nat, true);
        },
        crate::model::RootRule::NoExplicitIncoming => {
            let e = choose|e: int|
                0 <= e < s.edges.len() && s.edges[e].1 == v as nat && #[trigger] s.kinds[e]
                    == crate::model::EdgeType::Explicit;
            assert(s.edges[e].1 == v as nat);
        },
    }
}

/// A run that finds nothing changed settles without a build: in a graph in
/// which no node depends on itself, once the roots were all found unchanged
/// and the file of every other node is the recorded one, build stage after
/// build stage never asks for a build, and every node of rank up to `k` has
/// its final status after `k` of them: `MountedNotChanged` if it is a root,
/// `BuildNotRequired` if it is built.
pub proof fn law_idle_run(
    s: GraphState,
    files: Seq<FileSpec>,
    previous: Seq<(Seq<char>, Seq<char>)>,
    rank: spec_fn(int) -> nat,
    k: nat,
    i: int,
)
    requires
        s.wf(),
        files.len() == s.nodes.len(),
        nothing_changed(s, files, previous),
        ranked(s, rank),
        0 <= i < s.nodes.len(),
    ensures
        plan_passes(s, files, previous, k).status[i] != GNodeStatus::Running,
        rank(i) <= k ==> plan_passes(s, files, previous, k).status[i] == idle_status(s, i),
{
    lemma_idle_passes(s, files, previous, rank, k);
}

/// The index of a node that the graph holds is that of a node with the
/// given path.
pub proof fn lemma_index_of(s: GraphState, path: Seq<char>)
    requires
        s.holds(path),
    ensures
        0 <= s.index_of(path) < s.nodes.len(),
        same_path(s.nodes[s.index_of(path)].path, path),
{
}

/// Taking in a proposed node keeps the graph well formed.
pub proof fn law_absorb_node_keeps_wf(s: GraphState, n: NodeSpec)
    requires
        s.wf(),
    ensures
        absorb_node(s, n).wf(),
{
    let t = absorb_node(s, n);
    if !(s.holds(n.path) || s.nodes.len() >= u32::MAX) {
        assert forall|i: int, j: int| 0 <= i < j < t.nodes.len() implies !same_path(
            (#[trigger] t.nodes[i]).path,
            (#[trigger] t.nodes[j]).path,
        ) by {
            if j == s.nodes.len() {
                assert(!same_path(s.nodes[i].path, n.path));
            } else {
                assert(!same_path(s.nodes[i].path, s.nodes[j].path));
            }
        }
        assert forall|e: int| 0 <= e < t.edges.len() implies (#[trigger] t.edges[e]).0
            < t.nodes.len() && t.edges[e].1 < t.nodes.len() by {
            assert(s.edges[e].0 < s.nodes.len());
        }
    }
}

/// Taking in a proposed edge keeps the graph well formed.
pub proof fn law_absorb_edge_keeps_wf(s: GraphState, e: LinkSpec)
    requires
        s.wf(),
    ensures
        absorb_edge(s, e).wf(),
{
    let t = absorb_edge(s, e);
    if s.holds(e.from) && s.holds(e.to) {
        lemma_index_of(s, e.from);
        lemma_index_of(s, e.to);
        assert forall|k: int| 0 <= k < t.edges.len() implies (#[trigger] t.edges[k]).0
            < t.nodes.len() && t.edges[k].1 < t.nodes.len() by {
            if k < s.edges.len() {
                assert(s.edges[k].0 < s.nodes.len());
            }
        }
    }
}

/// Taking in proposals keeps the graph well formed: whatever the nodes
/// propose, every node has a status, every edge joins two nodes, and no two
/// nodes share a target path.
pub proof fn law_expand_keeps_wf(s: GraphState, results: Seq<ExpandSpec>)
    requires
        s.wf(),
    ensures
        absorb_all(s, results).wf(),
    decreases results.len(),
{
    if results.len() > 0 {
        law_expand_keeps_wf(s, results.drop_last());
        let t = absorb_all(s, results.drop_last());
        let r = results.last();
        lemma_absorb_nodes_keep_wf(t, r.nodes);
        lemma_absorb_edges_keep_wf(absorb_nodes(t, r.nodes), r.edges);
    }
}

/// Taking in proposed nodes keeps the graph well formed.
pub proof fn lemma_absorb_nodes_keep_wf(s: GraphState, nodes: Seq<NodeSpec>)
    requires
        s.wf(),
    ensures
        absorb_nodes(s, nodes).wf(),
    decreases nodes.len(),
{
    if nodes.len() > 0 {
        lemma_absorb_nodes_keep_wf(s, nodes.drop_last());
        law_absorb_node_keeps_wf(absorb_nodes(s, nodes.drop_last()), nodes.last());
    }
}

/// Taking in proposed edges keeps the graph well formed.
pub proof fn lemma_absorb_edges_keep_wf(s: GraphState, edges: Seq<LinkSpec>)
    requires
        s.wf(),
    ensures
        absorb_edges(s, edges).wf(),
    decreases edges.len(),
{
    if edges.len() > 0 {
        lemma_absorb_edges_keep_wf(s, edges.drop_last());
        law_absorb_edge_keeps_wf(absorb_edges(s, edges.drop_last()), edges.last());
    }
}

/// Taking in the report of a node keeps the graph well formed.
pub proof fn law_scan_keeps_wf(s: GraphState, i: int, o: ScanSpec)
    requires
        s.wf(),
        0 <= i < s.nodes.len(),
    ensures
        scanned_one(s, i, o).wf(),
        scanned_one(s, i, o).nodes == s.nodes,
{
    lemma_scan_paths_keep_wf(s, i, o.paths);
    lemma_scan_keeps(s, i, o.paths);
}

/// Taking in reported paths keeps the graph well formed.
proof fn lemma_scan_paths_keep_wf(s: GraphState, i: int, paths: Seq<ScannedSpec>)
    requires
        s.wf(),
        0 <= i < s.nodes.len(),
    ensures
        add_scanned_all(s, i, paths).wf(),
    decreases paths.len(),
{
    if paths.len() > 0 {
        lemma_scan_paths_keep_wf(s, i, paths.drop_last());
        lemma_scan_keeps(s, i, paths.drop_last());
        let t = add_scanned_all(s, i, paths.drop_last());
        let p = paths.last().path;
        let u = add_scanned(t, i, p);
        if t.holds(p) {
            lemma_index_of(t, p);
            assert forall|k: int| 0 <= k < u.edges.len() implies (#[trigger] u.edges[k]).0
                < u.nodes.len() && u.edges[k].1 < u.nodes.len() by {
                if k < t.edges.len() {
                    assert(t.edges[k].0 < t.nodes.len());
                }
            }
        }
    }
}

/// Taking in the reports of the nodes keeps the graph well formed.
pub proof fn law_scans_keep_wf(s: GraphState, targets: Seq<usize>, outcomes: Seq<ScanSpec>)
    requires
        s.wf(),
        crate::mount::ascending(targets, s.nodes.len()),
        outcomes.len() == targets.len(),
    ensures
        scanned_all(s, targets, outcomes).wf(),
        scanned_all(s, targets, outcomes).nodes == s.nodes,
    decreases targets.len(),
{
    if targets.len() > 0 {
        let rest = targets.drop_last();
        assert(crate::mount::ascending(rest, s.nodes.len())) by {
            assert forall|k: int| 0 <= k < rest.len() implies (#[trigger] rest[k]) < s.nodes.len() by {
                assert(rest[k] == targets[k]);
            }
            assert forall|j: int, k: int| 0 <= j < k < rest.len() implies rest[j] < rest[k] by {
                assert(rest[j] == targets[j] && rest[k] == targets[k]);
            }
        }
        law_scans_keep_wf(s, rest, outcomes.drop_last());
        assert(targets.last() == targets[targets.len() - 1]);
        law_scan_keeps_wf(
            scanned_all(s, rest, outcomes.drop_last()),
            targets.last() as int,
            outcomes.last(),
        );
    }
}

/// A well-formed graph has one listing of its nodes by path.
pub proof fn law_one_listing(s: GraphState, a: Seq<usize>, b: Seq<usize>)
    requires
        s.wf(),
        listing(s, a),
        listing(s, b),
    ensures
        a == b,
{
    let paths = node_paths(s);
    assert forall|i: int, j: int| 0 <= i < j < paths.len() implies !same_path(
        #[trigger] paths[i],
        #[trigger] paths[j],
    ) by {
        assert(!same_path(s.nodes[i].path, s.nodes[j].path));
    }
    crate::text::law_order_is_unique(a, b, paths);
}

/// What is in the sandbox and the statuses of the nodes determine the
/// whole-graph digest.
pub proof fn law_one_graph_digest(s: GraphState, files: Seq<FileSpec>, d1: Seq<char>, d2: Seq<char>)
    requires
        s.wf(),
        is_graph_digest(s, files, d1),
        is_graph_digest(s, files, d2),
    ensures
        d1 == d2,
{
    let a = choose|order: Seq<usize>| #[trigger]
        listing(s, order) && d1 == crate::digest::digest_text(
            vstd::utf8::encode_utf8(crate::report::summary(s, files, order)),
        );
    let b = choose|order: Seq<usize>| #[trigger]
        listing(s, order) && d2 == crate::digest::digest_text(
            vstd::utf8::encode_utf8(crate::report::summary(s, files, order)),
        );
    law_one_listing(s, a, b);
}

/// The graph and what is in the sandbox determine the report.
pub proof fn law_one_report(s: GraphState, files: Seq<FileSpec>, r1: Seq<OutputSpec>, r2: Seq<OutputSpec>)
    requires
        s.wf(),
        is_report(s, files, r1),
        is_report(s, files, r2),
    ensures
        r1 == r2,
{
    let a = choose|order: Seq<usize>| #[trigger]
        listing(s, order) && r1.len() == order.len() && forall|k: int|
            0 <= k < order.len() ==> #[trigger] r1[k] == crate::report::record(
                s,
                files,
                order[k] as int,
            );
    let b = choose|order: Seq<usize>| #[trigger]
        listing(s, order) && r2.len() == order.len() && forall|k: int|
            0 <= k < order.len() ==> #[trigger] r2[k] == crate::report::record(
                s,
                files,
                order[k] as int,
            );
    law_one_listing(s, a, b);
    assert(r1 =~= r2);
}

/// An upper bound on the events that a run still takes in before it is
/// over.
pub open spec fn steps_left(r: RunSpec) -> nat {
    let rounds = if r.passes <= r.limit {
        (r.limit - r.passes) as nat
    } else {
        0nat
    };
    6 * rounds + match r.phase {
        MakePhase::Idle => 9nat,
        MakePhase::Report => 8nat,
        MakePhase::Baseline => 7nat,
        MakePhase::Mount => 6nat,
        MakePhase::Expand => 5nat,
        MakePhase::Scan => 4nat,
        MakePhase::Probe => 3nat,
        MakePhase::Build => 2nat,
        MakePhase::Settle => 1nat,
        MakePhase::Done => 0nat,
    }
}

/// Every event that a run takes in brings it closer to its end: a run that
/// may have `limit` passes beyond the first is over after at most
/// `6 * limit + 8` events behind `Start`, whatever the events bring.
pub proof fn law_run_ends(
    g0: GraphState,
    r0: RunSpec,
    event: MakeEvent,
    g1: GraphState,
    r1: RunSpec,
    action: MakeAction,
)
    requires
        stepped(g0, r0, event, g1, r1, action),
        accepts(g0, r0, event),
        r0.passes <= r0.limit,
    ensures
        r1.passes <= r1.limit,
        r1.limit == r0.limit,
        event is Start ==> steps_left(r1) == 6 * r0.limit + 8,
        !(event is Start) ==> steps_left(r1) < steps_left(r0),
        r1.phase == MakePhase::Done <==> action is Finish,
{
    match event {
        MakeEvent::Snapshot(files) => {
            if r0.phase == MakePhase::Settle {
                let d = choose|d: Seq<char>| #[trigger]
                    is_graph_digest(g0, crate::schedule::file_views(files@), d) && if d
                        == r0.baseline || r0.passes >= r0.limit {
                        &&& r1.phase == MakePhase::Done
                        &&& r1.passes == r0.passes
                        &&& action matches MakeAction::Finish { report, success }
                        &&& is_report(g0, crate::schedule::file_views(files@), report@)
                        &&& success == (d == r0.baseline && all_well(g0))
                    } else {
                        &&& r1.baseline == d
                        &&& r1.passes == r0.passes + 1
                        &&& crate::make::pass_begins(g1, r1, action)
                    };
            }
        },
        _ => {},
    }
}

} // verus!
