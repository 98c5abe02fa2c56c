//! The build stage: which nodes are ready, which need no build, which are
//! lost because something before them failed, and what becomes of a node
//! once its build has run.
//!
//! The builds themselves run elsewhere, all those of one pass side by side.
//! The graph is only touched before they start and after they have all
//! ended.
use crate::digest::same_as_recorded;
use crate::digest::DigestTable;
use crate::graph::lemma_neighbors_linked;
use crate::graph::linked;
use crate::graph::reached_from;
use crate::graph::reaches;
use crate::model::text_of;
use crate::model::GNodeStatus;
use crate::mount::ascending;
use crate::mount::lists;
use crate::state::GraphState;
use crate::state::G;
use vstd::prelude::*;

verus! {

/// What is at a node's target path in the sandbox.
#[derive(Debug, Clone)]
pub struct FileState {
    /// The digest of the file, or `None` if there is no file to read.
    pub digest: Option<String>,
    /// The canonical absolute path of the file, if there is one.
    pub absolute_path: Option<String>,
}

/// What a `FileState` stands for.
pub struct FileSpec {
    pub digest: Option<Seq<char>>,
    pub absolute_path: Option<Seq<char>>,
}

impl View for FileState {
    type V = FileSpec;

    open spec fn view(&self) -> FileSpec {
        FileSpec { digest: text_of(self.digest), absolute_path: text_of(self.absolute_path) }
    }
}

/// The views of a list of file states.
pub open spec fn file_views(v: Seq<FileState>) -> Seq<FileSpec> {
    Seq::new(v.len(), |i: int| v[i]@)
}

/// What became of building one node.
#[derive(Debug, Clone)]
pub struct BuildOutcome {
    /// The build action reported success.
    pub ok: bool,
    /// The output file is there after the build.
    pub exists: bool,
    /// The digest of the output file, if it could be read.
    pub digest: Option<String>,
}

/// What a `BuildOutcome` stands for.
pub struct BuildSpec {
    pub ok: bool,
    pub exists: bool,
    pub digest: Option<Seq<char>>,
}

impl View for BuildOutcome {
    type V = BuildSpec;

    open spec fn view(&self) -> BuildSpec {
        BuildSpec { ok: self.ok, exists: self.exists, digest: text_of(self.digest) }
    }
}

/// The views of a list of build outcomes.
pub open spec fn build_views(v: Seq<BuildOutcome>) -> Seq<BuildSpec> {
    Seq::new(v.len(), |i: int| v[i]@)
}

/// Where the build stage sends a node.
#[derive(Debug, Clone, Copy, PartialEq, Eq, Structural)]
pub enum Route {
    /// Nothing to do for now.
    Leave,
    /// A predecessor failed: the node is lost without a build.
    AncestorFailed,
    /// Nothing before it changed and its output is the recorded one.
    NotRequired,
    /// The node is built in this pass.
    Build,
}

/// Some predecessor of node `i` failed.
pub open spec fn has_failed_pred(s: GraphState, i: int) -> bool {
    exists|k: int| 0 <= k < s.preds(i).len() && s.status[#[trigger] s.preds(i)[k] as int].failed()
}

/// Every predecessor of node `i` has been materialized or built.
pub open spec fn all_preds_success(s: GraphState, i: int) -> bool {
    forall|k: int| 0 <= k < s.preds(i).len() ==> s.status[#[trigger] s.preds(i)[k] as int].success()
}

/// No predecessor of node `i` differs from the previous run.
pub open spec fn all_preds_unchanged(s: GraphState, i: int) -> bool {
    forall|k: int|
        0 <= k < s.preds(i).len() ==> s.status[#[trigger] s.preds(i)[k] as int].unchanged()
}

/// Where node `i` goes, given the digest of the file now at its target path.
///
/// Only nodes that are built and still open are considered. A failed
/// predecessor decides at once. Otherwise a node has to be `Initial` and all
/// its predecessors have to be settled; it then needs no build if none of
/// them changed and its own output is the recorded one, and is built if not.
pub open spec fn route(
    s: GraphState,
    i: int,
    digest: Option<Seq<char>>,
    previous: Seq<(Seq<char>, Seq<char>)>,
) -> Route {
    if !s.status[i].pending() || s.is_root(i) {
        Route::Leave
    } else if has_failed_pred(s, i) {
        Route::AncestorFailed
    } else if s.status[i] != GNodeStatus::Initial || !all_preds_success(s, i) {
        Route::Leave
    } else if all_preds_unchanged(s, i) && same_as_recorded(previous, s.nodes[i].path, digest) {
        Route::NotRequired
    } else {
        Route::Build
    }
}

/// The status of a node once it was sent where it goes.
pub open spec fn routed_status(st: GNodeStatus, r: Route) -> GNodeStatus {
    match r {
        Route::Leave => st,
        Route::AncestorFailed => GNodeStatus::AncestorFailed,
        Route::NotRequired => GNodeStatus::BuildNotRequired,
        Route::Build => GNodeStatus::Running,
    }
}

/// Where node `i` goes, given what is in the sandbox.
pub open spec fn route_at(
    s: GraphState,
    files: Seq<FileSpec>,
    previous: Seq<(Seq<char>, Seq<char>)>,
    i: int,
) -> Route {
    route(s, i, files[i].digest, previous)
}

/// The graph after the build stage has sent every node where it goes. All
/// nodes are judged by the graph as the stage finds it: what the stage
/// decides for one node does not bear on what it decides for another.
pub open spec fn planned(
    s: GraphState,
    files: Seq<FileSpec>,
    previous: Seq<(Seq<char>, Seq<char>)>,
) -> GraphState {
    GraphState {
        status: Seq::new(
            s.status.len(),
            |i: int| routed_status(s.status[i], route_at(s, files, previous, i)),
        ),
        ..s
    }
}

/// The status of a node after its build: a failure if the action failed or
/// left no output; else unchanged if the output's digest is the recorded
/// one, and a success if not.
pub open spec fn built_status(
    o: BuildSpec,
    previous: Seq<(Seq<char>, Seq<char>)>,
    path: Seq<char>,
) -> GNodeStatus {
    if !o.ok || !o.exists {
        GNodeStatus::BuildFailed
    } else if same_as_recorded(previous, path, o.digest) {
        GNodeStatus::BuildNotChanged
    } else {
        GNodeStatus::BuildSuccess
    }
}

/// `v` depends on `f`, directly or through other nodes.
pub open spec fn downstream(edges: Seq<(nat, nat)>, f: nat, v: nat) -> bool {
    exists|w: nat| #[trigger] linked(edges, f, w) && reaches(edges, w, v, false)
}

/// The build of the `k`-th job failed.
pub open spec fn job_failed(
    s: GraphState,
    jobs: Seq<usize>,
    outcomes: Seq<BuildSpec>,
    previous: Seq<(Seq<char>, Seq<char>)>,
    k: int,
) -> bool {
    built_status(outcomes[k], previous, s.nodes[jobs[k] as int].path) == GNodeStatus::BuildFailed
}

/// `w` depends directly on one of the first `k` jobs, and that job failed.
pub open spec fn next_to_failed(
    s: GraphState,
    jobs: Seq<usize>,
    outcomes: Seq<BuildSpec>,
    previous: Seq<(Seq<char>, Seq<char>)>,
    k: int,
    w: nat,
) -> bool {
    exists|j: int|
        0 <= j < k && #[trigger] job_failed(s, jobs, outcomes, previous, j) && linked(
            s.edges,
            jobs[j] as nat,
            w,
        )
}

/// `v` depends on a job whose build failed.
pub open spec fn doomed(
    s: GraphState,
    jobs: Seq<usize>,
    outcomes: Seq<BuildSpec>,
    previous: Seq<(Seq<char>, Seq<char>)>,
    v: int,
) -> bool {
    exists|k: int|
        0 <= k < jobs.len() && #[trigger] job_failed(s, jobs, outcomes, previous, k) && downstream(
            s.edges,
            jobs[k] as nat,
            v as nat,
        )
}

/// What taking in the build results does: every node that depends on a
/// failed job is lost; every other job gets the status of its build; nothing
/// else changes.
pub open spec fn settled(
    pre: GraphState,
    post: GraphState,
    jobs: Seq<usize>,
    outcomes: Seq<BuildSpec>,
    previous: Seq<(Seq<char>, Seq<char>)>,
) -> bool {
    &&& post.same_shape(pre)
    &&& forall|v: int|
        0 <= v < pre.status.len() && doomed(pre, jobs, outcomes, previous, v)
            ==> #[trigger] post.status[v] == GNodeStatus::AncestorFailed
    &&& forall|k: int|
        0 <= k < jobs.len() && !doomed(pre, jobs, outcomes, previous, jobs[k] as int)
            ==> post.status[#[trigger] jobs[k] as int] == built_status(
            outcomes[k],
            previous,
            pre.nodes[jobs[k] as int].path,
        )
    &&& forall|v: int|
        0 <= v < pre.status.len() && !doomed(pre, jobs, outcomes, previous, v) && !lists(jobs, v)
            ==> #[trigger] post.status[v] == pre.status[v]
}

/// What the build stage decided for one pass.
#[derive(Debug, Clone)]
pub struct BuildPlan {
    /// The nodes to build in this pass; they are `Running` now.
    pub jobs: Vec<usize>,
    /// The nodes that were lost to a failed predecessor in this pass; what
    /// is at their target paths is stale.
    pub discard: Vec<usize>,
}

impl G {
    /// What the statuses of the predecessors of a node say: whether one of
    /// them failed, whether all are settled, whether none has changed.
    pub fn predecessor_summary(&self, i: usize) -> (r: (bool, bool, bool))
        requires
            self.wf(),
            i < self@.nodes.len(),
        ensures
            r.0 == has_failed_pred(self@, i as int),
            r.1 == all_preds_success(self@, i as int),
            r.2 == all_preds_unchanged(self@, i as int),
    {
        let preds = self.predecessors(i);
        let mut failed = false;
        let mut success = true;
        let mut unchanged = true;
        let mut k: usize = 0;
        while k < preds.len()
            invariant
                self.wf(),
                i < self@.nodes.len(),
                k <= preds@.len(),
                preds@.len() == self@.preds(i as int).len(),
                forall|j: int|
                    0 <= j < preds@.len() ==> preds@[j] as nat == #[trigger] self@.preds(
                        i as int,
                    )[j],
                forall|j: int| 0 <= j < preds@.len() ==> (#[trigger] preds@[j]) < self@.nodes.len(),
                failed == exists|j: int|
                    0 <= j < k && self@.status[#[trigger] self@.preds(i as int)[j] as int].failed(),
                success == forall|j: int|
                    0 <= j < k ==> self@.status[#[trigger] self@.preds(i as int)[j] as int].success(),
                unchanged == forall|j: int|
                    0 <= j < k ==> self@.status[#[trigger] self@.preds(
                        i as int,
                    )[j] as int].unchanged(),
            decreases preds@.len() - k,
        {
            let st = self.status_of(preds[k]);
            proof {
                assert(preds@[k as int] as nat == self@.preds(i as int)[k as int]);
            }
            let ghost was_failed = failed;
            if st.is_failed() {
                failed = true;
            }
            if !st.is_success() {
                success = false;
            }
            if !st.is_unchanged() {
                unchanged = false;
            }
            proof {
                if was_failed {
                    let j = choose|j: int|
                        0 <= j < k && self@.status[#[trigger] self@.preds(
                            i as int,
                        )[j] as int].failed();
                    assert(0 <= j < k + 1);
                }
            }
            k += 1;
        }
        (failed, success, unchanged)
    }

    /// Where a node goes in the build stage.
    pub fn route_of(&self, i: usize, file: &FileState, previous: &DigestTable) -> (r: Route)
        requires
            self.wf(),
            i < self@.nodes.len(),
        ensures
            r == route(self@, i as int, file@.digest, previous@),
    {
        let st = self.status_of(i);
        if !st.is_pending() || self.is_root_node(i) {
            return Route::Leave;
        }
        let (failed, success, unchanged) = self.predecessor_summary(i);
        if failed {
            Route::AncestorFailed
        } else if st != GNodeStatus::Initial || !success {
            Route::Leave
        } else if unchanged && previous.matches(self.node(i).path.as_str(), &file.digest) {
            Route::NotRequired
        } else {
            Route::Build
        }
    }

    /// Sends every node where it goes. Returns the nodes to build and the
    /// nodes that were lost.
    ///
    /// Of every node to build, all predecessors have been materialized or
    /// built.
    pub fn plan_builds(&mut self, files: &Vec<FileState>, previous: &DigestTable) -> (plan:
        BuildPlan)
        requires
            old(self).wf(),
            files@.len() == old(self)@.nodes.len(),
        ensures
            final(self).wf(),
            final(self).source_dir() == old(self).source_dir(),
            final(self).sandbox_dir() == old(self).sandbox_dir(),
            final(self)@ == planned(old(self)@, file_views(files@), previous@),
            ascending(plan.jobs@, old(self)@.nodes.len()),
            ascending(plan.discard@, old(self)@.nodes.len()),
            forall|i: int|
                0 <= i < old(self)@.nodes.len() ==> (lists(plan.jobs@, i) <==> route_at(
                    old(self)@,
                    file_views(files@),
                    previous@,
                    i,
                ) == Route::Build),
            forall|i: int|
                0 <= i < old(self)@.nodes.len() ==> (lists(plan.discard@, i) <==> route_at(
                    old(self)@,
                    file_views(files@),
                    previous@,
                    i,
                ) == Route::AncestorFailed),
            forall|k: int|
                0 <= k < plan.jobs@.len() ==> final(self)@.status[#[trigger] plan.jobs@[k] as int]
                    == GNodeStatus::Running && all_preds_success(
                    final(self)@,
                    plan.jobs@[k] as int,
                ),
    {
        let n = self.node_count();
        let mut routes: Vec<Route> = Vec::new();
        let mut jobs: Vec<usize> = Vec::new();
        let mut discard: Vec<usize> = Vec::new();
        let ghost fs = file_views(files@);
        let ghost pre = self@;
        let mut i: usize = 0;
        while i < n
            invariant
                self.wf(),
                self == old(self),
                pre == self@,
                fs == file_views(files@),
                files@.len() == n,
                n == pre.nodes.len(),
                i <= n,
                routes@.len() == i,
                forall|v: int| 0 <= v < i ==> #[trigger] routes@[v] == route_at(pre, fs, previous@, v),
                forall|k: int| 0 <= k < jobs@.len() ==> (#[trigger] jobs@[k]) < i,
                forall|j: int, k: int| 0 <= j < k < jobs@.len() ==> jobs@[j] < jobs@[k],
                forall|k: int| 0 <= k < discard@.len() ==> (#[trigger] discard@[k]) < i,
                forall|j: int, k: int| 0 <= j < k < discard@.len() ==> discard@[j] < discard@[k],
                forall|v: int|
                    0 <= v < i ==> (lists(jobs@, v) <==> route_at(pre, fs, previous@, v)
                        == Route::Build),
                forall|v: int|
                    0 <= v < i ==> (lists(discard@, v) <==> route_at(pre, fs, previous@, v)
                        == Route::AncestorFailed),
            decreases n - i,
        {
            let ghost jobs_before = jobs@;
            let ghost discard_before = discard@;
            let r = self.route_of(i, &files[i], previous);
            proof {
                assert(fs[i as int] == files@[i as int]@);
            }
            routes.push(r);
            if r == Route::Build {
                jobs.push(i);
            }
            if r == Route::AncestorFailed {
                discard.push(i);
            }
            proof {
                assert forall|v: int| 0 <= v < i + 1 implies (lists(jobs@, v) <==> route_at(
                    pre,
                    fs,
                    previous@,
                    v,
                ) == Route::Build) by {
                    if lists(jobs_before, v) {
                        let k = choose|k: int|
                            0 <= k < jobs_before.len() && #[trigger] jobs_before[k] == v;
                        assert(jobs@[k] == v);
                    }
                    if r == Route::Build {
                        assert(jobs@[jobs@.len() - 1] == i);
                    }
                    if lists(jobs@, v) && !lists(jobs_before, v) {
                        let k = choose|k: int| 0 <= k < jobs@.len() && #[trigger] jobs@[k] == v;
                        if k < jobs_before.len() {
                            assert(jobs_before[k] == v);
                        }
                    }
                }
                assert forall|v: int| 0 <= v < i + 1 implies (lists(discard@, v) <==> route_at(
                    pre,
                    fs,
                    previous@,
                    v,
                ) == Route::AncestorFailed) by {
                    if lists(discard_before, v) {
                        let k = choose|k: int|
                            0 <= k < discard_before.len() && #[trigger] discard_before[k] == v;
                        assert(discard@[k] == v);
                    }
                    if r == Route::AncestorFailed {
                        assert(discard@[discard@.len() - 1] == i);
                    }
                    if lists(discard@, v) && !lists(discard_before, v) {
                        let k = choose|k: int| 0 <= k < discard@.len() && #[trigger] discard@[k] == v;
                        if k < discard_before.len() {
                            assert(discard_before[k] == v);
                        }
                    }
                }
            }
            i += 1;
        }
        let mut v: usize = 0;
        while v < n
            invariant
                self.wf(),
                self.source_dir() == old(self).source_dir(),
                self.sandbox_dir() == old(self).sandbox_dir(),
                pre == old(self)@,
                n == pre.nodes.len(),
                routes@.len() == n,
                v <= n,
                self@.same_shape(pre),
                forall|x: int|
                    0 <= x < v ==> #[trigger] self@.status[x] == routed_status(
                        pre.status[x],
                        routes@[x],
                    ),
                forall|x: int| v <= x < n ==> #[trigger] self@.status[x] == pre.status[x],
            decreases n - v,
        {
            match routes[v] {
                Route::Leave => {},
                Route::AncestorFailed => {
                    self.set_status(v, GNodeStatus::AncestorFailed);
                },
                Route::NotRequired => {
                    self.set_status(v, GNodeStatus::BuildNotRequired);
                },
                Route::Build => {
                    self.set_status(v, GNodeStatus::Running);
                },
            }
            v += 1;
        }
        proof {
            let goal = planned(pre, fs, previous@);
            assert(self@.status =~= goal.status);
            assert(self@ == goal);
            assert forall|k: int| 0 <= k < jobs@.len() implies self@.status[#[trigger] jobs@[k] as int]
                == GNodeStatus::Running && all_preds_success(self@, jobs@[k] as int) by {
                let job = jobs@[k] as int;
                assert(lists(jobs@, job));
                assert(route_at(pre, fs, previous@, job) == Route::Build);
                assert(all_preds_success(pre, job));
                crate::graph::lemma_neighbors_in_range(pre.edges, pre.nodes.len(), job as nat, true);
                assert(self@.preds(job) == pre.preds(job));
                assert forall|m: int| 0 <= m < self@.preds(job).len() implies self@.status[#[trigger] self@.preds(
                    job,
                )[m] as int].success() by {
                    let q = pre.preds(job)[m] as int;
                    assert(pre.status[q].success());
                    assert(route_at(pre, fs, previous@, q) == Route::Leave);
                }
            }
        }
        BuildPlan { jobs, discard }
    }

    /// Takes in what became of the builds of one pass: each job gets the
    /// status of its build, and every node that depends on a failed job,
    /// directly or through other nodes, becomes `AncestorFailed`. Returns
    /// the nodes that were lost in this way: what is at their target paths
    /// is stale.
    pub fn build_nodes(
        &mut self,
        jobs: &Vec<usize>,
        outcomes: &Vec<BuildOutcome>,
        previous: &DigestTable,
    ) -> (lost: Vec<usize>)
        requires
            old(self).wf(),
            ascending(jobs@, old(self)@.nodes.len()),
            outcomes@.len() == jobs@.len(),
        ensures
            final(self).wf(),
            final(self).source_dir() == old(self).source_dir(),
            final(self).sandbox_dir() == old(self).sandbox_dir(),
            settled(old(self)@, final(self)@, jobs@, build_views(outcomes@), previous@),
            ascending(lost@, old(self)@.nodes.len()),
            forall|v: int|
                0 <= v < old(self)@.nodes.len() ==> (lists(lost@, v) <==> doomed(
                    old(self)@,
                    jobs@,
                    build_views(outcomes@),
                    previous@,
                    v,
                )),
    {
        let ghost pre = self@;
        let ghost os = build_views(outcomes@);
        let mut statuses: Vec<GNodeStatus> = Vec::new();
        let mut seeds: Vec<usize> = Vec::new();
        let mut k: usize = 0;
        while k < jobs.len()
            invariant
                self.wf(),
                self == old(self),
                pre == self@,
                os == build_views(outcomes@),
                ascending(jobs@, pre.nodes.len()),
                outcomes@.len() == jobs@.len(),
                k <= jobs@.len(),
                statuses@.len() == k,
                forall|j: int|
                    0 <= j < k ==> #[trigger] statuses@[j] == built_status(
                        os[j],
                        previous@,
                        pre.nodes[jobs@[j] as int].path,
                    ),
                forall|m: int| 0 <= m < seeds@.len() ==> (#[trigger] seeds@[m]) < pre.nodes.len(),
                forall|m: int|
                    0 <= m < seeds@.len() ==> next_to_failed(
                        pre,
                        jobs@,
                        os,
                        previous@,
                        k as int,
                        #[trigger] seeds@[m] as nat,
                    ),
                forall|j: int, w: nat|
                    0 <= j < k && job_failed(pre, jobs@, os, previous@, j) && #[trigger] linked(
                        pre.edges,
                        jobs@[j] as nat,
                        w,
                    ) ==> exists|m: int| 0 <= m < seeds@.len() && #[trigger] seeds@[m] as nat == w,
            decreases jobs@.len() - k,
        {
            let o = &outcomes[k];
            let job = jobs[k];
            proof {
                assert(os[k as int] == outcomes@[k as int]@);
            }
            let st = if !o.ok || !o.exists {
                GNodeStatus::BuildFailed
            } else if previous.matches(self.node(job).path.as_str(), &o.digest) {
                GNodeStatus::BuildNotChanged
            } else {
                GNodeStatus::BuildSuccess
            };
            statuses.push(st);
            if st == GNodeStatus::BuildFailed {
                let next = self.successors(job);
                let ghost seeds_before = seeds@;
                let mut m: usize = 0;
                while m < next.len()
                    invariant
                        m <= next@.len(),
                        forall|x: int| 0 <= x < next@.len() ==> (#[trigger] next@[x]) < pre.nodes.len(),
                        seeds@.len() == seeds_before.len() + m,
                        forall|x: int| 0 <= x < seeds_before.len() ==> seeds@[x] == seeds_before[x],
                        forall|x: int|
                            0 <= x < m ==> seeds@[seeds_before.len() + x] == #[trigger] next@[x],
                    decreases next@.len() - m,
                {
                    seeds.push(next[m]);
                    m += 1;
                }
                proof {
                    lemma_neighbors_linked(pre.edges, job as nat, false);
                    let nb = pre.succs(job as int);
                    assert(job_failed(pre, jobs@, os, previous@, k as int));
                    assert forall|x: int| 0 <= x < seeds@.len() implies next_to_failed(
                        pre,
                        jobs@,
                        os,
                        previous@,
                        k + 1,
                        #[trigger] seeds@[x] as nat,
                    ) by {
                        if x < seeds_before.len() {
                            assert(seeds@[x] == seeds_before[x]);
                            assert(next_to_failed(
                                pre,
                                jobs@,
                                os,
                                previous@,
                                k as int,
                                seeds_before[x] as nat,
                            ));
                            let j = choose|j: int|
                                0 <= j < k && #[trigger] job_failed(pre, jobs@, os, previous@, j)
                                    && linked(pre.edges, jobs@[j] as nat, seeds_before[x] as nat);
                            assert(0 <= j < k + 1);
                        } else {
                            let y = x - seeds_before.len();
                            assert(seeds@[seeds_before.len() + y] == next@[y]);
                            assert(nb[y] == next@[y] as nat);
                            assert(nb.contains(next@[y] as nat));
                        }
                    }
                    assert forall|j: int, w: nat|
                        0 <= j < k + 1 && job_failed(pre, jobs@, os, previous@, j) && #[trigger] linked(
                            pre.edges,
                            jobs@[j] as nat,
                            w,
                        ) implies exists|x: int|
                        0 <= x < seeds@.len() && #[trigger] seeds@[x] as nat == w by {
                        if j < k {
                            let x = choose|x: int|
                                0 <= x < seeds_before.len() && #[trigger] seeds_before[x] as nat == w;
                            assert(seeds@[x] as nat == w);
                        } else {
                            assert(nb.contains(w));
                            let y = choose|y: int| 0 <= y < nb.len() && nb[y] == w;
                            assert(next@[y] as nat == w);
                            assert(seeds@[seeds_before.len() + y] == next@[y]);
                        }
                    }
                    assert forall|x: int| 0 <= x < seeds@.len() implies (#[trigger] seeds@[x])
                        < pre.nodes.len() by {
                        if x < seeds_before.len() {
                            assert(seeds@[x] == seeds_before[x]);
                        } else {
                            let y = x - seeds_before.len();
                            assert(seeds@[seeds_before.len() + y] == next@[y]);
                        }
                    }
                }
            } else {
                proof {
                    assert(!job_failed(pre, jobs@, os, previous@, k as int));
                    assert forall|x: int| 0 <= x < seeds@.len() implies next_to_failed(
                        pre,
                        jobs@,
                        os,
                        previous@,
                        k + 1,
                        #[trigger] seeds@[x] as nat,
                    ) by {
                        assert(next_to_failed(pre, jobs@, os, previous@, k as int, seeds@[x] as nat));
                        let j = choose|j: int|
                            0 <= j < k && #[trigger] job_failed(pre, jobs@, os, previous@, j)
                                && linked(pre.edges, jobs@[j] as nat, seeds@[x] as nat);
                        assert(0 <= j < k + 1);
                    }
                }
            }
            k += 1;
        }
        let marks = self.reach(&seeds, false);
        proof {
            assert forall|v: int| 0 <= v < pre.nodes.len() implies (marks@[v] <==> doomed(
                pre,
                jobs@,
                os,
                previous@,
                v,
            )) by {
                if marks@[v] {
                    let m = choose|m: int|
                        0 <= m < seeds@.len() && reaches(
                            pre.edges,
                            #[trigger] seeds@[m] as nat,
                            v as nat,
                            false,
                        );
                    assert(next_to_failed(
                        pre,
                        jobs@,
                        os,
                        previous@,
                        jobs@.len() as int,
                        seeds@[m] as nat,
                    ));
                    let j = choose|j: int|
                        0 <= j < jobs@.len() && #[trigger] job_failed(pre, jobs@, os, previous@, j)
                            && linked(pre.edges, jobs@[j] as nat, seeds@[m] as nat);
                    assert(downstream(pre.edges, jobs@[j] as nat, v as nat));
                }
                if doomed(pre, jobs@, os, previous@, v) {
                    let j = choose|j: int|
                        0 <= j < jobs@.len() && #[trigger] job_failed(pre, jobs@, os, previous@, j)
                            && downstream(pre.edges, jobs@[j] as nat, v as nat);
                    let w = choose|w: nat| #[trigger]
                        linked(pre.edges, jobs@[j] as nat, w) && reaches(
                            pre.edges,
                            w,
                            v as nat,
                            false,
                        );
                    let m = choose|m: int| 0 <= m < seeds@.len() && #[trigger] seeds@[m] as nat == w;
                    assert(reached_from(pre.edges, seeds@, v as nat, false));
                }
            }
        }
        self.assign(jobs, &statuses);
        let ghost mid = self@;
        let n = self.node_count();
        let mut lost: Vec<usize> = Vec::new();
        let mut v: usize = 0;
        while v < n
            invariant
                self.wf(),
                self.source_dir() == old(self).source_dir(),
                self.sandbox_dir() == old(self).sandbox_dir(),
                n == pre.nodes.len(),
                marks@.len() == n,
                v <= n,
                self@.same_shape(pre),
                mid.same_shape(pre),
                forall|k: int| 0 <= k < lost@.len() ==> (#[trigger] lost@[k]) < v,
                forall|j: int, k: int| 0 <= j < k < lost@.len() ==> lost@[j] < lost@[k],
                forall|x: int| 0 <= x < v ==> (lists(lost@, x) <==> marks@[x]),
                forall|x: int|
                    0 <= x < v ==> #[trigger] self@.status[x] == if marks@[x] {
                        GNodeStatus::AncestorFailed
                    } else {
                        mid.status[x]
                    },
                forall|x: int| v <= x < n ==> #[trigger] self@.status[x] == mid.status[x],
            decreases n - v,
        {
            let ghost lost_before = lost@;
            if marks[v] {
                self.set_status(v, GNodeStatus::AncestorFailed);
                lost.push(v);
                proof {
                    assert(lost@[lost@.len() - 1] == v);
                }
            }
            proof {
                assert forall|x: int| 0 <= x < v + 1 implies (lists(lost@, x) <==> marks@[x]) by {
                    if x < v && lists(lost_before, x) {
                        let k = choose|k: int|
                            0 <= k < lost_before.len() && #[trigger] lost_before[k] == x;
                        assert(lost@[k] == x);
                    }
                    if lists(lost@, x) && !lists(lost_before, x) {
                        let k = choose|k: int| 0 <= k < lost@.len() && #[trigger] lost@[k] == x;
                        if k < lost_before.len() {
                            assert(lost_before[k] == x);
                        }
                    }
                }
            }
            v += 1;
        }
        proof {
            assert forall|j: int|
                0 <= j < jobs@.len() && !doomed(
                    pre,
                    jobs@,
                    os,
                    previous@,
                    jobs@[j] as int,
                ) implies self@.status[#[trigger] jobs@[j] as int] == built_status(
                os[j],
                previous@,
                pre.nodes[jobs@[j] as int].path,
            ) by {
                assert(mid.status[jobs@[j] as int] == statuses@[j]);
            }
        }
        lost
    }
}

} // verus!
