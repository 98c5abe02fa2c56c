//! The mount stage: roots are copied from the source tree into the sandbox
//! and classified as changed, unchanged or failed.
//!
//! Copying is not done here. The graph says which roots are due, whoever
//! drives the run copies them and reports, for each, whether the copy
//! succeeded and what the digest of the source file is.
use crate::digest::same_as_recorded;
use crate::digest::DigestTable;
use crate::model::text_of;
use crate::model::GNodeStatus;
use crate::state::GraphState;
use crate::state::G;
use vstd::prelude::*;

verus! {

/// What became of copying one root.
#[derive(Debug, Clone)]
pub struct MountOutcome {
    /// The file is now in the sandbox.
    pub copied: bool,
    /// The digest of the source file, if it could be read.
    pub digest: Option<String>,
}

/// What a `MountOutcome` stands for.
pub struct MountSpec {
    pub copied: bool,
    pub digest: Option<Seq<char>>,
}

impl View for MountOutcome {
    type V = MountSpec;

    open spec fn view(&self) -> MountSpec {
        MountSpec { copied: self.copied, digest: text_of(self.digest) }
    }
}

/// The views of a list of mount outcomes.
pub open spec fn mount_views(v: Seq<MountOutcome>) -> Seq<MountSpec> {
    Seq::new(v.len(), |i: int| v[i]@)
}

/// The status of a root after the attempt to copy it: a failed copy is a
/// failure; a copy whose digest is the one recorded for its path by the
/// previous run is unchanged; any other copy is changed.
pub open spec fn mount_status(
    o: MountSpec,
    previous: Seq<(Seq<char>, Seq<char>)>,
    path: Seq<char>,
) -> GNodeStatus {
    if !o.copied {
        GNodeStatus::MountedFailed
    } else if same_as_recorded(previous, path, o.digest) {
        GNodeStatus::MountedNotChanged
    } else {
        GNodeStatus::MountedChanged
    }
}

/// `targets` lists node indices in ascending order.
pub open spec fn ascending(targets: Seq<usize>, n: nat) -> bool {
    &&& forall|k: int| 0 <= k < targets.len() ==> (#[trigger] targets[k]) < n
    &&& forall|j: int, k: int| 0 <= j < k < targets.len() ==> targets[j] < targets[k]
}

/// `targets` lists node `i`.
pub open spec fn lists(targets: Seq<usize>, i: int) -> bool {
    exists|k: int| 0 <= k < targets.len() && #[trigger] targets[k] == i
}

/// A root is due for mounting while its status is `Initial`.
pub open spec fn mount_due(s: GraphState, i: int) -> bool {
    s.status[i] == GNodeStatus::Initial && s.is_root(i)
}

/// `post` is `pre` with the listed nodes given the listed statuses, and
/// nothing else changed.
pub open spec fn assigned(
    pre: GraphState,
    post: GraphState,
    targets: Seq<usize>,
    statuses: Seq<GNodeStatus>,
) -> bool {
    &&& post.same_shape(pre)
    &&& forall|k: int| 0 <= k < targets.len() ==> post.status[#[trigger] targets[k] as int] == statuses[k]
    &&& forall|i: int|
        0 <= i < pre.status.len() && !lists(targets, i) ==> #[trigger] post.status[i] == pre.status[i]
}

/// The statuses that the mount stage gives to the roots it was asked about.
pub open spec fn mount_statuses(
    s: GraphState,
    targets: Seq<usize>,
    outcomes: Seq<MountSpec>,
    previous: Seq<(Seq<char>, Seq<char>)>,
) -> Seq<GNodeStatus> {
    Seq::new(
        targets.len(),
        |k: int| mount_status(outcomes[k], previous, s.nodes[targets[k] as int].path),
    )
}

impl G {
    /// The roots that are due for mounting, in the order of their indices.
    pub fn mount_targets(&self) -> (targets: Vec<usize>)
        requires
            self.wf(),
        ensures
            ascending(targets@, self@.nodes.len()),
            forall|i: int|
                0 <= i < self@.nodes.len() ==> (lists(targets@, i) <==> mount_due(self@, i)),
    {
        let n = self.node_count();
        let mut targets: Vec<usize> = Vec::new();
        let mut i: usize = 0;
        while i < n
            invariant
                self.wf(),
                n == self@.nodes.len(),
                i <= n,
                forall|k: int| 0 <= k < targets@.len() ==> (#[trigger] targets@[k]) < i,
                forall|j: int, k: int| 0 <= j < k < targets@.len() ==> targets@[j] < targets@[k],
                forall|v: int| 0 <= v < i ==> (lists(targets@, v) <==> mount_due(self@, v)),
            decreases n - i,
        {
            let ghost before = targets@;
            if self.status_of(i) == GNodeStatus::Initial && self.is_root_node(i) {
                targets.push(i);
                proof {
                    assert(targets@[targets@.len() - 1] == i);
                    assert forall|v: int| 0 <= v < i + 1 implies (lists(targets@, v) <==> mount_due(
                        self@,
                        v,
                    )) by {
                        if v < i && lists(before, v) {
                            let k = choose|k: int| 0 <= k < before.len() && #[trigger] before[k] == v;
                            assert(targets@[k] == v);
                        }
                    }
                }
            }
            i += 1;
        }
        targets
    }

    /// Gives each listed node the status listed for it.
    pub fn assign(&mut self, targets: &Vec<usize>, statuses: &Vec<GNodeStatus>)
        requires
            old(self).wf(),
            ascending(targets@, old(self)@.nodes.len()),
            statuses@.len() == targets@.len(),
        ensures
            final(self).wf(),
            final(self).source_dir() == old(self).source_dir(),
            final(self).sandbox_dir() == old(self).sandbox_dir(),
            assigned(old(self)@, final(self)@, targets@, statuses@),
    {
        let mut k: usize = 0;
        while k < targets.len()
            invariant
                self.wf(),
                self.source_dir() == old(self).source_dir(),
                self.sandbox_dir() == old(self).sandbox_dir(),
                ascending(targets@, old(self)@.nodes.len()),
                statuses@.len() == targets@.len(),
                k <= targets@.len(),
                self@.same_shape(old(self)@),
                forall|j: int| 0 <= j < k ==> self@.status[#[trigger] targets@[j] as int] == statuses@[j],
                forall|i: int|
                    0 <= i < self@.status.len() && !lists(targets@.take(k as int), i)
                        ==> #[trigger] self@.status[i] == old(self)@.status[i],
            decreases targets@.len() - k,
        {
            let ghost before = self@;
            let t = targets[k];
            self.set_status(t, statuses[k]);
            proof {
                assert forall|i: int|
                    0 <= i < self@.status.len() && !lists(
                        targets@.take(k + 1),
                        i,
                    ) implies #[trigger] self@.status[i] == old(self)@.status[i] by {
                    assert(targets@.take(k + 1)[k as int] == t);
                    if lists(targets@.take(k as int), i) {
                        let j = choose|j: int|
                            0 <= j < targets@.take(k as int).len() && #[trigger] targets@.take(
                                k as int,
                            )[j] == i;
                        assert(targets@.take(k + 1)[j] == i);
                    }
                }
                assert forall|j: int| 0 <= j < k + 1 implies self@.status[#[trigger] targets@[j] as int]
                    == statuses@[j] by {
                    if j < k {
                        assert(targets@[j] < targets@[k as int]);
                        assert(before.status[targets@[j] as int] == statuses@[j]);
                    }
                }
            }
            k += 1;
        }
        proof {
            assert(targets@.take(k as int) =~= targets@);
        }
    }

    /// Takes in what became of copying the listed roots.
    pub fn mount_root_nodes(
        &mut self,
        targets: &Vec<usize>,
        outcomes: &Vec<MountOutcome>,
        previous: &DigestTable,
    )
        requires
            old(self).wf(),
            ascending(targets@, old(self)@.nodes.len()),
            outcomes@.len() == targets@.len(),
        ensures
            final(self).wf(),
            final(self).source_dir() == old(self).source_dir(),
            final(self).sandbox_dir() == old(self).sandbox_dir(),
            assigned(
                old(self)@,
                final(self)@,
                targets@,
                mount_statuses(old(self)@, targets@, mount_views(outcomes@), previous@),
            ),
    {
        let mut statuses: Vec<GNodeStatus> = Vec::new();
        let mut k: usize = 0;
        while k < targets.len()
            invariant
                self.wf(),
                self == old(self),
                ascending(targets@, self@.nodes.len()),
                outcomes@.len() == targets@.len(),
                k <= targets@.len(),
                statuses@.len() == k,
                forall|j: int|
                    0 <= j < k ==> #[trigger] statuses@[j] == mount_status(
                        outcomes@[j]@,
                        previous@,
                        self@.nodes[targets@[j] as int].path,
                    ),
            decreases targets@.len() - k,
        {
            let o = &outcomes[k];
            let path = &self.node(targets[k]).path;
            let st = if !o.copied {
                GNodeStatus::MountedFailed
            } else if previous.matches(path.as_str(), &o.digest) {
                GNodeStatus::MountedNotChanged
            } else {
                GNodeStatus::MountedChanged
            };
            statuses.push(st);
            k += 1;
        }
        proof {
            assert(statuses@ =~= mount_statuses(
                old(self)@,
                targets@,
                mount_views(outcomes@),
                previous@,
            ));
        }
        self.assign(targets, &statuses);
    }

    /// Puts every node in status `ScanIncomplete` back to `Initial`, so that
    /// it is scanned again.
    pub fn reset_scan_incomplete(&mut self)
        requires
            old(self).wf(),
        ensures
            final(self).wf(),
            final(self).source_dir() == old(self).source_dir(),
            final(self).sandbox_dir() == old(self).sandbox_dir(),
            final(self)@.same_shape(old(self)@),
            forall|i: int|
                0 <= i < old(self)@.status.len() ==> #[trigger] final(self)@.status[i] == if old(
                    self,
                )@.status[i] == GNodeStatus::ScanIncomplete {
                    GNodeStatus::Initial
                } else {
                    old(self)@.status[i]
                },
    {
        self.replace_status(GNodeStatus::ScanIncomplete, GNodeStatus::Initial);
    }

    /// Puts every node back to `Initial`: a run starts.
    pub fn reset_all(&mut self)
        requires
            old(self).wf(),
        ensures
            final(self).wf(),
            final(self).source_dir() == old(self).source_dir(),
            final(self).sandbox_dir() == old(self).sandbox_dir(),
            final(self)@.same_shape(old(self)@),
            forall|i: int|
                0 <= i < old(self)@.status.len() ==> #[trigger] final(self)@.status[i]
                    == GNodeStatus::Initial,
    {
        let n = self.node_count();
        let mut i: usize = 0;
        while i < n
            invariant
                self.wf(),
                self.source_dir() == old(self).source_dir(),
                self.sandbox_dir() == old(self).sandbox_dir(),
                self@.same_shape(old(self)@),
                n == self@.nodes.len(),
                i <= n,
                forall|v: int| 0 <= v < i ==> #[trigger] self@.status[v] == GNodeStatus::Initial,
            decreases n - i,
        {
            self.set_status(i, GNodeStatus::Initial);
            i += 1;
        }
    }

    /// Gives every node in status `from` the status `to`.
    pub fn replace_status(&mut self, from: GNodeStatus, to: GNodeStatus)
        requires
            old(self).wf(),
        ensures
            final(self).wf(),
            final(self).source_dir() == old(self).source_dir(),
            final(self).sandbox_dir() == old(self).sandbox_dir(),
            final(self)@.same_shape(old(self)@),
            forall|i: int|
                0 <= i < old(self)@.status.len() ==> #[trigger] final(self)@.status[i] == if old(
                    self,
                )@.status[i] == from {
                    to
                } else {
                    old(self)@.status[i]
                },
    {
        let n = self.node_count();
        let mut i: usize = 0;
        while i < n
            invariant
                self.wf(),
                self.source_dir() == old(self).source_dir(),
                self.sandbox_dir() == old(self).sandbox_dir(),
                self@.same_shape(old(self)@),
                n == self@.nodes.len(),
                i <= n,
                forall|v: int|
                    0 <= v < i ==> #[trigger] self@.status[v] == if old(self)@.status[v] == from {
                        to
                    } else {
                        old(self)@.status[v]
                    },
                forall|v: int| i <= v < n ==> #[trigger] self@.status[v] == old(self)@.status[v],
            decreases n - i,
        {
            if self.status_of(i) == from {
                self.set_status(i, to);
            }
            i += 1;
        }
    }
}

} // verus!
