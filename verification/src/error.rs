//! What is told of a root that could not be copied into the sandbox.
use crate::model::GNodeStatus;
use crate::mount::ascending;
use crate::mount::lists;
use crate::state::GraphState;
use crate::state::G;
use vstd::prelude::*;

verus! {

/// A root could not be copied from the source tree.
#[derive(Debug, Clone)]
pub struct CouldNotMountFileError {
    pub target: String,
}

/// The error in words; the path stands in double quotes.
pub open spec fn mount_message(target: Seq<char>) -> Seq<char> {
    "could not mount file '\""@ + target
        + "\"' because it does not exist. Either it is misspelled, missing, or is a built artefact and you forgot to add an edge"@
}

impl CouldNotMountFileError {
    pub fn new(target: String) -> (r: CouldNotMountFileError)
        ensures
            r.target == target,
    {
        CouldNotMountFileError { target }
    }

    /// The error in words.
    pub fn message(&self) -> (r: String)
        ensures
            r@ == mount_message(self.target@),
    {
        "could not mount file '\"".to_owned().concat(self.target.as_str()).concat(
            "\"' because it does not exist. Either it is misspelled, missing, or is a built artefact and you forgot to add an edge",
        )
    }
}

/// `errors` holds one error for each of the nodes in `failed`, and these are
/// the roots that could not be copied, in the order of their indices.
pub open spec fn reports_failures(
    s: GraphState,
    failed: Seq<usize>,
    errors: Seq<CouldNotMountFileError>,
) -> bool {
    &&& ascending(failed, s.nodes.len())
    &&& forall|i: int|
        0 <= i < s.nodes.len() ==> (lists(failed, i) <==> s.status[i] == GNodeStatus::MountedFailed)
    &&& errors.len() == failed.len()
    &&& forall|k: int|
        0 <= k < failed.len() ==> (#[trigger] errors[k]).target@ == s.nodes[failed[k] as int].path
}

impl G {
    /// One error for each root that could not be copied, in the order of the
    /// node indices.
    pub fn mount_errors(&self) -> (errors: Vec<CouldNotMountFileError>)
        requires
            self.wf(),
        ensures
            exists|failed: Seq<usize>| #[trigger] reports_failures(self@, failed, errors@),
    {
        let n = self.node_count();
        let mut errors: Vec<CouldNotMountFileError> = Vec::new();
        let ghost failed: Seq<usize> = Seq::empty();
        let mut i: usize = 0;
        while i < n
            invariant
                self.wf(),
                n == self@.nodes.len(),
                i <= n,
                errors@.len() == failed.len(),
                forall|k: int| 0 <= k < failed.len() ==> (#[trigger] failed[k]) < i,
                forall|j: int, k: int| 0 <= j < k < failed.len() ==> failed[j] < failed[k],
                forall|v: int|
                    0 <= v < i ==> (lists(failed, v) <==> self@.status[v]
                        == GNodeStatus::MountedFailed),
                forall|k: int|
                    0 <= k < failed.len() ==> (#[trigger] errors@[k]).target@
                        == self@.nodes[failed[k] as int].path,
            decreases n - i,
        {
            if self.status_of(i) == GNodeStatus::MountedFailed {
                let ghost before = failed;
                errors.push(CouldNotMountFileError::new(self.node(i).path.clone()));
                proof {
                    failed = failed.push(i);
                    assert(failed[failed.len() - 1] == i);
                    assert forall|v: int| 0 <= v < i + 1 implies (lists(failed, v) <==> self@.status[v]
                        == GNodeStatus::MountedFailed) by {
                        if v < i && lists(before, v) {
                            let k = choose|k: int| 0 <= k < before.len() && #[trigger] before[k] == v;
                            assert(failed[k] == v);
                        }
                    }
                }
            }
            i += 1;
        }
        proof {
            assert(reports_failures(self@, failed, errors@));
        }
        errors
    }
}

} // verus!
