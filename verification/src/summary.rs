//! How many nodes are in which status.
use crate::mermaid::decimal;
use crate::mermaid::decimal_text;
use crate::model::GNodeStatus;
use crate::state::GraphState;
use crate::state::G;
use vstd::prelude::*;

verus! {

/// The number of nodes in status `st`.
pub open spec fn count_of(status: Seq<GNodeStatus>, st: GNodeStatus) -> nat
    decreases status.len(),
{
    if status.len() == 0 {
        0
    } else {
        count_of(status.drop_last(), st) + if status.last() == st {
            1nat
        } else {
            0nat
        }
    }
}

/// The counts of all statuses in one line.
pub open spec fn status_line(s: GraphState) -> Seq<char> {
    "I:"@ + decimal_text(count_of(s.status, GNodeStatus::Initial)) + " MC:"@ + decimal_text(
        count_of(s.status, GNodeStatus::MountedChanged),
    ) + " MN:"@ + decimal_text(count_of(s.status, GNodeStatus::MountedNotChanged)) + " MF:"@
        + decimal_text(count_of(s.status, GNodeStatus::MountedFailed)) + " SI:"@ + decimal_text(
        count_of(s.status, GNodeStatus::ScanIncomplete),
    ) + " R:"@ + decimal_text(count_of(s.status, GNodeStatus::Running)) + " BS:"@ + decimal_text(
        count_of(s.status, GNodeStatus::BuildSuccess),
    ) + " BNC:"@ + decimal_text(count_of(s.status, GNodeStatus::BuildNotChanged)) + " BNR:"@
        + decimal_text(count_of(s.status, GNodeStatus::BuildNotRequired)) + " BF:"@ + decimal_text(
        count_of(s.status, GNodeStatus::BuildFailed),
    ) + " AF:"@ + decimal_text(count_of(s.status, GNodeStatus::AncestorFailed))
}

/// The sum of the counts of all statuses.
pub open spec fn count_total(status: Seq<GNodeStatus>) -> nat {
    count_of(status, GNodeStatus::Initial) + count_of(status, GNodeStatus::MountedChanged)
        + count_of(status, GNodeStatus::MountedNotChanged) + count_of(
        status,
        GNodeStatus::MountedFailed,
    ) + count_of(status, GNodeStatus::ScanIncomplete) + count_of(status, GNodeStatus::Running)
        + count_of(status, GNodeStatus::BuildSuccess) + count_of(
        status,
        GNodeStatus::BuildNotChanged,
    ) + count_of(status, GNodeStatus::BuildNotRequired) + count_of(status, GNodeStatus::BuildFailed)
        + count_of(status, GNodeStatus::AncestorFailed)
}

/// Every node is counted under exactly one status: the counts add up to the
/// number of nodes.
pub proof fn law_counts_add_up(status: Seq<GNodeStatus>)
    ensures
        count_total(status) == status.len(),
    decreases status.len(),
{
    if status.len() > 0 {
        law_counts_add_up(status.drop_last());
    }
}

impl G {
    /// The number of nodes in the given status.
    pub fn count_status(&self, st: GNodeStatus) -> (r: usize)
        requires
            self.wf(),
        ensures
            r == count_of(self@.status, st),
    {
        let n = self.node_count();
        let mut r: usize = 0;
        let mut i: usize = 0;
        proof {
            assert(self@.status.take(0) =~= Seq::<GNodeStatus>::empty());
        }
        while i < n
            invariant
                self.wf(),
                n == self@.nodes.len(),
                i <= n,
                r == count_of(self@.status.take(i as int), st),
                r <= i,
            decreases n - i,
        {
            proof {
                assert(self@.status.take(i + 1).drop_last() =~= self@.status.take(i as int));
                assert(self@.status.take(i + 1).last() == self@.status[i as int]);
            }
            if self.status_of(i) == st {
                r += 1;
            }
            i += 1;
        }
        proof {
            assert(self@.status.take(i as int) =~= self@.status);
        }
        r
    }

    /// The counts of all statuses in one line, for the log.
    pub fn print_status(&self) -> (r: String)
        requires
            self.wf(),
        ensures
            r@ == status_line(self@),
            count_total(self@.status) == self@.nodes.len(),
    {
        proof {
            law_counts_add_up(self@.status);
        }
        "I:".to_owned().concat(decimal(self.count_status(GNodeStatus::Initial)).as_str()).concat(
            " MC:",
        ).concat(decimal(self.count_status(GNodeStatus::MountedChanged)).as_str()).concat(
            " MN:",
        ).concat(decimal(self.count_status(GNodeStatus::MountedNotChanged)).as_str()).concat(
            " MF:",
        ).concat(decimal(self.count_status(GNodeStatus::MountedFailed)).as_str()).concat(
            " SI:",
        ).concat(decimal(self.count_status(GNodeStatus::ScanIncomplete)).as_str()).concat(
            " R:",
        ).concat(decimal(self.count_status(GNodeStatus::Running)).as_str()).concat(" BS:").concat(
            decimal(self.count_status(GNodeStatus::BuildSuccess)).as_str(),
        ).concat(" BNC:").concat(
            decimal(self.count_status(GNodeStatus::BuildNotChanged)).as_str(),
        ).concat(" BNR:").concat(
            decimal(self.count_status(GNodeStatus::BuildNotRequired)).as_str(),
        ).concat(" BF:").concat(decimal(self.count_status(GNodeStatus::BuildFailed)).as_str()).concat(
            " AF:",
        ).concat(decimal(self.count_status(GNodeStatus::AncestorFailed)).as_str())
    }
}

} // verus!
