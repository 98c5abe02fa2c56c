//! What a run leaves behind: the whole-graph digest that tells when nothing
//! changes any more, the verdict, and the report for the next run.
use crate::digest::digest_text;
use crate::digest::text_digest;
use crate::model::clone_text;
use crate::model::MakeOutput;
use crate::model::OutputInfo;
use crate::model::OutputSpec;
use crate::model::PredecessorInfo;
use crate::model::PredecessorSpec;
use crate::schedule::file_views;
use crate::schedule::FileSpec;
use crate::schedule::FileState;
use crate::state::GraphState;
use crate::state::G;
use crate::text::in_path_order;
use crate::text::is_arrangement;
use crate::text::sorted_by_path;
use crate::text::texts;
use vstd::prelude::*;
use vstd::utf8::encode_utf8;

verus! {

/// The target paths of the nodes, by node index.
pub open spec fn node_paths(s: GraphState) -> Seq<Seq<char>> {
    Seq::new(s.nodes.len(), |i: int| s.nodes[i].path)
}

/// `order` lists every node once, sorted by target path.
pub open spec fn listing(s: GraphState, order: Seq<usize>) -> bool {
    is_arrangement(order, s.nodes.len()) && in_path_order(order, node_paths(s))
}

/// What node `i` adds to the text that the whole-graph digest is taken of:
/// the digest of its file, or `none` where there is no file, and its status.
pub open spec fn entry_text(s: GraphState, files: Seq<FileSpec>, i: int) -> Seq<char> {
    (match files[i].digest {
        Some(d) => d,
        None => "none"@,
    }) + s.status[i].label()
}

/// The text that the whole-graph digest is taken of: the entries of the
/// nodes in the given order, one behind the other.
pub open spec fn summary(s: GraphState, files: Seq<FileSpec>, order: Seq<usize>) -> Seq<char>
    decreases order.len(),
{
    if order.len() == 0 {
        Seq::empty()
    } else {
        summary(s, files, order.drop_last()) + entry_text(s, files, order.last() as int)
    }
}

/// `digest` is the whole-graph digest: the digest of the summary of the
/// nodes, sorted by target path.
pub open spec fn is_graph_digest(s: GraphState, files: Seq<FileSpec>, digest: Seq<char>) -> bool {
    exists|order: Seq<usize>| #[trigger]
        listing(s, order) && digest == digest_text(encode_utf8(summary(s, files, order)))
}

/// No node failed, and none was lost to a failure before it.
pub open spec fn all_well(s: GraphState) -> bool {
    forall|i: int| 0 <= i < s.status.len() ==> !(#[trigger] s.status[i]).failed()
}

/// The predecessors of node `i` as the report lists them.
pub open spec fn predecessor_records(s: GraphState, i: int) -> Seq<PredecessorSpec> {
    Seq::new(
        s.preds(i).len(),
        |k: int|
            PredecessorSpec {
                path: s.nodes[s.preds(i)[k] as int].path,
                status: s.status[s.preds(i)[k] as int],
            },
    )
}

/// The record of node `i` in the report.
pub open spec fn record(s: GraphState, files: Seq<FileSpec>, i: int) -> OutputSpec {
    OutputSpec {
        path: s.nodes[i].path,
        status: s.status[i],
        digest: files[i].digest,
        absolute_path: files[i].absolute_path,
        stdout_path: None,
        stderr_path: None,
        predecessors: predecessor_records(s, i),
        expanded: s.expanded[i],
        tag: s.nodes[i].tag,
    }
}

/// `report` holds the record of every node, sorted by target path.
pub open spec fn is_report(s: GraphState, files: Seq<FileSpec>, report: Seq<OutputSpec>) -> bool {
    exists|order: Seq<usize>| #[trigger]
        listing(s, order) && report.len() == order.len() && forall|k: int|
            0 <= k < order.len() ==> #[trigger] report[k] == record(s, files, order[k] as int)
}

impl G {
    /// The target paths of the nodes, by node index.
    pub fn paths(&self) -> (r: Vec<String>)
        requires
            self.wf(),
        ensures
            texts(r@) == node_paths(self@),
    {
        let n = self.node_count();
        let mut r: Vec<String> = Vec::new();
        let mut i: usize = 0;
        while i < n
            invariant
                self.wf(),
                n == self@.nodes.len(),
                i <= n,
                r@.len() == i,
                forall|k: int| 0 <= k < i ==> (#[trigger] r@[k])@ == self@.nodes[k].path,
            decreases n - i,
        {
            r.push(self.node(i).path.clone());
            i += 1;
        }
        proof {
            assert(texts(r@) =~= node_paths(self@));
        }
        r
    }

    /// The nodes sorted by target path.
    pub fn sorted_nodes(&self) -> (order: Vec<usize>)
        requires
            self.wf(),
        ensures
            listing(self@, order@),
    {
        let paths = self.paths();
        let order = sorted_by_path(&paths);
        proof {
            assert(paths@.len() == texts(paths@).len());
            assert(node_paths(self@).len() == self@.nodes.len());
        }
        order
    }

    /// The digest of the whole graph: of what is at each node's target path
    /// and of each node's status. It changes whenever a pass changed a file
    /// or a status.
    pub fn graph_digest(&self, files: &Vec<FileState>) -> (r: String)
        requires
            self.wf(),
            files@.len() == self@.nodes.len(),
        ensures
            is_graph_digest(self@, file_views(files@), r@),
    {
        let order = self.sorted_nodes();
        let ghost fs = file_views(files@);
        let mut combined = String::new();
        let mut k: usize = 0;
        proof {
            assert(order@.take(0) =~= Seq::<usize>::empty());
        }
        while k < order.len()
            invariant
                self.wf(),
                files@.len() == self@.nodes.len(),
                fs == file_views(files@),
                listing(self@, order@),
                k <= order@.len(),
                combined@ == summary(self@, fs, order@.take(k as int)),
            decreases order@.len() - k,
        {
            let i = order[k];
            proof {
                assert(order@.take(k + 1).drop_last() =~= order@.take(k as int));
                assert(order@.take(k + 1).last() == i);
                assert(fs[i as int] == files@[i as int]@);
            }
            match &files[i].digest {
                Some(d) => combined.append(d.as_str()),
                None => combined.append("none"),
            }
            let label = self.status_of(i).name();
            combined.append(label.as_str());
            proof {
                let e = entry_text(self@, fs, i as int);
                assert(combined@ =~= summary(self@, fs, order@.take(k as int)) + e);
            }
            k += 1;
        }
        proof {
            assert(order@.take(k as int) =~= order@);
        }
        text_digest(combined.as_str())
    }

    /// Whether the run went well: no node failed, and none was lost to a
    /// failure before it.
    pub fn succeeded(&self) -> (r: bool)
        requires
            self.wf(),
        ensures
            r == all_well(self@),
    {
        let n = self.node_count();
        let mut i: usize = 0;
        while i < n
            invariant
                self.wf(),
                n == self@.nodes.len(),
                i <= n,
                forall|k: int| 0 <= k < i ==> !(#[trigger] self@.status[k]).failed(),
            decreases n - i,
        {
            if self.status_of(i).is_failed() {
                return false;
            }
            i += 1;
        }
        true
    }

    /// The predecessors of a node as the report lists them.
    pub fn predecessor_infos(&self, i: usize) -> (r: Vec<PredecessorInfo>)
        requires
            self.wf(),
            i < self@.nodes.len(),
        ensures
            r@.len() == predecessor_records(self@, i as int).len(),
            forall|k: int| 0 <= k < r@.len() ==> (#[trigger] r@[k])@ == predecessor_records(
                self@,
                i as int,
            )[k],
    {
        let preds = self.predecessors(i);
        let mut r: Vec<PredecessorInfo> = Vec::new();
        let mut k: usize = 0;
        while k < preds.len()
            invariant
                self.wf(),
                k <= preds@.len(),
                preds@.len() == self@.preds(i as int).len(),
                forall|j: int|
                    0 <= j < preds@.len() ==> preds@[j] as nat == #[trigger] self@.preds(
                        i as int,
                    )[j],
                forall|j: int| 0 <= j < preds@.len() ==> (#[trigger] preds@[j]) < self@.nodes.len(),
                r@.len() == k,
                forall|j: int|
                    0 <= j < k ==> (#[trigger] r@[j])@ == predecessor_records(self@, i as int)[j],
            decreases preds@.len() - k,
        {
            let p = preds[k];
            proof {
                assert(preds@[k as int] as nat == self@.preds(i as int)[k as int]);
            }
            r.push(PredecessorInfo { pathbuf: self.node(p).path.clone(), status: self.status_of(p) });
            k += 1;
        }
        r
    }

    /// The report of the run: one record per node, sorted by target path,
    /// for the next run to tell what has changed.
    pub fn save_digests(&self, files: &Vec<FileState>) -> (report: MakeOutput)
        requires
            self.wf(),
            files@.len() == self@.nodes.len(),
        ensures
            is_report(self@, file_views(files@), report@),
    {
        let order = self.sorted_nodes();
        let ghost fs = file_views(files@);
        let mut infos: Vec<OutputInfo> = Vec::new();
        let mut k: usize = 0;
        while k < order.len()
            invariant
                self.wf(),
                files@.len() == self@.nodes.len(),
                fs == file_views(files@),
                listing(self@, order@),
                k <= order@.len(),
                infos@.len() == k,
                forall|j: int| 0 <= j < k ==> (#[trigger] infos@[j])@ == record(
                    self@,
                    fs,
                    order@[j] as int,
                ),
            decreases order@.len() - k,
        {
            let i = order[k];
            let node = self.node(i);
            let info = OutputInfo {
                pathbuf: node.path.clone(),
                status: self.status_of(i),
                digest: clone_text(&files[i].digest),
                absolute_path: clone_text(&files[i].absolute_path),
                stdout_path: None,
                stderr_path: None,
                predecessors: self.predecessor_infos(i),
                expanded: self.is_expanded(i),
                tag: node.tag.clone(),
            };
            proof {
                assert(fs[i as int] == files@[i as int]@);
                assert(info@.predecessors =~= predecessor_records(self@, i as int));
                assert(info@ == record(self@, fs, i as int));
            }
            infos.push(info);
            k += 1;
        }
        let report = MakeOutput { nodes: infos };
        proof {
            assert(report@.len() == order@.len());
            assert forall|j: int| 0 <= j < order@.len() implies #[trigger] report@[j] == record(
                self@,
                fs,
                order@[j] as int,
            ) by {
                assert(report@[j] == infos@[j]@);
            }
            assert(listing(self@, order@));
        }
        report
    }
}

} // verus!
