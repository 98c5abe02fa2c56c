//! Plain data of the build graph: node statuses, edge provenance, node
//! descriptors and the records of the persisted report.
use vstd::prelude::*;

verus! {

/// The state of one node within a run.
///
/// `Initial` is where every node starts; `ScanIncomplete` and `Running` are
/// transient; every other value is terminal for the run.
#[derive(Debug, Clone, Copy, PartialEq, Eq, Hash, Structural)]
pub enum GNodeStatus {
    Initial,
    MountedChanged,
    MountedNotChanged,
    MountedFailed,
    ScanIncomplete,
    Running,
    BuildSuccess,
    BuildNotChanged,
    BuildNotRequired,
    BuildFailed,
    AncestorFailed,
}

/// Where an edge comes from. Only `Explicit` edges are declared by the owner
/// of the graph; the other two are found while a run is in progress.
#[derive(Debug, Clone, Copy, PartialEq, Eq, Hash, Structural)]
pub enum EdgeType {
    Explicit,
    Scanned,
    Expanded,
}

/// Which nodes are materialized from the source tree rather than built.
#[derive(Debug, Clone, Copy, PartialEq, Eq, Hash, Structural)]
pub enum RootRule {
    /// A node is a root when no edge at all points to it.
    NoIncoming,
    /// A node is a root when no `Explicit` edge points to it.
    NoExplicitIncoming,
}

impl GNodeStatus {
    /// The node has been materialized or built and can feed its dependents.
    pub open spec fn success(self) -> bool {
        self == GNodeStatus::MountedChanged || self == GNodeStatus::MountedNotChanged || self
            == GNodeStatus::BuildSuccess || self == GNodeStatus::BuildNotChanged || self
            == GNodeStatus::BuildNotRequired
    }

    /// The node's content is the same as in the previous run.
    pub open spec fn unchanged(self) -> bool {
        self == GNodeStatus::MountedNotChanged || self == GNodeStatus::BuildNotChanged || self
            == GNodeStatus::BuildNotRequired
    }

    /// The node failed, or cannot be built because something before it failed.
    pub open spec fn failed(self) -> bool {
        self == GNodeStatus::BuildFailed || self == GNodeStatus::MountedFailed || self
            == GNodeStatus::AncestorFailed
    }

    /// The status may still change within the run.
    pub open spec fn pending(self) -> bool {
        self == GNodeStatus::Initial || self == GNodeStatus::ScanIncomplete
    }

    /// The name under which the status enters the whole-graph digest.
    pub open spec fn label(self) -> Seq<char> {
        match self {
            GNodeStatus::Initial => "Initial"@,
            GNodeStatus::MountedChanged => "MountedChanged"@,
            GNodeStatus::MountedNotChanged => "MountedNotChanged"@,
            GNodeStatus::MountedFailed => "MountedFailed"@,
            GNodeStatus::ScanIncomplete => "ScanIncomplete"@,
            GNodeStatus::Running => "Running"@,
            GNodeStatus::BuildSuccess => "BuildSuccess"@,
            GNodeStatus::BuildNotChanged => "BuildNotChanged"@,
            GNodeStatus::BuildNotRequired => "BuildNotRequired"@,
            GNodeStatus::BuildFailed => "BuildFailed"@,
            GNodeStatus::AncestorFailed => "AncestorFailed"@,
        }
    }

    pub fn is_success(&self) -> (r: bool)
        ensures
            r == self.success(),
    {
        match self {
            GNodeStatus::MountedChanged
            | GNodeStatus::MountedNotChanged
            | GNodeStatus::BuildSuccess
            | GNodeStatus::BuildNotChanged
            | GNodeStatus::BuildNotRequired => true,
            _ => false,
        }
    }

    pub fn is_unchanged(&self) -> (r: bool)
        ensures
            r == self.unchanged(),
    {
        match self {
            GNodeStatus::MountedNotChanged
            | GNodeStatus::BuildNotChanged
            | GNodeStatus::BuildNotRequired => true,
            _ => false,
        }
    }

    pub fn is_failed(&self) -> (r: bool)
        ensures
            r == self.failed(),
    {
        match self {
            GNodeStatus::BuildFailed | GNodeStatus::MountedFailed | GNodeStatus::AncestorFailed => true,
            _ => false,
        }
    }

    pub fn is_pending(&self) -> (r: bool)
        ensures
            r == self.pending(),
    {
        match self {
            GNodeStatus::Initial | GNodeStatus::ScanIncomplete => true,
            _ => false,
        }
    }

    /// The status written out, as it stands in the whole-graph digest.
    pub fn name(&self) -> (r: String)
        ensures
            r@ == self.label(),
    {
        match self {
            GNodeStatus::Initial => "Initial".to_owned(),
            GNodeStatus::MountedChanged => "MountedChanged".to_owned(),
            GNodeStatus::MountedNotChanged => "MountedNotChanged".to_owned(),
            GNodeStatus::MountedFailed => "MountedFailed".to_owned(),
            GNodeStatus::ScanIncomplete => "ScanIncomplete".to_owned(),
            GNodeStatus::Running => "Running".to_owned(),
            GNodeStatus::BuildSuccess => "BuildSuccess".to_owned(),
            GNodeStatus::BuildNotChanged => "BuildNotChanged".to_owned(),
            GNodeStatus::BuildNotRequired => "BuildNotRequired".to_owned(),
            GNodeStatus::BuildFailed => "BuildFailed".to_owned(),
            GNodeStatus::AncestorFailed => "AncestorFailed".to_owned(),
        }
    }
}

/// A node as the engine knows it: its target path, relative to the sandbox,
/// and the tag that tells its kind.
#[derive(Debug, Clone)]
pub struct PathWithTag {
    pub path: String,
    pub tag: String,
}

/// What a `PathWithTag` stands for.
pub struct NodeSpec {
    pub path: Seq<char>,
    pub tag: Seq<char>,
}

impl View for PathWithTag {
    type V = NodeSpec;

    open spec fn view(&self) -> NodeSpec {
        NodeSpec { path: self.path@, tag: self.tag@ }
    }
}

impl PathWithTag {
    pub fn new(path: &str, tag: &str) -> (r: PathWithTag)
        ensures
            r@.path == path@,
            r@.tag == tag@,
    {
        PathWithTag { path: path.to_owned(), tag: tag.to_owned() }
    }

    /// A copy with the same path and tag.
    pub fn duplicate(&self) -> (r: PathWithTag)
        ensures
            r@ == self@,
    {
        PathWithTag { path: self.path.clone(), tag: self.tag.clone() }
    }
}

/// An edge proposed by a node that expands, given by the target paths of its
/// two ends: `nfrom` is the dependency, `nto` the dependent.
#[derive(Debug, Clone)]
pub struct Edge {
    pub nfrom: String,
    pub nto: String,
}

/// What an `Edge` stands for.
pub struct LinkSpec {
    pub from: Seq<char>,
    pub to: Seq<char>,
}

impl View for Edge {
    type V = LinkSpec;

    open spec fn view(&self) -> LinkSpec {
        LinkSpec { from: self.nfrom@, to: self.nto@ }
    }
}

impl Edge {
    pub fn new(nfrom: &str, nto: &str) -> (r: Edge)
        ensures
            r@.from == nfrom@,
            r@.to == nto@,
    {
        Edge { nfrom: nfrom.to_owned(), nto: nto.to_owned() }
    }
}

/// One predecessor of a node in the report.
#[derive(Debug, Clone)]
pub struct PredecessorInfo {
    pub pathbuf: String,
    pub status: GNodeStatus,
}

/// What a `PredecessorInfo` stands for.
pub struct PredecessorSpec {
    pub path: Seq<char>,
    pub status: GNodeStatus,
}

impl View for PredecessorInfo {
    type V = PredecessorSpec;

    open spec fn view(&self) -> PredecessorSpec {
        PredecessorSpec { path: self.pathbuf@, status: self.status }
    }
}

/// One node in the report.
#[derive(Debug, Clone)]
pub struct OutputInfo {
    pub pathbuf: String,
    pub status: GNodeStatus,
    pub digest: Option<String>,
    pub absolute_path: Option<String>,
    pub stdout_path: Option<String>,
    pub stderr_path: Option<String>,
    pub predecessors: Vec<PredecessorInfo>,
    pub expanded: bool,
    pub tag: String,
}

/// What an `OutputInfo` stands for.
pub struct OutputSpec {
    pub path: Seq<char>,
    pub status: GNodeStatus,
    pub digest: Option<Seq<char>>,
    pub absolute_path: Option<Seq<char>>,
    pub stdout_path: Option<Seq<char>>,
    pub stderr_path: Option<Seq<char>>,
    pub predecessors: Seq<PredecessorSpec>,
    pub expanded: bool,
    pub tag: Seq<char>,
}

/// The text of an optional string.
pub open spec fn text_of(s: Option<String>) -> Option<Seq<char>> {
    match s {
        Some(t) => Some(t@),
        None => None,
    }
}

impl View for OutputInfo {
    type V = OutputSpec;

    open spec fn view(&self) -> OutputSpec {
        OutputSpec {
            path: self.pathbuf@,
            status: self.status,
            digest: text_of(self.digest),
            absolute_path: text_of(self.absolute_path),
            stdout_path: text_of(self.stdout_path),
            stderr_path: text_of(self.stderr_path),
            predecessors: Seq::new(
                self.predecessors@.len(),
                |i: int| self.predecessors@[i]@,
            ),
            expanded: self.expanded,
            tag: self.tag@,
        }
    }
}

/// The report of a run: one record per node, sorted by path.
#[derive(Debug, Clone)]
pub struct MakeOutput {
    pub nodes: Vec<OutputInfo>,
}

impl View for MakeOutput {
    type V = Seq<OutputSpec>;

    open spec fn view(&self) -> Seq<OutputSpec> {
        Seq::new(self.nodes@.len(), |i: int| self.nodes@[i]@)
    }
}

impl MakeOutput {
    /// The report of a run that never happened.
    pub fn empty() -> (r: MakeOutput)
        ensures
            r@.len() == 0,
    {
        MakeOutput { nodes: Vec::new() }
    }
}

/// Why the graph refused a node or an edge.
#[derive(Debug)]
pub enum GraphError {
    /// A node with this target path is already in the graph.
    DuplicatePathBuf(String),
    /// An edge names a node that the graph does not hold.
    UnknownNode(usize),
    /// The graph holds as many nodes or edges as it can index.
    CapacityExceeded,
}

impl GraphError {
    /// The error in words.
    pub open spec fn text(self) -> Seq<char> {
        match self {
            GraphError::DuplicatePathBuf(p) => "Duplicate node pathbuf: \""@ + p@ + "\""@,
            GraphError::UnknownNode(_) => "Edge names a node that the graph does not hold"@,
            GraphError::CapacityExceeded => "The graph is full"@,
        }
    }

    /// The error in words.
    pub fn message(&self) -> (r: String)
        ensures
            r@ == self.text(),
    {
        match self {
            GraphError::DuplicatePathBuf(p) => "Duplicate node pathbuf: \"".to_owned().concat(
                p.as_str(),
            ).concat("\""),
            GraphError::UnknownNode(_) => "Edge names a node that the graph does not hold".to_owned(),
            GraphError::CapacityExceeded => "The graph is full".to_owned(),
        }
    }
}

/// A copy of an optional string.
pub fn clone_text(s: &Option<String>) -> (r: Option<String>)
    ensures
        text_of(r) == text_of(*s),
{
    match s {
        Some(t) => Some(t.clone()),
        None => None,
    }
}

} // verus!
