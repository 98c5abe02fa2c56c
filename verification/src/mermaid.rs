//! The graph as a Mermaid flowchart: the shape of a node tells whether it
//! has predecessors, its colour tells its status, and the style of an edge
//! tells where the edge comes from.
use crate::helpers::path::file_name;
use crate::helpers::path::file_name_of;
use crate::model::EdgeType;
use crate::model::GNodeStatus;
use crate::state::GraphState;
use crate::state::G;
use vstd::prelude::*;

verus! {

/// The text of a decimal digit.
pub open spec fn digit_text(d: nat) -> Seq<char> {
    if d == 0 {
        "0"@
    } else if d == 1 {
        "1"@
    } else if d == 2 {
        "2"@
    } else if d == 3 {
        "3"@
    } else if d == 4 {
        "4"@
    } else if d == 5 {
        "5"@
    } else if d == 6 {
        "6"@
    } else if d == 7 {
        "7"@
    } else if d == 8 {
        "8"@
    } else {
        "9"@
    }
}

/// A number written in decimal.
pub open spec fn decimal_text(n: nat) -> Seq<char>
    decreases n,
{
    if n < 10 {
        digit_text(n)
    } else {
        decimal_text(n / 10) + digit_text(n % 10)
    }
}

/// The fill and stroke of a node with the given status.
pub open spec fn style_text(st: GNodeStatus) -> Seq<char> {
    match st {
        GNodeStatus::Initial => "fill:#f9f9f9,stroke:#999"@,
        GNodeStatus::MountedChanged => "fill:#90EE90,stroke:#228B22"@,
        GNodeStatus::MountedNotChanged => "fill:#ADD8E6,stroke:#4169E1"@,
        GNodeStatus::MountedFailed => "fill:#FFB6C1,stroke:#DC143C"@,
        GNodeStatus::ScanIncomplete => "fill:#FFFACD,stroke:#DAA520"@,
        GNodeStatus::Running => "fill:#87CEEB,stroke:#00CED1"@,
        GNodeStatus::BuildSuccess => "fill:#98FB98,stroke:#32CD32"@,
        GNodeStatus::BuildNotChanged => "fill:#D8BFD8,stroke:#8A2BE2"@,
        GNodeStatus::BuildNotRequired => "fill:#E6E6FA,stroke:#9370DB"@,
        GNodeStatus::BuildFailed => "fill:#FF6347,stroke:#B22222"@,
        GNodeStatus::AncestorFailed => "fill:#FFA07A,stroke:#FF4500"@,
    }
}

/// The arrow of an edge of the given provenance.
pub open spec fn arrow_text(kind: EdgeType) -> Seq<char> {
    match kind {
        EdgeType::Explicit => "-->"@,
        EdgeType::Scanned => "-.->"@,
        EdgeType::Expanded => "==>"@,
    }
}

/// The colour of an edge of the given provenance.
pub open spec fn color_text(kind: EdgeType) -> Seq<char> {
    match kind {
        EdgeType::Explicit => "#333"@,
        EdgeType::Scanned => "#2196F3"@,
        EdgeType::Expanded => "#FF9800"@,
    }
}

/// The name under which a path is shown: its file name, or the whole path
/// if it has none.
pub open spec fn shown_name(p: Seq<char>) -> Seq<char> {
    if file_name_of(p).len() == 0 {
        p
    } else {
        file_name_of(p)
    }
}

/// The line that declares node `i`: its tag and the name of its file, in a
/// box with doubled sides if the node has predecessors, in a rounded box if
/// not.
pub open spec fn node_line(s: GraphState, i: int) -> Seq<char> {
    let label = s.nodes[i].tag + "<br>"@ + shown_name(s.nodes[i].path);
    if s.preds(i).len() > 0 {
        "    n"@ + decimal_text(i as nat) + "[[\""@ + label + "\"]];"@
    } else {
        "    n"@ + decimal_text(i as nat) + "([\""@ + label + "\"])"@
    }
}

/// The line that draws edge `e`.
pub open spec fn edge_line(s: GraphState, e: int) -> Seq<char> {
    "    n"@ + decimal_text(s.edges[e].0) + " "@ + arrow_text(s.kinds[e]) + " n"@ + decimal_text(
        s.edges[e].1,
    )
}

/// The line that colours node `i`.
pub open spec fn style_line(s: GraphState, i: int) -> Seq<char> {
    "    style n"@ + decimal_text(i as nat) + " "@ + style_text(s.status[i])
}

/// The line that colours edge `e`.
pub open spec fn link_line(s: GraphState, e: int) -> Seq<char> {
    "    linkStyle "@ + decimal_text(e as nat) + " stroke:"@ + color_text(s.kinds[e])
        + ",stroke-width:2px"@
}

/// The lines of the first `k` nodes, each behind a line break.
pub open spec fn node_lines(s: GraphState, k: nat) -> Seq<char>
    decreases k,
{
    if k == 0 {
        Seq::empty()
    } else {
        node_lines(s, (k - 1) as nat) + "\n"@ + node_line(s, k - 1)
    }
}

/// The lines of the first `k` edges, each behind a line break.
pub open spec fn edge_lines(s: GraphState, k: nat) -> Seq<char>
    decreases k,
{
    if k == 0 {
        Seq::empty()
    } else {
        edge_lines(s, (k - 1) as nat) + "\n"@ + edge_line(s, k - 1)
    }
}

/// The colours of the first `k` nodes, each behind a line break.
pub open spec fn style_lines(s: GraphState, k: nat) -> Seq<char>
    decreases k,
{
    if k == 0 {
        Seq::empty()
    } else {
        style_lines(s, (k - 1) as nat) + "\n"@ + style_line(s, k - 1)
    }
}

/// The colours of the first `k` edges, each behind a line break.
pub open spec fn link_lines(s: GraphState, k: nat) -> Seq<char>
    decreases k,
{
    if k == 0 {
        Seq::empty()
    } else {
        link_lines(s, (k - 1) as nat) + "\n"@ + link_line(s, k - 1)
    }
}

/// The flowchart: the header, the nodes, the edges, the colours of the
/// nodes, the colours of the edges.
pub open spec fn mermaid_text(s: GraphState) -> Seq<char> {
    "flowchart LR"@ + node_lines(s, s.nodes.len()) + edge_lines(s, s.edges.len()) + style_lines(
        s,
        s.nodes.len(),
    ) + link_lines(s, s.edges.len())
}

/// A decimal digit as text.
fn digit(d: usize) -> (r: &'static str)
    requires
        d < 10,
    ensures
        r@ == digit_text(d as nat),
{
    if d == 0 {
        "0"
    } else if d == 1 {
        "1"
    } else if d == 2 {
        "2"
    } else if d == 3 {
        "3"
    } else if d == 4 {
        "4"
    } else if d == 5 {
        "5"
    } else if d == 6 {
        "6"
    } else if d == 7 {
        "7"
    } else if d == 8 {
        "8"
    } else {
        "9"
    }
}

/// A number written in decimal.
pub fn decimal(n: usize) -> (r: String)
    ensures
        r@ == decimal_text(n as nat),
    decreases n,
{
    if n < 10 {
        digit(n).to_owned()
    } else {
        decimal(n / 10).concat(digit(n % 10))
    }
}

/// The fill and stroke of a node with the given status.
pub fn style_of(st: GNodeStatus) -> (r: &'static str)
    ensures
        r@ == style_text(st),
{
    match st {
        GNodeStatus::Initial => "fill:#f9f9f9,stroke:#999",
        GNodeStatus::MountedChanged => "fill:#90EE90,stroke:#228B22",
        GNodeStatus::MountedNotChanged => "fill:#ADD8E6,stroke:#4169E1",
        GNodeStatus::MountedFailed => "fill:#FFB6C1,stroke:#DC143C",
        GNodeStatus::ScanIncomplete => "fill:#FFFACD,stroke:#DAA520",
        GNodeStatus::Running => "fill:#87CEEB,stroke:#00CED1",
        GNodeStatus::BuildSuccess => "fill:#98FB98,stroke:#32CD32",
        GNodeStatus::BuildNotChanged => "fill:#D8BFD8,stroke:#8A2BE2",
        GNodeStatus::BuildNotRequired => "fill:#E6E6FA,stroke:#9370DB",
        GNodeStatus::BuildFailed => "fill:#FF6347,stroke:#B22222",
        GNodeStatus::AncestorFailed => "fill:#FFA07A,stroke:#FF4500",
    }
}

/// The arrow of an edge of the given provenance.
pub fn arrow_of(kind: EdgeType) -> (r: &'static str)
    ensures
        r@ == arrow_text(kind),
{
    match kind {
        EdgeType::Explicit => "-->",
        EdgeType::Scanned => "-.->",
        EdgeType::Expanded => "==>",
    }
}

/// The colour of an edge of the given provenance.
pub fn color_of(kind: EdgeType) -> (r: &'static str)
    ensures
        r@ == color_text(kind),
{
    match kind {
        EdgeType::Explicit => "#333",
        EdgeType::Scanned => "#2196F3",
        EdgeType::Expanded => "#FF9800",
    }
}

impl G {
    /// The graph as a Mermaid flowchart.
    pub fn to_mermaid(&self) -> (r: String)
        requires
            self.wf(),
        ensures
            r@ == mermaid_text(self@),
    {
        let n = self.node_count();
        let m = self.edge_count();
        let mut out = "flowchart LR".to_owned();
        let mut i: usize = 0;
        while i < n
            invariant
                self.wf(),
                n == self@.nodes.len(),
                i <= n,
                out@ == "flowchart LR"@ + node_lines(self@, i as nat),
            decreases n - i,
        {
            let ghost before = out@;
            let node = self.node(i);
            let boxed = self.predecessors(i).len() > 0;
            out.append("\n");
            out.append("    n");
            out.append(decimal(i).as_str());
            out.append(if boxed {
                "[[\""
            } else {
                "([\""
            });
            out.append(node.tag.as_str());
            out.append("<br>");
            let name = file_name(node.path.as_str());
            if name.as_str().unicode_len() == 0 {
                out.append(node.path.as_str());
            } else {
                out.append(name.as_str());
            }
            out.append(if boxed {
                "\"]];"
            } else {
                "\"])"
            });
            proof {
                assert(out@ =~= before + "\n"@ + node_line(self@, i as int));
                assert(out@ =~= "flowchart LR"@ + node_lines(self@, (i + 1) as nat));
            }
            i += 1;
        }
        let ghost head = out@;
        let mut e: usize = 0;
        while e < m
            invariant
                self.wf(),
                m == self@.edges.len(),
                e <= m,
                out@ == head + edge_lines(self@, e as nat),
            decreases m - e,
        {
            let ghost before = out@;
            let ed = self.edge(e);
            out.append("\n");
            out.append("    n");
            out.append(decimal(ed.0).as_str());
            out.append(" ");
            out.append(arrow_of(ed.2));
            out.append(" n");
            out.append(decimal(ed.1).as_str());
            proof {
                assert(out@ =~= before + "\n"@ + edge_line(self@, e as int));
                assert(out@ =~= head + edge_lines(self@, (e + 1) as nat));
            }
            e += 1;
        }
        let ghost head = out@;
        let mut i: usize = 0;
        while i < n
            invariant
                self.wf(),
                n == self@.nodes.len(),
                i <= n,
                out@ == head + style_lines(self@, i as nat),
            decreases n - i,
        {
            let ghost before = out@;
            out.append("\n");
            out.append("    style n");
            out.append(decimal(i).as_str());
            out.append(" ");
            out.append(style_of(self.status_of(i)));
            proof {
                assert(out@ =~= before + "\n"@ + style_line(self@, i as int));
                assert(out@ =~= head + style_lines(self@, (i + 1) as nat));
            }
            i += 1;
        }
        let ghost head = out@;
        let mut e: usize = 0;
        while e < m
            invariant
                self.wf(),
                m == self@.edges.len(),
                e <= m,
                out@ == head + link_lines(self@, e as nat),
            decreases m - e,
        {
            let ghost before = out@;
            let ed = self.edge(e);
            out.append("\n");
            out.append("    linkStyle ");
            out.append(decimal(e).as_str());
            out.append(" stroke:");
            out.append(color_of(ed.2));
            out.append(",stroke-width:2px");
            proof {
                assert(out@ =~= before + "\n"@ + link_line(self@, e as int));
                assert(out@ =~= head + link_lines(self@, (e + 1) as nat));
            }
            e += 1;
        }
        out
    }
}

} // verus!
