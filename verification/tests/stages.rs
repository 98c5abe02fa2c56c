//! The stages one by one, on small graphs.
use yamake::digest::{load_previous_digests, DigestTable};
use yamake::expand::ExpandResult;
use yamake::model::{Edge, EdgeType, GNodeStatus, MakeOutput, OutputInfo, PathWithTag};
use yamake::mount::MountOutcome;
use yamake::scan::{ScanOutcome, ScannedPath};
use yamake::schedule::{BuildOutcome, FileState, Route};
use yamake::state::G;

fn node(path: &str) -> PathWithTag {
    PathWithTag::new(path, "T")
}

fn recorded(entries: &[(&str, &str)]) -> DigestTable {
    let nodes = entries
        .iter()
        .map(|(path, digest)| OutputInfo {
            pathbuf: path.to_string(),
            status: GNodeStatus::BuildSuccess,
            digest: Some(digest.to_string()),
            absolute_path: None,
            stdout_path: None,
            stderr_path: None,
            predecessors: vec![],
            expanded: false,
            tag: "T".to_string(),
        })
        .collect();
    load_previous_digests(&MakeOutput { nodes })
}

fn file(digest: Option<&str>) -> FileState {
    FileState { digest: digest.map(|d| d.to_string()), absolute_path: None }
}

fn statuses(g: &G) -> Vec<GNodeStatus> {
    (0..g.node_count()).map(|i| g.status_of(i)).collect()
}

#[test]
fn mount_classifies_roots() {
    let mut g = G::new("src", "sandbox");
    let a = g.add_root_node(node("a")).unwrap();
    let b = g.add_root_node(node("b")).unwrap();
    let c = g.add_root_node(node("c")).unwrap();
    let d = g.add_root_node(node("d")).unwrap();
    let e = g.add_node(node("e")).unwrap();
    g.add_edge(a, e).unwrap();
    assert_eq!(g.mount_targets(), vec![a, b, c, d]);
    let previous = recorded(&[("a", "1"), ("b", "2"), ("d", "4")]);
    let outcomes = vec![
        MountOutcome { copied: true, digest: Some("1".to_string()) },
        MountOutcome { copied: true, digest: Some("other".to_string()) },
        MountOutcome { copied: true, digest: Some("3".to_string()) },
        MountOutcome { copied: false, digest: Some("4".to_string()) },
    ];
    g.mount_root_nodes(&vec![a, b, c, d], &outcomes, &previous);
    assert_eq!(
        statuses(&g),
        vec![
            GNodeStatus::MountedNotChanged,
            GNodeStatus::MountedChanged,
            GNodeStatus::MountedChanged,
            GNodeStatus::MountedFailed,
            GNodeStatus::Initial,
        ]
    );
    // roots that are settled are not mounted again
    assert_eq!(g.mount_targets(), Vec::<usize>::new());
    assert!(!g.succeeded());
    let unreadable = MountOutcome { copied: true, digest: None };
    let mut h = G::new("src", "sandbox");
    h.add_root_node(node("a")).unwrap();
    h.mount_root_nodes(&vec![0], &vec![unreadable], &previous);
    assert_eq!(h.status_of(0), GNodeStatus::MountedChanged);
    assert!(h.succeeded());
}

#[test]
fn scan_incomplete_is_reset() {
    let mut g = G::new("src", "sandbox");
    for p in ["a", "b", "c"] {
        g.add_node(node(p)).unwrap();
    }
    g.set_status(0, GNodeStatus::ScanIncomplete);
    g.set_status(1, GNodeStatus::BuildFailed);
    g.reset_scan_incomplete();
    assert_eq!(statuses(&g), vec![GNodeStatus::Initial, GNodeStatus::BuildFailed, GNodeStatus::Initial]);
    g.replace_status(GNodeStatus::Initial, GNodeStatus::Running);
    assert_eq!(statuses(&g), vec![GNodeStatus::Running, GNodeStatus::BuildFailed, GNodeStatus::Running]);
    g.reset_all();
    assert_eq!(statuses(&g), vec![GNodeStatus::Initial; 3]);
}

#[test]
fn expand_takes_the_first_node_of_a_path() {
    let mut g = G::new("src", "sandbox");
    let a = g.add_root_node(node("a")).unwrap();
    let b = g.add_node(node("b")).unwrap();
    g.add_edge(a, b).unwrap();
    g.set_status(a, GNodeStatus::MountedChanged);
    g.set_status(b, GNodeStatus::BuildFailed);
    assert_eq!(g.expand_targets(), vec![a]);
    let proposal = ExpandResult {
        nodes: vec![
            PathWithTag::new("c", "First"),
            PathWithTag::new("c", "Second"),
            PathWithTag::new("a", "Other"),
        ],
        edges: vec![
            Edge::new("c", "b"),
            Edge::new("c", "b"),
            Edge::new("a", "b"),
            Edge::new("nowhere", "b"),
            Edge::new("a", "c"),
        ],
    };
    g.expand_single_node(&proposal);
    assert_eq!(g.node_count(), 3);
    assert_eq!(g.node(2).tag, "First");
    assert_eq!(g.node(0).tag, "T");
    assert!(g.is_expanded(2));
    assert!(!g.is_expanded(0));
    assert_eq!(g.status_of(2), GNodeStatus::Initial);
    // the failed dependent gets another chance
    assert_eq!(g.status_of(b), GNodeStatus::Initial);
    assert_eq!(g.edge_count(), 3);
    assert_eq!(g.edge(1), (2, b, EdgeType::Expanded));
    assert_eq!(g.edge(2), (a, 2, EdgeType::Expanded));
    assert_eq!(g.status_count(), 3);
    // the same proposal again changes nothing
    g.set_status(b, GNodeStatus::BuildFailed);
    let before = g.to_mermaid();
    g.expand_single_node(&proposal);
    assert_eq!(g.to_mermaid(), before);
    assert_eq!(g.status_of(b), GNodeStatus::BuildFailed);
    g.expand_nodes(&vec![proposal.clone(), ExpandResult::empty(), proposal]);
    assert_eq!(g.to_mermaid(), before);
}

#[test]
fn scan_adds_edges_and_waits_for_what_is_not_there() {
    let mut g = G::new("src", "sandbox");
    let c = g.add_root_node(node("main.c")).unwrap();
    let h = g.add_root_node(node("main.h")).unwrap();
    let gen = g.add_node(node("gen.h")).unwrap();
    let o = g.add_node(node("main.o")).unwrap();
    let p = g.add_node(node("other.o")).unwrap();
    g.add_edge(c, o).unwrap();
    g.add_edge(c, p).unwrap();
    g.add_edge(c, gen).unwrap();
    g.set_status(c, GNodeStatus::MountedChanged);
    g.set_status(h, GNodeStatus::MountedNotChanged);
    assert_eq!(g.scan_targets(), vec![gen, o, p]);
    let path = |p: &str, exists: bool| ScannedPath { path: p.to_string(), exists };
    // every path is a settled node or a file in the sandbox
    g.scan_single_node(
        o,
        &ScanOutcome { complete: true, paths: vec![path("main.h", true), path("sys.h", true), path("main.c", true)] },
    );
    assert_eq!(g.status_of(o), GNodeStatus::Initial);
    assert_eq!(g.edge_count(), 4);
    assert_eq!(g.edge(3), (h, o, EdgeType::Scanned));
    assert_eq!(g.predecessors(o), vec![h, c]);
    // a node that is not built yet, and a file that is nowhere
    g.scan_single_node(p, &ScanOutcome { complete: true, paths: vec![path("gen.h", true)] });
    assert_eq!(g.status_of(p), GNodeStatus::ScanIncomplete);
    assert_eq!(g.edge(4), (gen, p, EdgeType::Scanned));
    g.set_status(p, GNodeStatus::Initial);
    g.scan_single_node(p, &ScanOutcome { complete: true, paths: vec![path("nowhere.h", false)] });
    assert_eq!(g.status_of(p), GNodeStatus::ScanIncomplete);
    assert_eq!(g.edge_count(), 5);
    // an incomplete scan, and a node that is settled anyway
    g.scan_single_node(o, &ScanOutcome { complete: false, paths: vec![] });
    assert_eq!(g.status_of(o), GNodeStatus::ScanIncomplete);
    g.set_status(o, GNodeStatus::BuildSuccess);
    g.scan_nodes(&vec![o], &vec![ScanOutcome { complete: false, paths: vec![path("gen.h", false)] }]);
    assert_eq!(g.status_of(o), GNodeStatus::BuildSuccess);
    assert_eq!(g.edge(5), (gen, o, EdgeType::Scanned));
}

#[test]
fn build_stage_routes() {
    let mut g = G::new("src", "sandbox");
    let root = g.add_root_node(node("root")).unwrap();
    let same = g.add_root_node(node("same")).unwrap();
    let bad = g.add_root_node(node("bad")).unwrap();
    let open = g.add_root_node(node("open")).unwrap();
    let build = g.add_node(node("build")).unwrap();
    let skip = g.add_node(node("skip")).unwrap();
    let stale = g.add_node(node("stale")).unwrap();
    let lost = g.add_node(node("lost")).unwrap();
    let wait = g.add_node(node("wait")).unwrap();
    let rescan = g.add_node(node("rescan")).unwrap();
    let next = g.add_node(node("next")).unwrap();
    g.add_edge(root, build).unwrap();
    g.add_edge(same, build).unwrap();
    g.add_edge(same, skip).unwrap();
    g.add_edge(same, stale).unwrap();
    g.add_edge(bad, lost).unwrap();
    g.add_edge(same, lost).unwrap();
    g.add_edge(open, wait).unwrap();
    g.add_edge(same, rescan).unwrap();
    g.add_edge(skip, next).unwrap();
    g.set_status(root, GNodeStatus::MountedChanged);
    g.set_status(same, GNodeStatus::MountedNotChanged);
    g.set_status(bad, GNodeStatus::MountedFailed);
    g.set_status(rescan, GNodeStatus::ScanIncomplete);
    let previous = recorded(&[("build", "b"), ("skip", "s"), ("stale", "old"), ("next", "n")]);
    let mut files = vec![file(None); 11];
    files[build] = file(Some("b"));
    files[skip] = file(Some("s"));
    files[stale] = file(Some("new"));
    files[next] = file(Some("n"));
    assert_eq!(g.route_of(root, &files[root], &previous), Route::Leave);
    assert_eq!(g.route_of(open, &files[open], &previous), Route::Leave);
    assert_eq!(g.route_of(build, &files[build], &previous), Route::Build);
    assert_eq!(g.route_of(skip, &files[skip], &previous), Route::NotRequired);
    assert_eq!(g.route_of(stale, &files[stale], &previous), Route::Build);
    assert_eq!(g.route_of(lost, &files[lost], &previous), Route::AncestorFailed);
    assert_eq!(g.route_of(wait, &files[wait], &previous), Route::Leave);
    assert_eq!(g.route_of(rescan, &files[rescan], &previous), Route::Leave);
    assert_eq!(g.route_of(next, &files[next], &previous), Route::Leave);
    assert_eq!(g.predecessor_summary(lost), (true, false, false));
    assert_eq!(g.predecessor_summary(build), (false, true, false));
    assert_eq!(g.predecessor_summary(skip), (false, true, true));
    assert_eq!(g.predecessor_summary(root), (false, true, true));
    let plan = g.plan_builds(&files, &previous);
    assert_eq!(plan.jobs, vec![build, stale]);
    assert_eq!(plan.discard, vec![lost]);
    assert_eq!(g.status_of(build), GNodeStatus::Running);
    assert_eq!(g.status_of(stale), GNodeStatus::Running);
    assert_eq!(g.status_of(skip), GNodeStatus::BuildNotRequired);
    assert_eq!(g.status_of(lost), GNodeStatus::AncestorFailed);
    assert_eq!(g.status_of(wait), GNodeStatus::Initial);
    assert_eq!(g.status_of(rescan), GNodeStatus::ScanIncomplete);
    // what was decided for `skip` does not bear on `next` in the same stage
    assert_eq!(g.status_of(next), GNodeStatus::Initial);
    // a node whose scan is incomplete is lost all the same once a
    // predecessor has failed
    g.add_edge(bad, rescan).unwrap();
    assert_eq!(g.route_of(rescan, &files[rescan], &previous), Route::AncestorFailed);
    let plan = g.plan_builds(&files, &previous);
    assert_eq!(plan.jobs, Vec::<usize>::new());
    assert_eq!(plan.discard, vec![rescan]);
    assert_eq!(g.status_of(next), GNodeStatus::BuildNotRequired);
}

#[test]
fn build_results_and_the_spread_of_failure() {
    let mut g = G::new("src", "sandbox");
    let names = ["a", "b", "c", "d", "e", "f", "g"];
    for n in names {
        g.add_node(node(n)).unwrap();
    }
    // a -> c -> d -> e, b -> f, g alone; d -> c closes a circle
    g.add_edge(0, 2).unwrap();
    g.add_edge(2, 3).unwrap();
    g.add_edge(3, 4).unwrap();
    g.add_edge(1, 5).unwrap();
    g.add_edge(3, 2).unwrap();
    for i in 0..7 {
        g.set_status(i, GNodeStatus::BuildSuccess);
    }
    let previous = recorded(&[("b", "same"), ("g", "old")]);
    let outcome = |ok: bool, exists: bool, digest: Option<&str>| BuildOutcome {
        ok,
        exists,
        digest: digest.map(|d| d.to_string()),
    };
    let lost = g.build_nodes(
        &vec![0, 1, 6],
        &vec![outcome(false, true, Some("x")), outcome(true, true, Some("same")), outcome(true, true, Some("new"))],
        &previous,
    );
    assert_eq!(lost, vec![2, 3, 4]);
    assert_eq!(
        statuses(&g),
        vec![
            GNodeStatus::BuildFailed,
            GNodeStatus::BuildNotChanged,
            GNodeStatus::AncestorFailed,
            GNodeStatus::AncestorFailed,
            GNodeStatus::AncestorFailed,
            GNodeStatus::BuildSuccess,
            GNodeStatus::BuildSuccess,
        ]
    );
    // a build that leaves no output has failed
    let lost = g.build_nodes(&vec![1], &vec![outcome(true, false, None)], &previous);
    assert_eq!(lost, vec![5]);
    assert_eq!(g.status_of(1), GNodeStatus::BuildFailed);
    assert_eq!(g.status_of(5), GNodeStatus::AncestorFailed);
    // an output that cannot be read counts as new
    let lost = g.build_nodes(&vec![6], &vec![outcome(true, true, None)], &previous);
    assert!(lost.is_empty());
    assert_eq!(g.status_of(6), GNodeStatus::BuildSuccess);
    // a node that depends on itself is lost to its own failure
    let lost = g.build_nodes(&vec![2], &vec![outcome(false, false, None)], &previous);
    assert_eq!(lost, vec![2, 3, 4]);
    assert_eq!(g.status_of(2), GNodeStatus::AncestorFailed);
    assert_eq!(g.status_of(3), GNodeStatus::AncestorFailed);
    assert!(!g.succeeded());
}

#[test]
fn reach_follows_edges_either_way() {
    let mut g = G::new("src", "sandbox");
    for n in ["a", "b", "c", "d"] {
        g.add_node(node(n)).unwrap();
    }
    g.add_edge(0, 1).unwrap();
    g.add_edge(1, 2).unwrap();
    assert_eq!(g.reach(&vec![0], false), vec![true, true, true, false]);
    assert_eq!(g.reach(&vec![1], false), vec![false, true, true, false]);
    assert_eq!(g.reach(&vec![1], true), vec![true, true, false, false]);
    assert_eq!(g.reach(&vec![3, 2], true), vec![true, true, true, true]);
    assert_eq!(g.reach(&vec![], false), vec![false; 4]);
}
