//! Whole runs of the engine against a sandbox held in memory.
use std::collections::HashMap;

use yamake::c_nodes::{AFile, CFile, HFile, OFile, XFile};
use yamake::digest::compute_file_digest;
use yamake::expand::ExpandResult;
use yamake::make::{Make, MakeAction, MakeEvent, MakePhase, NodeRequest};
use yamake::model::{Edge, EdgeType, GNodeStatus, GraphError, MakeOutput, PathWithTag, RootRule};
use yamake::mount::MountOutcome;
use yamake::scan::ScanOutcome;
use yamake::scanner::{find_references, IncludeScan, Reference};
use yamake::schedule::{BuildOutcome, FileState};
use yamake::state::G;

/// A source tree, a sandbox and the report of the last run, all in memory.
struct World {
    source: HashMap<String, String>,
    sandbox: HashMap<String, String>,
    report: Option<MakeOutput>,
    passes: usize,
    builds: Vec<String>,
}

impl World {
    fn new() -> World {
        World {
            source: HashMap::new(),
            sandbox: HashMap::new(),
            report: None,
            passes: 0,
            builds: Vec::new(),
        }
    }

    fn write_source(&mut self, path: &str, content: &str) {
        self.source.insert(path.to_string(), content.to_string());
    }

    fn file_state(&self, path: &str) -> FileState {
        match self.sandbox.get(path) {
            Some(content) => FileState {
                digest: Some(compute_file_digest(content.as_bytes())),
                absolute_path: Some(format!("/sandbox/{path}")),
            },
            None => FileState { digest: None, absolute_path: None },
        }
    }

    fn scan_into(&self, path: &str, scan: &mut IncludeScan) {
        let content = match self.sandbox.get(path) {
            Some(c) => c.clone(),
            None => {
                scan.missing();
                return;
            }
        };
        for header in find_references(Reference::CInclude, &content) {
            if !scan.visit(&header) {
                continue;
            }
            if self.sandbox.contains_key(&header) {
                self.scan_into(&header, scan);
            } else {
                scan.missing();
            }
        }
    }

    fn scan(&self, req: &NodeRequest) -> ScanOutcome {
        if req.tag != "OFile" {
            return ScanOutcome::nothing();
        }
        let mut scan = IncludeScan::new();
        for pred in req.predecessors.iter().filter(|p| p.tag == "CFile") {
            self.scan_into(&pred.path, &mut scan);
        }
        let exists = scan.found().iter().map(|p| self.sandbox.contains_key(p)).collect();
        scan.outcome(&exists)
    }

    fn strip_comments(content: &str) -> String {
        content
            .lines()
            .filter(|l| !l.trim_start().starts_with("//") && !l.trim().is_empty())
            .collect::<Vec<_>>()
            .join("\n")
    }

    fn build(&mut self, req: &NodeRequest) -> bool {
        self.builds.push(req.path.clone());
        match req.tag.as_str() {
            "CFile" | "HFile" | "YmlDesc" => true,
            "OFile" => {
                let mut out = String::new();
                for pred in &req.predecessors {
                    let content = match self.sandbox.get(&pred.path) {
                        Some(c) => c.clone(),
                        None => return false,
                    };
                    if content.contains("xxx") {
                        return false;
                    }
                    if pred.tag == "CFile" {
                        out.push_str(&World::strip_comments(&content));
                    }
                }
                self.sandbox.insert(req.path.clone(), format!("obj({out})"));
                true
            }
            "AFile" | "XFile" => {
                let mut out = String::new();
                for pred in &req.predecessors {
                    match self.sandbox.get(&pred.path) {
                        Some(c) => out.push_str(c),
                        None => return false,
                    }
                }
                self.sandbox.insert(req.path.clone(), format!("{}({out})", req.tag));
                true
            }
            "JsonDesc" => {
                let content = self.sandbox.get(&req.predecessors[0].path).unwrap().clone();
                self.sandbox.insert(req.path.clone(), content);
                true
            }
            "Liar" => true,
            _ => false,
        }
    }

    fn expand(&mut self, req: &NodeRequest) -> ExpandResult {
        if req.tag != "JsonDesc" {
            return ExpandResult::empty();
        }
        let content = self.sandbox.get(&req.path).unwrap().clone();
        let mut nodes = Vec::new();
        let mut edges = Vec::new();
        for lang in content.lines().filter(|l| !l.is_empty()) {
            let c_path = format!("generated/{lang}.c");
            let o_path = format!("generated/{lang}.o");
            self.sandbox.insert(c_path.clone(), format!("hello {lang}"));
            nodes.push(CFile::new(&c_path).node());
            nodes.push(OFile::new(&o_path, vec![], vec![]).node());
            edges.push(Edge::new(&req.path, &c_path));
            edges.push(Edge::new(&c_path, &o_path));
            edges.push(Edge::new(&o_path, "generated/liblangs.a"));
        }
        ExpandResult { nodes, edges }
    }

    fn perform(&mut self, action: MakeAction) -> Result<MakeEvent, bool> {
        Ok(match action {
            MakeAction::LoadReport => {
                MakeEvent::Report(self.report.clone().unwrap_or_else(MakeOutput::empty))
            }
            MakeAction::Snapshot(paths) => {
                MakeEvent::Snapshot(paths.iter().map(|p| self.file_state(p)).collect())
            }
            MakeAction::Mount(reqs) => {
                self.passes += 1;
                let mut outcomes = Vec::new();
                for req in &reqs {
                    match self.source.get(&req.path).cloned() {
                        Some(content) => {
                            let digest = compute_file_digest(content.as_bytes());
                            self.sandbox.insert(req.path.clone(), content);
                            outcomes.push(MountOutcome { copied: true, digest: Some(digest) });
                        }
                        None => outcomes.push(MountOutcome { copied: false, digest: None }),
                    }
                }
                MakeEvent::Mounted(outcomes)
            }
            MakeAction::Expand(reqs) => {
                MakeEvent::Expanded(reqs.iter().map(|r| self.expand(r)).collect())
            }
            MakeAction::Scan(reqs) => MakeEvent::Scanned(reqs.iter().map(|r| self.scan(r)).collect()),
            MakeAction::Build { jobs, discard } => {
                for path in &discard {
                    self.sandbox.remove(path);
                }
                let mut outcomes = Vec::new();
                for job in &jobs {
                    let ok = self.build(job);
                    let state = self.file_state(&job.path);
                    outcomes.push(BuildOutcome {
                        ok,
                        exists: self.sandbox.contains_key(&job.path),
                        digest: state.digest,
                    });
                }
                MakeEvent::Built(outcomes)
            }
            MakeAction::Finish { report, success } => {
                self.report = Some(report);
                return Err(success);
            }
            MakeAction::Rejected => panic!("the engine rejected an event"),
        })
    }
}

/// Runs the graph to the end and returns the verdict.
fn make(g: &mut G, world: &mut World) -> bool {
    let mut run = Make::new();
    let mut event = MakeEvent::Start;
    for _ in 0..10_000 {
        let action = g.make(&mut run, event);
        assert_eq!(g.status_count(), g.node_count());
        match world.perform(action) {
            Ok(next) => event = next,
            Err(success) => return success,
        }
    }
    panic!("the run did not end");
}

struct Project {
    g: G,
    main_c: usize,
    main_o: usize,
    add_c: usize,
    add_o: usize,
    add_h: usize,
    wrapper_h: usize,
    project_a: usize,
    app: usize,
}

fn c_project(world: &mut World) -> Project {
    world.write_source("project_1/main.c", "#include \"project_1/wrapper.h\"\nint main() { return add(1, 2); }\n");
    world.write_source("project_1/add.c", "#include \"project_1/add.h\"\nint add(int a, int b) { return a + b; }\n");
    world.write_source("project_1/add.h", "int add(int a, int b);\n");
    world.write_source("project_1/wrapper.h", "#include \"project_1/add.h\"\n");
    let mut g = G::new("demo_projects", "sandbox");
    let main_c = g.add_root_node(CFile::new("project_1/main.c").node()).unwrap();
    let main_o = g.add_node(OFile::new("project_1/main.o", vec![], vec![]).node()).unwrap();
    let add_c = g.add_root_node(CFile::new("project_1/add.c").node()).unwrap();
    let add_o = g
        .add_node(OFile::new("project_1/add.o", vec![], vec!["-DYYY_defined".to_string()]).node())
        .unwrap();
    let add_h = g.add_root_node(HFile::new("project_1/add.h").node()).unwrap();
    let wrapper_h = g.add_root_node(HFile::new("project_1/wrapper.h").node()).unwrap();
    let project_a = g.add_node(AFile::new("project_1/libproject.a").node()).unwrap();
    let app = g.add_node(XFile::new("project_1/app").node()).unwrap();
    g.add_edge(main_c, main_o).unwrap();
    g.add_edge(main_o, app).unwrap();
    g.add_edge(add_c, add_o).unwrap();
    g.add_edge(add_o, project_a).unwrap();
    g.add_edge(project_a, app).unwrap();
    Project { g, main_c, main_o, add_c, add_o, add_h, wrapper_h, project_a, app }
}

#[test]
fn test_construct_and_make() {
    let mut g = G::new("src", "build");
    let src = g.add_root_node(PathWithTag::new("input.txt", "SourceFile")).unwrap();
    let target = g.add_node(PathWithTag::new("output.txt", "TargetFile")).unwrap();
    g.add_edge(src, target).unwrap();
    assert_eq!(g.node_count(), 2);
    assert_eq!(g.edge_count(), 1);
    let mut world = World::new();
    make(&mut g, &mut world);
}

#[test]
fn test_construct_and_build_graph() {
    let mut g = G::new("src", "build");
    let src = g.add_root_node(PathWithTag::new("input.txt", "SourceFile")).unwrap();
    let target = g.add_node(PathWithTag::new("output.txt", "TargetFile")).unwrap();
    g.add_edge(src, target).unwrap();
    assert_eq!(g.node_count(), 2);
    assert_eq!(g.edge_count(), 1);
    let mut world = World::new();
    world.write_source("input.txt", "text");
    let ok = make(&mut g, &mut world);
    assert!(!ok);
    assert_eq!(g.status(src), Some(GNodeStatus::MountedChanged));
    assert_eq!(g.status(target), Some(GNodeStatus::BuildFailed));
}

#[test]
fn tests_test_duplicate_id_error() {
    let mut g = G::new("src", "build");
    g.add_root_node(PathWithTag::new("input.txt", "SourceFile")).unwrap();
    let result = g.add_root_node(PathWithTag::new("input.txt", "SourceFile"));
    assert!(result.is_err());
    assert!(matches!(result.unwrap_err(), GraphError::DuplicatePathBuf(_)));
}

#[test]
fn test_duplicate_id_error_test_duplicate_id_error() {
    let mut g = G::new("src", "build");
    g.add_root_node(PathWithTag::new("input.txt", "SourceFile")).unwrap();
    let result = g.add_root_node(PathWithTag::new("input.txt", "SourceFile"));
    assert!(result.is_err());
    match result.unwrap_err() {
        GraphError::DuplicatePathBuf(p) => assert_eq!(p, "input.txt"),
        other => panic!("unexpected error {other:?}"),
    }
    let again = g.add_root_node(PathWithTag::new("input.txt", "SourceFile")).unwrap_err();
    assert_eq!(again.message(), "Duplicate node pathbuf: \"input.txt\"");
    assert_eq!(g.node_count(), 1);
}

#[test]
fn tests_test_duplicate_pathbuf_error() {
    let mut g = G::new("src", "build");
    g.add_node(PathWithTag::new("same/path.txt", "TargetFile")).unwrap();
    let result = g.add_node(PathWithTag::new("same/path.txt", "TargetFile"));
    assert!(result.is_err());
    assert!(matches!(result.unwrap_err(), GraphError::DuplicatePathBuf(_)));
}

#[test]
fn test_duplicate_pathbuf_error_test_duplicate_pathbuf_error() {
    let mut g = G::new("src", "build");
    g.add_node(PathWithTag::new("same/path.txt", "TargetFile")).unwrap();
    let result = g.add_node(PathWithTag::new("same/path.txt", "OtherKind"));
    assert!(result.is_err());
    assert!(matches!(result.unwrap_err(), GraphError::DuplicatePathBuf(_)));
    assert_eq!(g.node_count(), 1);
    assert_eq!(g.status_count(), 1);
}

#[test]
fn spellings_of_one_path_are_one_node() {
    let mut g = G::new("src", "build");
    let a = g.add_node(PathWithTag::new("a/b", "T")).unwrap();
    for other in ["a//b", "a/b/", "a/./b"] {
        match g.add_node(PathWithTag::new(other, "T")).unwrap_err() {
            GraphError::DuplicatePathBuf(p) => assert_eq!(p, other),
            error => panic!("unexpected error {error:?}"),
        }
    }
    assert_eq!(g.node_count(), 1);
    assert_eq!(g.ni_of_path("a//b"), Some(a));
    assert_eq!(g.ni_of_path("a/b/"), Some(a));
    assert_eq!(g.ni_of_path("./a/b"), None);
    assert_eq!(g.ni_of_path("a/c"), None);
    let b = g.add_node(PathWithTag::new("a.b", "T")).unwrap();
    assert_eq!(g.ni_of_path("a.b"), Some(b));
}

#[test]
fn roots_behind_a_node_that_depends_on_itself() {
    let mut g = G::new("src", "build");
    let names = ["r", "s", "a", "b", "c", "lone"];
    for n in names {
        g.add_node(PathWithTag::new(n, "T")).unwrap();
    }
    // r -> a, s -> a, a -> b, b -> c, c -> b, s -> c
    g.add_edge(0, 2).unwrap();
    g.add_edge(1, 2).unwrap();
    g.add_edge(2, 3).unwrap();
    g.add_edge(3, 4).unwrap();
    g.add_edge(4, 3).unwrap();
    g.add_edge(1, 4).unwrap();
    assert_eq!(g.root_predecessors(4), vec![0, 1]);
    assert_eq!(g.root_predecessors(3), vec![0, 1]);
    assert_eq!(g.root_predecessors(2), vec![0, 1]);
    assert_eq!(g.root_predecessors(5), vec![5]);
    // two edges from one root count once
    g.add_edge(1, 2).unwrap();
    assert_eq!(g.root_predecessors(2), vec![0, 1]);
}

#[test]
fn add_edge_refuses_unknown_nodes() {
    let mut g = G::new("src", "build");
    let a = g.add_node(PathWithTag::new("a", "T")).unwrap();
    assert!(matches!(g.add_edge(a, 7), Err(GraphError::UnknownNode(7))));
    assert!(matches!(g.add_edge(9, a), Err(GraphError::UnknownNode(9))));
    assert!(matches!(g.add_edge(9, 7), Err(GraphError::UnknownNode(9))));
    assert_eq!(g.edge_count(), 0);
    assert_eq!(g.add_edge(a, a).unwrap(), 0);
    assert_eq!(g.edge(0), (a, a, EdgeType::Explicit));
}

#[test]
fn test_mount_missing_source() {
    let mut world = World::new();
    let mut g = G::new("srcdir", "sandbox");
    let hello_c = g.add_root_node(CFile::new("missing/hello.c").node()).unwrap();
    let hello_o = g.add_node(OFile::new("missing/hello.o", vec![], vec![]).node()).unwrap();
    g.add_edge(hello_c, hello_o).unwrap();
    let result = make(&mut g, &mut world);
    assert!(!result, "make should fail when a source file cannot be mounted");
    assert_eq!(g.status(hello_c), Some(GNodeStatus::MountedFailed));
    assert_eq!(g.status(hello_o), Some(GNodeStatus::AncestorFailed));
    let errors = g.mount_errors();
    assert_eq!(errors.len(), 1);
    assert_eq!(errors[0].target, "missing/hello.c");
    assert_eq!(
        errors[0].message(),
        "could not mount file '\"missing/hello.c\"' because it does not exist. Either it is misspelled, missing, or is a built artefact and you forgot to add an edge"
    );
}

#[test]
fn test_incremental_build_unchanged() {
    let mut world = World::new();
    let mut p = c_project(&mut world);
    let result = make(&mut p.g, &mut world);
    assert!(result, "First build should succeed");
    assert_eq!(p.g.status(p.main_c), Some(GNodeStatus::MountedChanged));
    assert_eq!(p.g.status(p.app), Some(GNodeStatus::BuildSuccess));
    let result = make(&mut p.g, &mut world);
    assert!(result, "Second build should succeed");
    for idx in [p.main_c, p.add_c, p.add_h, p.wrapper_h] {
        assert_eq!(p.g.status(idx), Some(GNodeStatus::MountedNotChanged));
    }
    for idx in [p.main_o, p.add_o, p.project_a, p.app] {
        assert_eq!(p.g.status(idx), Some(GNodeStatus::BuildNotRequired));
    }
}

#[test]
fn test_incremental_build_with_comment() {
    let mut world = World::new();
    let mut p = c_project(&mut world);
    assert!(make(&mut p.g, &mut world), "First build should succeed");
    let content = world.source["project_1/add.c"].clone();
    world.write_source("project_1/add.c", &format!("{content}\n// some comment\n"));
    assert!(make(&mut p.g, &mut world), "Second build should succeed");
    assert_eq!(p.g.status(p.add_c), Some(GNodeStatus::MountedChanged));
    assert_eq!(p.g.status(p.add_o), Some(GNodeStatus::BuildNotChanged));
    assert_eq!(p.g.status(p.project_a), Some(GNodeStatus::BuildNotRequired));
    assert_eq!(p.g.status(p.app), Some(GNodeStatus::BuildNotRequired));
    assert_eq!(p.g.status(p.main_o), Some(GNodeStatus::BuildNotRequired));
}

#[test]
fn test_incremental_build_with_failure() {
    let mut world = World::new();
    let mut p = c_project(&mut world);
    assert!(make(&mut p.g, &mut world), "First build should succeed");
    let content = world.source["project_1/add.h"].clone();
    world.write_source("project_1/add.h", &format!("{content}\nxxx\n"));
    assert!(!make(&mut p.g, &mut world), "Second build should fail");
    assert_eq!(p.g.status(p.add_o), Some(GNodeStatus::BuildFailed));
    assert_eq!(p.g.status(p.project_a), Some(GNodeStatus::AncestorFailed));
    assert_eq!(p.g.status(p.app), Some(GNodeStatus::AncestorFailed));
}

#[test]
fn test_incremental_build_after_delete() {
    let mut world = World::new();
    let mut p = c_project(&mut world);
    assert!(make(&mut p.g, &mut world), "First build should succeed");
    assert!(world.sandbox.remove("project_1/add.o").is_some());
    assert!(make(&mut p.g, &mut world), "Second build should succeed");
    assert!(world.sandbox.contains_key("project_1/add.o"));
    assert_eq!(p.g.status(p.add_o), Some(GNodeStatus::BuildNotChanged));
    assert_eq!(p.g.status(p.project_a), Some(GNodeStatus::BuildNotRequired));
    assert_eq!(p.g.status(p.app), Some(GNodeStatus::BuildNotRequired));
}

#[test]
fn test_build_c_project() {
    let mut world = World::new();
    let mut p = c_project(&mut world);
    assert!(make(&mut p.g, &mut world));
    assert!(world.sandbox.contains_key("project_1/app"));
    for idx in [p.main_o, p.add_o, p.project_a, p.app] {
        assert_eq!(p.g.status(idx), Some(GNodeStatus::BuildSuccess));
    }
    for idx in [p.main_c, p.add_c, p.add_h, p.wrapper_h] {
        assert_eq!(p.g.status(idx), Some(GNodeStatus::MountedChanged));
    }
    // the scan found the headers
    assert!(p.g.has_edge(p.add_h, p.add_o));
    assert!(p.g.has_edge(p.wrapper_h, p.main_o));
    assert!(p.g.has_edge(p.add_h, p.main_o));
    assert!(!p.g.has_edge(p.wrapper_h, p.add_o));
    // every build ran once
    let mut builds = world.builds.clone();
    builds.sort();
    assert_eq!(
        builds,
        vec!["project_1/add.o", "project_1/app", "project_1/libproject.a", "project_1/main.o"]
    );
}

#[test]
fn a_header_that_never_turns_up_leaves_the_scan_incomplete() {
    let mut world = World::new();
    world.write_source("main.c", "#include \"nowhere.h\"\nint main() {}\n");
    let mut g = G::new("src", "sandbox");
    let main_c = g.add_root_node(CFile::new("main.c").node()).unwrap();
    let main_o = g.add_node(OFile::new("main.o", vec![], vec![]).node()).unwrap();
    g.add_edge(main_c, main_o).unwrap();
    let ok = make(&mut g, &mut world);
    assert!(ok);
    assert_eq!(g.status(main_c), Some(GNodeStatus::MountedChanged));
    // the header never turns up: the node stays where the scan left it
    assert_eq!(g.status(main_o), Some(GNodeStatus::ScanIncomplete));
    assert!(world.builds.is_empty());
}

#[test]
fn test_buggy_ofile_wrong_output() {
    let mut world = World::new();
    world.write_source("main.c", "int main() {}\n");
    let mut g = G::new("src", "sandbox");
    let main_c = g.add_root_node(CFile::new("main.c").node()).unwrap();
    let liar = g.add_node(PathWithTag::new("main.o", "Liar")).unwrap();
    let app = g.add_node(XFile::new("app").node()).unwrap();
    g.add_edge(main_c, liar).unwrap();
    g.add_edge(liar, app).unwrap();
    assert!(!make(&mut g, &mut world));
    assert_eq!(g.status(liar), Some(GNodeStatus::BuildFailed));
    assert_eq!(g.status(app), Some(GNodeStatus::AncestorFailed));
    assert!(!world.sandbox.contains_key("app"));
}

#[test]
fn test_project_expand() {
    let mut world = World::new();
    world.write_source("main.c", "int main() {}\n");
    world.write_source("languages.yml", "english\nfrench\n");
    let mut g = G::new("src", "sandbox");
    let main_c = g.add_root_node(CFile::new("main.c").node()).unwrap();
    let main_o = g.add_node(OFile::new("main.o", vec![], vec![]).node()).unwrap();
    let app = g.add_node(XFile::new("app").node()).unwrap();
    let yml = g.add_root_node(PathWithTag::new("languages.yml", "YmlDesc")).unwrap();
    let json = g.add_node(PathWithTag::new("languages.json", "JsonDesc")).unwrap();
    let lib = g.add_node(AFile::new("generated/liblangs.a").node()).unwrap();
    g.add_edge(main_c, main_o).unwrap();
    g.add_edge(main_o, app).unwrap();
    g.add_edge(yml, json).unwrap();
    g.add_edge(json, lib).unwrap();
    g.add_edge(lib, app).unwrap();
    assert!(make(&mut g, &mut world));
    assert_eq!(g.node_count(), 10);
    assert_eq!(g.status_count(), 10);
    assert!(world.passes > 2);
    let english_c = g.ni_of_path("generated/english.c").unwrap();
    let english_o = g.ni_of_path("generated/english.o").unwrap();
    assert!(g.is_expanded(english_c));
    assert!(!g.is_expanded(lib));
    assert_eq!(g.status(english_c), Some(GNodeStatus::BuildSuccess));
    assert_eq!(g.status(english_o), Some(GNodeStatus::BuildSuccess));
    assert!(g.has_edge(english_o, lib));
    let e = g.edge(g.edge_count() - 1);
    assert_eq!(e.2, EdgeType::Expanded);
    assert_eq!(
        world.sandbox["generated/liblangs.a"],
        "AFile(obj(hello french)obj(hello english)languages.yml)".replace("languages.yml", "english\nfrench\n")
    );
    assert!(world.sandbox["app"].contains("hello english"));
    // a second run over the grown graph finds nothing to do
    assert!(make(&mut g, &mut world));
    assert_eq!(g.node_count(), 10);
    assert_eq!(g.status(lib), Some(GNodeStatus::BuildNotRequired));
    assert_eq!(g.status(app), Some(GNodeStatus::BuildNotRequired));
    assert_eq!(g.status(english_c), Some(GNodeStatus::BuildNotRequired));
    assert_eq!(g.status(english_o), Some(GNodeStatus::BuildNotRequired));
}

#[test]
fn test_root_predecessors_excludes_unrelated() {
    let mut g = G::new("demo_projects", "sandbox");
    let main_c = g.add_root_node(CFile::new("project_C/main.c").node()).unwrap();
    let main_o = g.add_node(OFile::new("project_C/main.o", vec![], vec![]).node()).unwrap();
    let add_c = g.add_root_node(CFile::new("project_C/add.c").node()).unwrap();
    let add_o = g
        .add_node(OFile::new("project_C/add.o", vec![], vec!["-DYYY_defined".to_string()]).node())
        .unwrap();
    let add_h = g.add_root_node(HFile::new("project_C/add.h").node()).unwrap();
    let wrapper_h = g.add_root_node(HFile::new("project_C/wrapper.h").node()).unwrap();
    let app = g.add_node(XFile::new("project_C/app").node()).unwrap();
    g.add_edge(main_c, main_o).unwrap();
    g.add_edge(main_o, app).unwrap();
    g.add_edge(add_c, add_o).unwrap();
    g.add_edge(add_o, app).unwrap();
    g.add_edge(add_h, add_o).unwrap();
    g.add_edge(wrapper_h, main_o).unwrap();
    g.add_edge(add_h, main_o).unwrap();
    let roots = g.root_predecessors(main_o);
    let root_paths: Vec<String> = roots.iter().map(|&idx| g.node(idx).path.clone()).collect();
    assert!(root_paths.contains(&"project_C/main.c".to_string()));
    assert!(root_paths.contains(&"project_C/wrapper.h".to_string()));
    assert!(root_paths.contains(&"project_C/add.h".to_string()));
    assert!(!root_paths.contains(&"project_C/add.c".to_string()));
    assert_eq!(roots.len(), 3);
    // in the order in which a walk against the edges comes upon them
    assert_eq!(roots, vec![main_c, wrapper_h, add_h]);
    assert_eq!(g.root_predecessors(app), vec![main_c, wrapper_h, add_h, add_c]);
    assert_eq!(g.root_predecessors(add_o), vec![add_c, add_h]);
    assert_eq!(g.root_predecessors(add_c), vec![add_c]);
    assert_eq!(g.predecessors(main_o), vec![add_h, wrapper_h, main_c]);
    assert_eq!(g.successors(add_h), vec![main_o, add_o]);
}

#[test]
fn status_count_equals_node_count_after_every_step() {
    let mut world = World::new();
    let mut p = c_project(&mut world);
    // `make` checks the two counts after every step
    assert!(make(&mut p.g, &mut world));
    assert_eq!(p.g.status_count(), 8);
    assert_eq!(p.g.status(8), None);
}

#[test]
fn events_out_of_turn_are_rejected() {
    let mut g = G::new("src", "sandbox");
    g.add_root_node(CFile::new("a.c").node()).unwrap();
    let mut run = Make::new();
    assert!(matches!(g.make(&mut run, MakeEvent::Mounted(vec![])), MakeAction::Rejected));
    assert_eq!(run.phase(), MakePhase::Idle);
    assert!(matches!(g.make(&mut run, MakeEvent::Start), MakeAction::LoadReport));
    assert_eq!(run.phase(), MakePhase::Report);
    assert!(matches!(g.make(&mut run, MakeEvent::Start), MakeAction::Rejected));
    let action = g.make(&mut run, MakeEvent::Report(MakeOutput::empty()));
    match action {
        MakeAction::Snapshot(paths) => assert_eq!(paths, vec!["a.c"]),
        other => panic!("unexpected action {other:?}"),
    }
    // a snapshot of the wrong length
    assert!(matches!(g.make(&mut run, MakeEvent::Snapshot(vec![])), MakeAction::Rejected));
    assert_eq!(run.phase(), MakePhase::Baseline);
    let action = g.make(
        &mut run,
        MakeEvent::Snapshot(vec![FileState { digest: None, absolute_path: None }]),
    );
    match action {
        MakeAction::Mount(reqs) => {
            assert_eq!(reqs.len(), 1);
            assert_eq!(reqs[0].node, 0);
            assert_eq!(reqs[0].path, "a.c");
            assert_eq!(reqs[0].tag, "CFile");
            assert!(reqs[0].predecessors.is_empty());
        }
        other => panic!("unexpected action {other:?}"),
    }
    assert_eq!(run.pending(), &vec![0]);
    assert!(matches!(g.make(&mut run, MakeEvent::Mounted(vec![])), MakeAction::Rejected));
    assert_eq!(g.status(0), Some(GNodeStatus::Initial));
}

#[test]
fn roots_by_explicit_edges_only() {
    let mut world = World::new();
    world.write_source("a.h", "#include \"b.h\"\n");
    world.write_source("b.h", "int b;\n");
    let mut g = G::with_root_rule("src", "sandbox", RootRule::NoExplicitIncoming);
    assert_eq!(g.root_rule(), RootRule::NoExplicitIncoming);
    let a = g.add_root_node(HFile::new("a.h").node()).unwrap();
    let b = g.add_root_node(HFile::new("b.h").node()).unwrap();
    assert!(g.link(b, a, EdgeType::Scanned));
    assert!(g.is_root_node(a));
    assert!(g.is_root_node(b));
    assert!(make(&mut g, &mut world));
    assert_eq!(g.status(a), Some(GNodeStatus::MountedChanged));
    assert_eq!(g.status(b), Some(GNodeStatus::MountedChanged));

    let mut h = G::new("src", "sandbox");
    let a = h.add_root_node(HFile::new("a.h").node()).unwrap();
    let b = h.add_root_node(HFile::new("b.h").node()).unwrap();
    assert!(h.link(b, a, EdgeType::Scanned));
    assert!(!h.is_root_node(a));
    assert!(h.is_root_node(b));
}

#[test]
fn report_is_sorted_and_feeds_the_next_run() {
    let mut world = World::new();
    let mut p = c_project(&mut world);
    assert!(make(&mut p.g, &mut world));
    let report = world.report.clone().unwrap();
    let paths: Vec<&str> = report.nodes.iter().map(|n| n.pathbuf.as_str()).collect();
    assert_eq!(
        paths,
        vec![
            "project_1/add.c",
            "project_1/add.h",
            "project_1/add.o",
            "project_1/app",
            "project_1/libproject.a",
            "project_1/main.c",
            "project_1/main.o",
            "project_1/wrapper.h",
        ]
    );
    let add_o = &report.nodes[2];
    assert_eq!(add_o.status, GNodeStatus::BuildSuccess);
    assert_eq!(add_o.tag, "OFile");
    assert!(!add_o.expanded);
    assert_eq!(add_o.absolute_path.as_deref(), Some("/sandbox/project_1/add.o"));
    assert_eq!(
        add_o.digest,
        Some(compute_file_digest(world.sandbox["project_1/add.o"].as_bytes()))
    );
    assert_eq!(add_o.predecessors.len(), 2);
    assert_eq!(add_o.predecessors[0].pathbuf, "project_1/add.h");
    assert_eq!(add_o.predecessors[0].status, GNodeStatus::MountedChanged);
    assert_eq!(add_o.predecessors[1].pathbuf, "project_1/add.c");
    let table = yamake::digest::load_previous_digests(&report);
    assert_eq!(table.get("project_1/add.o"), add_o.digest.as_ref());
    assert_eq!(table.get("project_1/nothing"), None);
    // without the report everything is built again
    world.report = None;
    assert!(make(&mut p.g, &mut world));
    assert_eq!(p.g.status(p.main_c), Some(GNodeStatus::MountedChanged));
    assert_eq!(p.g.status(p.app), Some(GNodeStatus::BuildSuccess));
}

fn expand_project() -> (G, usize, usize) {
    let mut g = G::new("src", "sandbox");
    let main_c = g.add_root_node(CFile::new("main.c").node()).unwrap();
    let main_o = g.add_node(OFile::new("main.o", vec![], vec![]).node()).unwrap();
    let app = g.add_node(XFile::new("app").node()).unwrap();
    let yml = g.add_root_node(PathWithTag::new("languages.yml", "YmlDesc")).unwrap();
    let json = g.add_node(PathWithTag::new("languages.json", "JsonDesc")).unwrap();
    let lib = g.add_node(AFile::new("generated/liblangs.a").node()).unwrap();
    g.add_edge(main_c, main_o).unwrap();
    g.add_edge(main_o, app).unwrap();
    g.add_edge(yml, json).unwrap();
    g.add_edge(json, lib).unwrap();
    g.add_edge(lib, app).unwrap();
    (g, lib, app)
}

#[test]
fn test_project_expand_deleted_lib() {
    let mut world = World::new();
    world.write_source("main.c", "int main() {}\n");
    world.write_source("languages.yml", "english\nfrench\n");
    let (mut g, _, _) = expand_project();
    assert!(make(&mut g, &mut world), "First build should succeed");
    assert!(world.sandbox.contains_key("generated/liblangs.a"));
    let first = world.sandbox["app"].clone();
    assert!(first.contains("hello english"));
    assert!(world.sandbox.remove("generated/liblangs.a").is_some());
    // the graph is set up anew; the sandbox is the one of the first run
    let (mut g, lib, app) = expand_project();
    assert!(make(&mut g, &mut world), "Second build should succeed");
    assert!(world.sandbox.contains_key("generated/liblangs.a"));
    assert_eq!(world.sandbox["app"], first);
    assert_eq!(g.status(lib), Some(GNodeStatus::BuildNotChanged));
    assert_eq!(g.status(app), Some(GNodeStatus::BuildNotRequired));
}

#[test]
fn test_project_expand_add_language() {
    let mut world = World::new();
    world.write_source("main.c", "int main() {}\n");
    world.write_source("languages.yml", "english\nfrench\n");
    let (mut g, _, _) = expand_project();
    assert!(make(&mut g, &mut world), "First build should succeed");
    assert!(!world.sandbox["app"].contains("hello polish"));
    world.write_source("languages.yml", "english\nfrench\npolish\n");
    let (mut g, lib, app) = expand_project();
    assert!(make(&mut g, &mut world), "Second build should succeed");
    assert!(world.sandbox["app"].contains("hello english"));
    assert!(world.sandbox["app"].contains("hello french"));
    assert!(world.sandbox["app"].contains("hello polish"));
    assert_eq!(g.status(lib), Some(GNodeStatus::BuildSuccess));
    assert_eq!(g.status(app), Some(GNodeStatus::BuildSuccess));
    assert_eq!(g.node_count(), 12);
    world.write_source("languages.yml", "french\npolish\n");
    let (mut g, _, app) = expand_project();
    assert!(make(&mut g, &mut world), "Third build should succeed");
    assert!(!world.sandbox["app"].contains("hello english"));
    assert!(world.sandbox["app"].contains("hello french"));
    assert!(world.sandbox["app"].contains("hello polish"));
    assert_eq!(g.status(app), Some(GNodeStatus::BuildSuccess));
}

#[test]
fn test_build_fails_with_invalid_header() {
    let mut world = World::new();
    let mut p = c_project(&mut world);
    world.write_source("project_1/add.h", "int add(int a, int b);\nxxx\n");
    assert!(!make(&mut p.g, &mut world));
    assert_eq!(p.g.status(p.add_h), Some(GNodeStatus::MountedChanged));
    assert_eq!(p.g.status(p.add_o), Some(GNodeStatus::BuildFailed));
    assert_eq!(p.g.status(p.main_o), Some(GNodeStatus::BuildFailed));
    assert_eq!(p.g.status(p.project_a), Some(GNodeStatus::AncestorFailed));
    assert_eq!(p.g.status(p.app), Some(GNodeStatus::AncestorFailed));
    assert!(!world.sandbox.contains_key("project_1/app"));
}

#[test]
fn what_was_built_behind_a_failed_build_is_removed() {
    let mut world = World::new();
    let mut p = c_project(&mut world);
    assert!(make(&mut p.g, &mut world));
    assert!(world.sandbox.contains_key("project_1/add.o"));
    assert!(world.sandbox.contains_key("project_1/libproject.a"));
    assert!(world.sandbox.contains_key("project_1/app"));
    let content = world.source["project_1/add.c"].clone();
    world.write_source("project_1/add.c", &format!("{content}\nxxx\n"));
    assert!(!make(&mut p.g, &mut world));
    assert_eq!(p.g.status(p.add_o), Some(GNodeStatus::BuildFailed));
    assert_eq!(p.g.status(p.main_o), Some(GNodeStatus::BuildNotRequired));
    assert_eq!(p.g.status(p.project_a), Some(GNodeStatus::AncestorFailed));
    assert_eq!(p.g.status(p.app), Some(GNodeStatus::AncestorFailed));
    // the library and the executable of the first run are gone
    assert!(!world.sandbox.contains_key("project_1/libproject.a"));
    assert!(!world.sandbox.contains_key("project_1/app"));
    assert!(world.sandbox.contains_key("project_1/main.o"));
    let report = world.report.clone().unwrap();
    let app = report.nodes.iter().find(|n| n.pathbuf == "project_1/app").unwrap();
    assert_eq!(app.status, GNodeStatus::AncestorFailed);
    assert_eq!(app.digest, None);
    // once the source is mended everything is back
    world.write_source("project_1/add.c", &content);
    assert!(make(&mut p.g, &mut world));
    assert!(world.sandbox.contains_key("project_1/app"));
}

#[test]
fn the_run_remembers_what_was_lost_until_the_next_builds() {
    let mut world = World::new();
    let mut p = c_project(&mut world);
    assert!(make(&mut p.g, &mut world));
    let content = world.source["project_1/add.c"].clone();
    world.write_source("project_1/add.c", &format!("{content}\nxxx\n"));
    let mut run = Make::new();
    let mut event = MakeEvent::Start;
    let mut discards: Vec<Vec<String>> = Vec::new();
    let mut memory: Vec<Vec<usize>> = Vec::new();
    loop {
        let action = p.g.make(&mut run, event);
        if let MakeAction::Build { discard, .. } = &action {
            discards.push(discard.clone());
        }
        if run.phase() == MakePhase::Settle {
            memory.push(run.lost().clone());
        }
        match world.perform(action) {
            Ok(next) => event = next,
            Err(_) => break,
        }
    }
    assert_eq!(memory[0], vec![p.project_a, p.app]);
    assert!(discards[0].is_empty());
    assert_eq!(discards[1], vec!["project_1/libproject.a".to_string(), "project_1/app".to_string()]);
    assert!(run.lost().is_empty());
}

#[test]
fn a_bounded_run_gives_up() {
    let mut world = World::new();
    let mut p = c_project(&mut world);
    let mut run = Make::bounded(1);
    let mut event = MakeEvent::Start;
    let mut events = 0;
    let verdict = loop {
        let action = p.g.make(&mut run, event);
        events += 1;
        match world.perform(action) {
            Ok(next) => event = next,
            Err(success) => break success,
        }
    };
    // two passes are not enough to build the executable
    assert!(!verdict);
    assert_eq!(run.phase(), MakePhase::Done);
    assert_eq!(run.passes(), 1);
    assert_eq!(events, 9 + 6);
    assert_eq!(p.g.status(p.add_o), Some(GNodeStatus::BuildSuccess));
    assert_eq!(p.g.status(p.app), Some(GNodeStatus::Initial));
    assert!(world.report.is_some());
    // a run without a bound goes on to the end
    assert!(make(&mut p.g, &mut world));
    assert_eq!(p.g.status(p.app), Some(GNodeStatus::BuildSuccess));
}
