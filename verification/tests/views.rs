//! The flowchart, the status line, and the scanning of content.
use std::collections::HashMap;

use yamake::c_nodes::{CFile, HFile, OFile, XFile};
use yamake::helpers::path::file_name;
use yamake::mermaid::decimal;
use yamake::model::{EdgeType, GNodeStatus, PathWithTag};
use yamake::scanner::{candidates, candidates_in, find_references, IncludeScan, Reference};
use yamake::state::G;

#[test]
fn test_to_mermaid() {
    let mut g = G::new("demo_projects", "sandbox");
    let main_c = g.add_root_node(CFile::new("main.c").node()).unwrap();
    let main_o = g.add_node(OFile::new("main.o", vec![], vec![]).node()).unwrap();
    let _main_h = g.add_root_node(HFile::new("main.h").node()).unwrap();
    let app = g.add_node(XFile::new("app").node()).unwrap();
    g.add_edge(main_c, main_o).unwrap();
    g.add_edge(main_o, app).unwrap();
    let mermaid = g.to_mermaid();
    assert!(mermaid.contains("flowchart LR"), "Should have flowchart header");
    assert!(mermaid.contains("CFile"), "Should contain CFile tag");
    assert!(mermaid.contains("OFile"), "Should contain OFile tag");
    assert!(mermaid.contains("XFile"), "Should contain XFile tag");
    assert!(mermaid.contains("main.c"), "Should contain main.c filename");
    assert!(mermaid.contains("-->"), "Should contain edges");
    println!("Generated Mermaid:\n{}", mermaid);
}

#[test]
fn mermaid_text_is_exact() {
    let mut g = G::new("src", "sandbox");
    let a = g.add_root_node(PathWithTag::new("dir/a.c", "CFile")).unwrap();
    let b = g.add_node(PathWithTag::new("dir/a.o", "OFile")).unwrap();
    g.add_edge(a, b).unwrap();
    assert!(g.link(a, b, EdgeType::Scanned));
    assert!(g.link(b, a, EdgeType::Expanded));
    g.set_status(b, GNodeStatus::BuildFailed);
    let expected = [
        "flowchart LR",
        "    n0[[\"CFile<br>a.c\"]];",
        "    n1[[\"OFile<br>a.o\"]];",
        "    n0 --> n1",
        "    n0 -.-> n1",
        "    n1 ==> n0",
        "    style n0 fill:#f9f9f9,stroke:#999",
        "    style n1 fill:#FF6347,stroke:#B22222",
        "    linkStyle 0 stroke:#333,stroke-width:2px",
        "    linkStyle 1 stroke:#2196F3,stroke-width:2px",
        "    linkStyle 2 stroke:#FF9800,stroke-width:2px",
    ]
    .join("\n");
    assert_eq!(g.to_mermaid(), expected);
    let mut lone = G::new("src", "sandbox");
    lone.add_root_node(PathWithTag::new("x", "T")).unwrap();
    assert_eq!(
        lone.to_mermaid(),
        "flowchart LR\n    n0([\"T<br>x\"])\n    style n0 fill:#f9f9f9,stroke:#999"
    );
    assert_eq!(G::new("src", "sandbox").to_mermaid(), "flowchart LR");
    // a path without a file name is shown whole
    let mut odd = G::new("src", "sandbox");
    odd.add_root_node(PathWithTag::new("a/..", "T")).unwrap();
    odd.add_root_node(PathWithTag::new("a/b/", "T")).unwrap();
    assert_eq!(
        odd.to_mermaid(),
        "flowchart LR\n    n0([\"T<br>a/..\"])\n    n1([\"T<br>b\"])\n    style n0 fill:#f9f9f9,stroke:#999\n    style n1 fill:#f9f9f9,stroke:#999"
    );
}

#[test]
fn decimal_and_file_name() {
    assert_eq!(decimal(0), "0");
    assert_eq!(decimal(9), "9");
    assert_eq!(decimal(10), "10");
    assert_eq!(decimal(4096), "4096");
    assert_eq!(decimal(1234567890), "1234567890");
    assert_eq!(file_name("a/b/c.txt"), "c.txt");
    assert_eq!(file_name("c.txt"), "c.txt");
    assert_eq!(file_name("a/b/"), "b");
    assert_eq!(file_name("/x"), "x");
    assert_eq!(file_name(""), "");
    assert_eq!(file_name("é/ü.c"), "ü.c");
}

#[test]
fn status_line_counts_every_node_once() {
    let mut g = G::new("src", "sandbox");
    for i in 0..12 {
        g.add_node(PathWithTag::new(&format!("n{i}"), "T")).unwrap();
    }
    g.set_status(0, GNodeStatus::MountedChanged);
    g.set_status(1, GNodeStatus::MountedChanged);
    g.set_status(2, GNodeStatus::BuildFailed);
    g.set_status(3, GNodeStatus::AncestorFailed);
    g.set_status(4, GNodeStatus::BuildNotChanged);
    assert_eq!(g.print_status(), "I:7 MC:2 MN:0 MF:0 SI:0 R:0 BS:0 BNC:1 BNR:0 BF:1 AF:1");
    assert_eq!(g.count_status(GNodeStatus::Initial), 7);
    assert_eq!(g.count_status(GNodeStatus::Running), 0);
    let statuses = [
        GNodeStatus::Initial,
        GNodeStatus::MountedChanged,
        GNodeStatus::MountedNotChanged,
        GNodeStatus::MountedFailed,
        GNodeStatus::ScanIncomplete,
        GNodeStatus::Running,
        GNodeStatus::BuildSuccess,
        GNodeStatus::BuildNotChanged,
        GNodeStatus::BuildNotRequired,
        GNodeStatus::BuildFailed,
        GNodeStatus::AncestorFailed,
    ];
    let total: usize = statuses.iter().map(|&st| g.count_status(st)).sum();
    assert_eq!(total, g.node_count());
}

/// Scans the C sources among the predecessors as an object file does, with
/// the sandbox held in memory.
fn scan_object(sandbox: &HashMap<String, String>, predecessors: &[PathWithTag]) -> (bool, Vec<String>) {
    fn scan_file(sandbox: &HashMap<String, String>, path: &str, scan: &mut IncludeScan) {
        let content = match sandbox.get(path) {
            Some(c) => c.clone(),
            None => {
                scan.missing();
                return;
            }
        };
        for header in find_references(Reference::CInclude, &content) {
            if !scan.visit(&header) {
                continue;
            }
            let places = candidates("", &vec!["include".to_string()], &header);
            match places.iter().find(|p| sandbox.contains_key(p.as_str())) {
                Some(place) => scan_file(sandbox, place, scan),
                None => scan.missing(),
            }
        }
    }
    let mut scan = IncludeScan::new();
    for pred in predecessors.iter().filter(|p| p.tag == "CFile") {
        scan_file(sandbox, &pred.path, &mut scan);
    }
    (scan.complete(), scan.found().clone())
}

#[test]
fn where_an_include_is_looked_for() {
    let dirs = vec!["inc".to_string(), "/usr/include/".to_string(), "".to_string()];
    assert_eq!(
        candidates("sandbox", &dirs, "a/b.h"),
        vec!["sandbox/a/b.h", "inc/a/b.h", "/usr/include/a/b.h", "a/b.h"]
    );
    assert_eq!(candidates("sandbox/", &vec![], "b.h"), vec!["sandbox/b.h"]);
    // an absolute name stands for itself wherever it is looked for
    assert_eq!(candidates("sandbox", &dirs, "/x.h"), vec!["/x.h", "/x.h", "/x.h", "/x.h"]);
    assert_eq!(candidates_in(&dirs, "b.h"), vec!["inc/b.h", "/usr/include/b.h", "b.h"]);
    assert_eq!(candidates_in(&vec![], "b.h"), Vec::<String>::new());
}

#[test]
fn a_header_in_an_include_path_is_followed() {
    let mut sandbox = HashMap::new();
    sandbox.insert("main.c".to_string(), "#include \"lib.h\"\n#include \"own.h\"\n".to_string());
    sandbox.insert("include/lib.h".to_string(), "#include \"deep.h\"\n".to_string());
    sandbox.insert("own.h".to_string(), String::new());
    sandbox.insert("include/own.h".to_string(), "#include \"never.h\"\n".to_string());
    sandbox.insert("deep.h".to_string(), String::new());
    let (complete, found) = scan_object(&sandbox, &[PathWithTag::new("main.c", "CFile")]);
    // own.h is taken from the sandbox, not from the include path
    assert!(complete);
    assert_eq!(found, vec!["lib.h", "deep.h", "own.h"]);
}

#[test]
fn include_scan_takes_spellings_of_one_path_as_one() {
    let mut scan = IncludeScan::new();
    assert!(scan.visit("a/b.h"));
    assert!(!scan.visit("a//b.h"));
    assert!(!scan.visit("a/./b.h"));
    assert!(scan.visit("./a/b.h"));
    assert_eq!(scan.found(), &vec!["a/b.h", "./a/b.h"]);
}

#[test]
fn test_scan_c_file_includes() {
    let mut sandbox = HashMap::new();
    sandbox.insert(
        "project_C/add.c".to_string(),
        "#include \"project_C/add.h\"\nint add(int a, int b) { return a + b; }".to_string(),
    );
    sandbox.insert("project_C/add.h".to_string(), "int add(int a, int b);".to_string());
    let add_c = CFile::new("project_C/add.c");
    let _add_o = OFile::new("project_C/add.o", vec![], vec![]);
    let predecessors = vec![add_c.node()];
    let (scan_complete, result) = scan_object(&sandbox, &predecessors);
    assert!(scan_complete, "Scan should be complete");
    assert_eq!(result, vec!["project_C/add.h".to_string()]);
}

#[test]
fn test_scan_returns_missing_header() {
    let mut sandbox = HashMap::new();
    sandbox.insert(
        "project_C/add.c".to_string(),
        "#include \"foo.h\"\nint add(int a, int b) { return a + b; }".to_string(),
    );
    let add_c = CFile::new("project_C/add.c");
    let predecessors = vec![add_c.node()];
    let (scan_complete, result) = scan_object(&sandbox, &predecessors);
    assert!(!scan_complete, "Scan should be incomplete for missing header");
    assert_eq!(result, vec!["foo.h".to_string()]);
}

#[test]
fn test_scan_returns_include_path_as_specified() {
    let mut sandbox = HashMap::new();
    sandbox.insert("project_C/add.h".to_string(), "int add(int a, int b);".to_string());
    sandbox.insert(
        "project_C/add.c".to_string(),
        "#include \"add.h\"\nint add(int a, int b) { return a + b; }".to_string(),
    );
    let add_c = CFile::new("project_C/add.c");
    let predecessors = vec![add_c.node()];
    let (scan_complete, result) = scan_object(&sandbox, &predecessors);
    assert!(!scan_complete, "Scan should be incomplete for wrong include path");
    assert_eq!(result, vec!["add.h".to_string()]);
}

#[test]
fn includes_are_found_line_by_line() {
    let content = "#include <stdio.h>\n#include \"add.h\"\n  #include   \"wrapper.h\"\nint x; // #include \"no.h\"\n";
    assert_eq!(find_references(Reference::CInclude, content), vec!["add.h", "wrapper.h"]);
    assert_eq!(find_references(Reference::CInclude, "int main() {}\n"), Vec::<String>::new());
    let content = "#include \"../other/dir/foo.h\"\n#include \"project_C2/foo.h\"\n";
    assert_eq!(
        find_references(Reference::CInclude, content),
        vec!["../other/dir/foo.h", "project_C2/foo.h"]
    );
}

#[test]
fn references_of_other_kinds() {
    assert_eq!(
        find_references(Reference::CIncludeAnywhere, "x #include \"a.h\" // c\n#include \"b.h\"\n"),
        vec!["a.h", "b.h"]
    );
    assert_eq!(
        find_references(Reference::TexInput, "\\input{ chapters/one.tex }\n\\input{two}\n"),
        vec!["chapters/one.tex ", "two"]
    );
    assert_eq!(find_references(Reference::LyInput, "\\input \"voice.ly\"\n"), vec!["voice.ly"]);
    assert_eq!(Reference::CInclude.pattern(), r#"(?m)^\s*#include\s+"([^"]+)""#);
    assert_eq!(Reference::CIncludeAnywhere.pattern(), r###"#include *"(?<f>.*)".*"###);
    assert_eq!(Reference::TexInput.pattern(), r###"input *\{ *(?<f>.*) *\}.*"###);
    assert_eq!(Reference::LyInput.pattern(), r###"input *"(?<f>.*)".*"###);
}

#[test]
fn include_scan_lists_each_name_once() {
    let mut scan = IncludeScan::new();
    assert!(scan.complete());
    assert!(scan.visit("a.h"));
    assert!(scan.visit("b.h"));
    assert!(!scan.visit("a.h"));
    assert!(scan.visit("c.h"));
    assert_eq!(scan.found(), &vec!["a.h", "b.h", "c.h"]);
    assert!(scan.complete());
    scan.missing();
    assert!(!scan.complete());
    let outcome = scan.outcome(&vec![true, false, true]);
    assert!(!outcome.complete);
    assert_eq!(outcome.paths.len(), 3);
    assert_eq!(outcome.paths[1].path, "b.h");
    assert!(!outcome.paths[1].exists);
    assert!(outcome.paths[2].exists);
}
