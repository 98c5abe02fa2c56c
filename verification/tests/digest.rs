//! Digests, the order of paths, and the whole-graph digest.
use sha2::{Digest, Sha256};
use yamake::digest::{compute_file_digest, load_previous_digests, text_digest, DigestTable};
use yamake::model::{GNodeStatus, MakeOutput, OutputInfo, PathWithTag};
use yamake::schedule::FileState;
use yamake::state::G;
use yamake::text::{bytes_le, components, path_before, same_path_text, same_text, sorted_by_path};

fn record(path: &str, digest: Option<&str>) -> OutputInfo {
    OutputInfo {
        pathbuf: path.to_string(),
        status: GNodeStatus::BuildSuccess,
        digest: digest.map(|d| d.to_string()),
        absolute_path: None,
        stdout_path: None,
        stderr_path: None,
        predecessors: vec![],
        expanded: false,
        tag: "T".to_string(),
    }
}

#[test]
fn digest_of_known_content() {
    assert_eq!(
        compute_file_digest(b"abc"),
        "ba7816bf8f01cfea414140de5dae2223b00361a396177a9cb410ff61f20015ad"
    );
    assert_eq!(
        compute_file_digest(b""),
        "e3b0c44298fc1c149afbf4c8996fb92427ae41e4649b934ca495991b7852b855"
    );
    assert_eq!(text_digest("abc"), compute_file_digest(b"abc"));
}

#[test]
fn digest_is_lower_case_hex_of_sha256() {
    let data = b"some bytes \xff\x00";
    let mut hasher = Sha256::new();
    hasher.update(data);
    let expected: String = hasher.finalize().iter().map(|b| format!("{b:02x}")).collect();
    assert_eq!(compute_file_digest(data), expected);
}

#[test]
fn previous_digests_take_the_last_record() {
    let report = MakeOutput {
        nodes: vec![
            record("a", Some("1")),
            record("b", None),
            record("a", Some("2")),
            record("c", Some("3")),
        ],
    };
    let table = load_previous_digests(&report);
    assert_eq!(table.get("a"), Some(&"2".to_string()));
    assert_eq!(table.get("b"), None);
    assert_eq!(table.get("c"), Some(&"3".to_string()));
    assert!(table.matches("c", &Some("3".to_string())));
    assert!(!table.matches("c", &Some("4".to_string())));
    assert!(!table.matches("c", &None));
    assert!(!table.matches("b", &None));
    assert!(!table.compute_needs_rebuild("c", &Some("3".to_string())));
    assert!(table.compute_needs_rebuild("c", &Some("4".to_string())));
    assert!(table.compute_needs_rebuild("c", &None));
    assert!(table.compute_needs_rebuild("b", &Some("1".to_string())));
    assert_eq!(DigestTable::new().get("a"), None);
}

#[test]
fn order_of_paths() {
    assert!(path_before("a", "b"));
    assert!(!path_before("b", "a"));
    assert!(path_before("a", "a"));
    assert!(path_before("a", "ab"));
    assert!(!path_before("ab", "a"));
    assert!(path_before("", "a"));
    // a path is compared piece by piece: `a` comes before `a.b`
    assert!(path_before("a/b", "a.b"));
    assert!(!path_before("a.b", "a/b"));
    assert!(path_before("a/x", "a-b/x"));
    assert!(!path_before("a-b/x", "a/x"));
    // a rooted path comes first, then `.`, then `..`, then names
    assert!(path_before("/z", "a"));
    assert!(path_before("./z", "a"));
    assert!(path_before("./z", "../a"));
    assert!(path_before("../z", "-"));
    assert!(!path_before("-", "../z"));
    // a path comes before those it is the beginning of
    assert!(path_before("a/b", "a/b/c"));
    assert!(!path_before("a/b/c", "a/b"));
    // spellings of one path are together
    assert!(path_before("a//b", "a/b") && path_before("a/b", "a//b"));
    assert!(path_before("a/./b/", "a/b") && path_before("a/b", "a/./b/"));
    assert!(bytes_le(&[1, 2], &[1, 3]));
    assert!(!bytes_le(&[2], &[1, 3]));
    assert!(same_text("abc", "abc"));
    assert!(!same_text("abc", "abd"));
    assert!(!same_text("abc", "ab"));
}

#[test]
fn sorting_by_path() {
    let paths: Vec<String> = ["m", "b/c", "a", "b", "z", "b.c"].iter().map(|s| s.to_string()).collect();
    assert_eq!(sorted_by_path(&paths), vec![2, 3, 1, 5, 0, 4]);
    assert_eq!(sorted_by_path(&vec![]), Vec::<usize>::new());
    let paths: Vec<String> = ["a-b/x", "a/x", "a.b/x", "a"].iter().map(|s| s.to_string()).collect();
    assert_eq!(sorted_by_path(&paths), vec![3, 1, 0, 2]);
    // what compares equal stays in the order it came in
    let paths: Vec<String> = ["b", "a//c", "a/c"].iter().map(|s| s.to_string()).collect();
    assert_eq!(sorted_by_path(&paths), vec![1, 2, 0]);
}

#[test]
fn paths_by_their_pieces() {
    assert_eq!(components("a/b"), vec![b"a".to_vec(), b"b".to_vec()]);
    assert_eq!(components("a//b/"), vec![b"a".to_vec(), b"b".to_vec()]);
    assert_eq!(components("/a/./b"), vec![b"/".to_vec(), b"a".to_vec(), b"b".to_vec()]);
    assert_eq!(components("./a/."), vec![b".".to_vec(), b"a".to_vec()]);
    assert_eq!(components("."), vec![b".".to_vec()]);
    assert_eq!(components("../a"), vec![b"..".to_vec(), b"a".to_vec()]);
    assert_eq!(components("/"), vec![b"/".to_vec()]);
    assert_eq!(components("/."), vec![b"/".to_vec()]);
    assert_eq!(components(""), Vec::<Vec<u8>>::new());
    assert!(same_path_text("a/b", "a//b"));
    assert!(same_path_text("a/b", "a/b/"));
    assert!(same_path_text("a/b", "a/./b"));
    assert!(same_path_text("./a", "./a/."));
    assert!(!same_path_text("a/b", "./a/b"));
    assert!(!same_path_text("a/b", "/a/b"));
    assert!(!same_path_text("a/b", "a/../a/b"));
    assert!(!same_path_text("a/b", "a.b"));
}

#[test]
fn report_in_the_order_of_path_pieces() {
    let mut g = G::new("src", "sandbox");
    g.add_node(PathWithTag::new("a-b/x", "T")).unwrap();
    g.add_node(PathWithTag::new("a/x", "T")).unwrap();
    let files = vec![
        FileState { digest: Some("1".to_string()), absolute_path: None },
        FileState { digest: Some("2".to_string()), absolute_path: None },
    ];
    let report = g.save_digests(&files);
    assert_eq!(report.nodes[0].pathbuf, "a/x");
    assert_eq!(report.nodes[1].pathbuf, "a-b/x");
    assert_eq!(g.graph_digest(&files), text_digest("2Initial1Initial"));
}

#[test]
fn whole_graph_digest() {
    let mut g = G::new("src", "sandbox");
    g.add_node(PathWithTag::new("b", "T")).unwrap();
    g.add_node(PathWithTag::new("a", "T")).unwrap();
    let files = vec![
        FileState { digest: Some("beef".to_string()), absolute_path: None },
        FileState { digest: None, absolute_path: None },
    ];
    // sorted by path: a (no file), then b
    assert_eq!(g.graph_digest(&files), text_digest("noneInitialbeefInitial"));
    g.set_status(0, GNodeStatus::BuildNotChanged);
    assert_eq!(g.graph_digest(&files), text_digest("noneInitialbeefBuildNotChanged"));
    assert_eq!(G::new("src", "sandbox").graph_digest(&vec![]), text_digest(""));
}

#[test]
fn status_names() {
    assert_eq!(GNodeStatus::Initial.name(), "Initial");
    assert_eq!(GNodeStatus::MountedChanged.name(), "MountedChanged");
    assert_eq!(GNodeStatus::MountedNotChanged.name(), "MountedNotChanged");
    assert_eq!(GNodeStatus::MountedFailed.name(), "MountedFailed");
    assert_eq!(GNodeStatus::ScanIncomplete.name(), "ScanIncomplete");
    assert_eq!(GNodeStatus::Running.name(), "Running");
    assert_eq!(GNodeStatus::BuildSuccess.name(), "BuildSuccess");
    assert_eq!(GNodeStatus::BuildNotChanged.name(), "BuildNotChanged");
    assert_eq!(GNodeStatus::BuildNotRequired.name(), "BuildNotRequired");
    assert_eq!(GNodeStatus::BuildFailed.name(), "BuildFailed");
    assert_eq!(GNodeStatus::AncestorFailed.name(), "AncestorFailed");
    assert!(GNodeStatus::BuildNotRequired.is_success());
    assert!(GNodeStatus::BuildNotRequired.is_unchanged());
    assert!(!GNodeStatus::BuildSuccess.is_unchanged());
    assert!(GNodeStatus::AncestorFailed.is_failed());
    assert!(GNodeStatus::ScanIncomplete.is_pending());
    assert!(!GNodeStatus::Running.is_pending());
}
