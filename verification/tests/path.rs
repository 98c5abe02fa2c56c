//! Paths as text.
use yamake::helpers::path::{
    file_name, is_absolute, join, parent, relpath, string_of_path, with_extension, PathError,
};

#[test]
fn path_test_relpath() {
    let root = "/a/b/c/d/e";
    let f = "/a/b/c/d/e/f/h.tex";
    let r = relpath(root, f).unwrap();
    let expected = "f/h.tex".to_string();
    assert_eq!(r, expected);
}

#[test]
fn relpath_test_relpath() {
    let root = String::from("/a/b/c/d/e");
    let f = String::from("/a/b/c/d/e/f/h.tex");
    let r = relpath(&root, &f).unwrap();
    let expected = String::from("f/h.tex");
    assert_eq!(r, expected);
}

#[test]
fn relpath_rejects_a_relative_root() {
    let r = relpath("a", "/f/g");
    assert_eq!(r, Err(PathError::RootRelative));
    assert_eq!(r.unwrap_err().message(), "rootdir is relative");
}

#[test]
fn relpath_rejects_a_relative_path() {
    let r = relpath("/a", "f/g");
    assert_eq!(r, Err(PathError::PathRelative));
    assert_eq!(r.unwrap_err().message(), "abspath is relative");
}

#[test]
fn relpath_rejects_a_path_outside_the_root() {
    let r = relpath("/a", "/f/g");
    assert_eq!(r, Err(PathError::NotInRoot("/a".to_string(), "/f/g".to_string())));
    assert_eq!(r.unwrap_err().message(), "cannot make relpath \"/a\" is not in \"/f/g\"");
}

#[test]
#[should_panic(expected = "called `Result::unwrap()` on an `Err` value: \"rootdir is relative\"")]
fn test_root_not_absolute() {
    let root = "a";
    let f = "/f/g";
    let _r = relpath(root, f).map_err(|e| e.message()).unwrap();
}

#[test]
#[should_panic(expected = "\"cannot make relpath \\\"/a\\\" is not in \\\"/f/g\\\"")]
fn test_failed_relpath() {
    let root = "/a";
    let f = "/f/g";
    let r = relpath(root, f).map_err(|e| e.message()).unwrap();
    println!("r : {:?}", r);
}

#[test]
fn relpath_takes_the_root_away_wherever_it_stands() {
    assert_eq!(relpath("/a", "/a/b/a/c").unwrap(), "bc");
    assert_eq!(relpath("/a", "/a/b/ab/c").unwrap(), "b/ab/c");
    assert_eq!(relpath("/a", "/a/x/a/y").unwrap(), "xy");
    assert_eq!(relpath("/a", "/a").unwrap(), "/a");
    assert_eq!(relpath("/a", "/ab/c").unwrap(), "/ab/c");
}

#[test]
fn string_of_path_reads_utf8() {
    assert_eq!(string_of_path(b"f/h.tex"), Ok("f/h.tex".to_string()));
    assert_eq!(string_of_path("é/ü".as_bytes()), Ok("é/ü".to_string()));
    assert_eq!(string_of_path(b""), Ok(String::new()));
}

#[test]
fn string_of_path_rejects_other_bytes() {
    let r = string_of_path(&[0x66, 0xff, 0x67]);
    assert_eq!(r, Err(PathError::NotUtf8));
    assert_eq!(r.unwrap_err().message(), "huh, cannot get string of path");
}

#[test]
fn join_places_a_path_in_a_directory() {
    assert_eq!(join("sandbox", "a/b.c"), "sandbox/a/b.c");
    assert_eq!(join("sandbox/", "a/b.c"), "sandbox/a/b.c");
    assert_eq!(join("", "a/b.c"), "a/b.c");
    assert_eq!(join("sandbox", "/abs/b.c"), "/abs/b.c");
    assert_eq!(join("sandbox", ""), "sandbox/");
    assert!(is_absolute("/a"));
    assert!(!is_absolute("a/"));
    assert!(!is_absolute(""));
}

#[test]
fn parent_and_extension() {
    assert_eq!(parent("a/b/c.txt"), "a/b");
    assert_eq!(parent("c.txt"), "");
    assert_eq!(parent("/c.txt"), "/");
    assert_eq!(parent("/"), "");
    assert_eq!(parent(""), "");
    assert_eq!(parent("a/b/"), "a");
    assert_eq!(parent("a//b"), "a");
    assert_eq!(parent("a/./b"), "a");
    assert_eq!(parent("./b"), ".");
    assert_eq!(parent("a/.."), "a");
    assert_eq!(parent(".."), "");
    assert_eq!(parent("//a"), "/");
    assert_eq!(with_extension("a/b/solo.ly", "lytex"), "a/b/solo.lytex");
    assert_eq!(with_extension("a/b/solo", "output"), "a/b/solo.output");
    assert_eq!(with_extension("a.b/solo", "output"), "a.b/solo.output");
    assert_eq!(with_extension("a/my.piece.ly", "x"), "a/my.piece.x");
    assert_eq!(with_extension("a/.hidden", "x"), "a/.hidden.x");
    assert_eq!(with_extension("solo.", "x"), "solo.x");
    assert_eq!(with_extension("é/ü.ly", "x"), "é/ü.x");
    assert_eq!(with_extension("a/b/", "o"), "a/b.o");
    assert_eq!(with_extension("a/b.c/.", "o"), "a/b.o");
    assert_eq!(with_extension("a.c", ""), "a");
    assert_eq!(with_extension("a", ""), "a");
    assert_eq!(with_extension("a/..", "o"), "a/..");
    assert_eq!(with_extension("/", "o"), "/");
    assert_eq!(with_extension("", "o"), "");
    assert_eq!(file_name("a/b/c.txt"), "c.txt");
}

#[test]
fn file_name_is_the_last_piece_that_is_a_name() {
    assert_eq!(file_name("c.txt"), "c.txt");
    assert_eq!(file_name("/x"), "x");
    assert_eq!(file_name("a/b/"), "b");
    assert_eq!(file_name("a/b//"), "b");
    assert_eq!(file_name("a/b/."), "b");
    assert_eq!(file_name("a/.b"), ".b");
    assert_eq!(file_name("a/..."), "...");
    assert_eq!(file_name("a/.."), "");
    assert_eq!(file_name(".."), "");
    assert_eq!(file_name("."), "");
    assert_eq!(file_name("/"), "");
    assert_eq!(file_name("//"), "");
    assert_eq!(file_name(""), "");
}
