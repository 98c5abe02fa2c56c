//! The commands of the build rules.
use yamake::c_nodes::{AFile, CFile, HFile, OFile, XFile};
use yamake::c_project::c_file::Cfile;
use yamake::c_project::h_file::Hfile;
use yamake::c_project::o_file::Ofile;
use yamake::c_project::x_file::Xfile;
use yamake::command::{create_log_paths, RuleError};
use yamake::error::CouldNotMountFileError;
use yamake::model::PathWithTag;
use yamake::rules::lilypond_rules::ly_file::Lyfile;
use yamake::rules::lilypond_rules::lytex_file::Lyoutputfile;
use yamake::rules::tex_rules::pdf_file::Pdffile;
use yamake::rules::tex_rules::tex_file::Texfile;

fn strings(v: &[&str]) -> Vec<String> {
    v.iter().map(|s| s.to_string()).collect()
}

#[test]
fn kinds_know_their_tag_and_path() {
    assert_eq!(CFile::new("a/main.c").tag(), "CFile");
    assert_eq!(CFile::new("a/main.c").pathbuf(), "a/main.c");
    assert_eq!(HFile::new("a.h").tag(), "HFile");
    assert_eq!(OFile::new("a.o", vec![], vec![]).tag(), "OFile");
    assert_eq!(AFile::new("lib.a").tag(), "AFile");
    assert_eq!(XFile::new("app").tag(), "XFile");
    let node = XFile::new("bin/app").node();
    assert_eq!(node.path, "bin/app");
    assert_eq!(node.tag, "XFile");
    assert_eq!(Cfile::new("m.c", vec![]).unwrap().tag(), "c file");
    assert_eq!(Hfile::new("m.h", strings(&["inc"])).unwrap().tag(), "h file");
    assert_eq!(Hfile::new("m.h", strings(&["inc"])).unwrap().include_paths(), &strings(&["inc"]));
    assert_eq!(Ofile::new("m.o", vec![], vec![]).unwrap().tag(), "o file");
    assert_eq!(Xfile::new("m", vec![]).unwrap().id(), "m");
    assert_eq!(Texfile::new("main.tex").unwrap().tag(), "tex file");
    assert_eq!(Pdffile::new("main.pdf", vec![], vec![]).unwrap().target(), "main.pdf");
    assert_eq!(Pdffile::new("main.pdf", vec![], vec![]).unwrap().tag(), "pdf file");
    assert_eq!(Lyfile::new("solo.ly").unwrap().tag(), "ly file");
    assert_eq!(Lyoutputfile::new("solo.tex").unwrap().node().tag, "lytex file");
}

#[test]
fn archive_command() {
    let preds = vec![PathWithTag::new("b.o", "OFile"), PathWithTag::new("a.o", "OFile")];
    assert_eq!(
        AFile::new("lib/x.a").command("/sb", &preds),
        strings(&["ar", "rcs", "/sb/lib/x.a", "/sb/b.o", "/sb/a.o"])
    );
}

#[test]
fn link_command_puts_libraries_last() {
    let preds = vec![
        PathWithTag::new("lib.a", "AFile"),
        PathWithTag::new("main.o", "OFile"),
        PathWithTag::new("other.a", "AFile"),
        PathWithTag::new("add.o", "OFile"),
    ];
    assert_eq!(
        XFile::new("app").command("/sb", &preds),
        strings(&["gcc", "-o", "/sb/app", "/sb/main.o", "/sb/add.o", "/sb/lib.a", "/sb/other.a"])
    );
}

#[test]
fn compile_command_takes_only_c_sources() {
    let preds = vec![PathWithTag::new("add.h", "HFile"), PathWithTag::new("add.c", "CFile")];
    let o = OFile::new("add.o", strings(&["inc", "/abs/inc"]), strings(&["-DYYY_defined"]));
    assert_eq!(
        o.command("/sb", &preds),
        strings(&[
            "gcc",
            "-c",
            "-DYYY_defined",
            "-I",
            "/sb",
            "-I",
            "/sb/inc",
            "-I",
            "/abs/inc",
            "-o",
            "/sb/add.o",
            "/sb/add.c"
        ])
    );
}

#[test]
fn strict_compile_command() {
    let o = Ofile::new("add.o", strings(&["inc"]), strings(&["-O2"])).unwrap();
    let sources = vec![PathWithTag::new("add.h", "h file"), PathWithTag::new("add.c", "c file")];
    assert_eq!(
        o.command(&sources).unwrap(),
        strings(&["gcc", "-c", "-O2", "add.c", "-o", "add.o", "-I", "inc"])
    );
    let none = vec![PathWithTag::new("add.h", "h file")];
    assert!(matches!(o.command(&none), Err(RuleError::SourceCount(0))));
    let two = vec![PathWithTag::new("a.c", "c file"), PathWithTag::new("b.c", "c file")];
    assert!(matches!(o.command(&two), Err(RuleError::SourceCount(2))));
}

#[test]
fn strict_link_command() {
    let x = Xfile::new("app", strings(&["-lm"])).unwrap();
    let sources = vec![PathWithTag::new("a.o", "o file"), PathWithTag::new("b.o", "o file")];
    assert_eq!(x.command(&sources).unwrap(), strings(&["gcc", "a.o", "b.o", "-o", "app", "-lm"]));
    let bad = vec![
        PathWithTag::new("a.o", "o file"),
        PathWithTag::new("b.c", "c file"),
        PathWithTag::new("c.h", "h file"),
    ];
    match x.command(&bad) {
        Err(RuleError::BadSource(p)) => assert_eq!(p, "b.c"),
        other => panic!("unexpected result {other:?}"),
    }
}

#[test]
fn typeset_command() {
    let pdf = Pdffile::new("doc/main.pdf", strings(&["doc"]), strings(&["--shell-escape"])).unwrap();
    let sources = vec![
        PathWithTag::new("/sb/doc/chapter.tex", "tex file"),
        PathWithTag::new("/sb/doc/main.tex", "tex file"),
        PathWithTag::new("/sb/doc/main.tex", "png"),
    ];
    assert_eq!(pdf.main_source(&sources).unwrap(), "/sb/doc/main.tex");
    let (args, dir) = pdf.command(&sources).unwrap();
    assert_eq!(
        args,
        strings(&[
            "lualatex",
            "--interaction=nonstopmode",
            "--shell-escape",
            "/sb/doc/main.tex",
            "doc/main.pdf"
        ])
    );
    assert_eq!(dir, "/sb/doc");
    assert_eq!(pdf.include_paths(), &strings(&["doc"]));
    assert!(matches!(pdf.command(&vec![]), Err(RuleError::SourceCount(0))));
    let none = vec![PathWithTag::new("doc/chapter.tex", "tex file")];
    assert!(matches!(pdf.command(&none), Err(RuleError::SourceCount(0))));
    let two = vec![
        PathWithTag::new("a/main.tex", "tex file"),
        PathWithTag::new("b/main.tex", "tex file"),
    ];
    assert!(matches!(pdf.main_source(&two), Err(RuleError::SourceCount(2))));
}

#[test]
fn score_source() {
    let out = Lyoutputfile::new("solo.tex").unwrap();
    let sources = vec![PathWithTag::new("solo.ly", "ly file")];
    assert_eq!(out.source(&sources).unwrap(), "solo.ly");
    let two = vec![PathWithTag::new("a.ly", "ly file"), PathWithTag::new("b.ly", "ly file")];
    assert!(matches!(out.source(&two), Err(RuleError::SourceCount(2))));
}

#[test]
fn score_plan() {
    let out = Lyoutputfile::new("music/solo.output/solo.tex").unwrap();
    let sources = vec![
        PathWithTag::new("/sb/music/notes.txt", "text"),
        PathWithTag::new("/sb/music/solo.ly", "ly file"),
    ];
    let plan = out.plan(&sources).unwrap();
    assert_eq!(plan.lytex_file, "/sb/music/solo.lytex");
    assert_eq!(plan.lytex_content, "\\lilypondfile{solo.ly}");
    assert_eq!(plan.output_dir, "/sb/music/solo.output");
    assert_eq!(plan.dir, "/sb/music");
    assert_eq!(
        plan.args,
        strings(&[
            "lilypond-book",
            "--output",
            "/sb/music/solo.output",
            "--pdf",
            "--latex-program=lualatex",
            "/sb/music/solo.lytex"
        ])
    );
    let bare = out.plan(&vec![PathWithTag::new("solo.ly", "ly file")]).unwrap();
    assert_eq!(bare.output_dir, "solo.output");
    assert_eq!(bare.lytex_file, "solo.lytex");
    assert_eq!(bare.dir, "");
    assert!(matches!(out.plan(&vec![]), Err(RuleError::SourceCount(0))));
}

#[test]
fn rule_errors_in_words() {
    assert_eq!(RuleError::BadSource("b.c".to_string()).message(), "found bad source : b.c");
    assert_eq!(
        RuleError::SourceCount(2).message(),
        "bad graph construct: the rule takes exactly one source of its kind"
    );
}

#[test]
fn log_paths() {
    let (out, err) = create_log_paths("/sb", "project/add.o");
    assert_eq!(out, "/sb/logs/project/add.o.stdout");
    assert_eq!(err, "/sb/logs/project/add.o.stderr");
    // the suffix goes behind the file name
    let (out, err) = create_log_paths("sb/", "a/b/");
    assert_eq!(out, "sb/logs/a/b.stdout");
    assert_eq!(err, "sb/logs/a/b.stderr");
    let (out, _) = create_log_paths("", "x");
    assert_eq!(out, "logs/x.stdout");
    // without a file name the suffix is the file name
    let (out, err) = create_log_paths("/sb", "..");
    assert_eq!(out, "/sb/logs/../.stdout");
    assert_eq!(err, "/sb/logs/../.stderr");
}

#[test]
fn mount_error_message() {
    let e = CouldNotMountFileError::new("a/b.c".to_string());
    assert_eq!(e.target, "a/b.c");
    assert!(e.message().starts_with("could not mount file '\"a/b.c\"' because it does not exist."));
    let other = CouldNotMountFileError::new("project_1/add.o".to_string());
    assert_eq!(other.target, "project_1/add.o");
    assert!(other
        .message()
        .starts_with("could not mount file '\"project_1/add.o\"' because it does not exist"));
}
