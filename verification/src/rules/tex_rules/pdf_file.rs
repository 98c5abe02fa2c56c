//! A PDF document, typeset from one TeX source.
use crate::command::RuleError;
use crate::model::PathWithTag;
use crate::command::paths_with_tag_named;
use crate::command::picked_named;
use crate::helpers::path::parent;
use crate::helpers::path::parent_of;
use crate::command::push_all;
use crate::state::node_views;
use crate::text::texts;
use vstd::prelude::*;

verus! {

/// A PDF document.
#[derive(Debug, Clone)]
pub struct Pdffile {
    target: String,
    include_paths: Vec<String>,
    flags: Vec<String>,
}

impl Pdffile {
    /// The target path, relative to the sandbox.
    pub closed spec fn path(&self) -> Seq<char> {
        self.target@
    }

    pub fn new(target: &str, include_paths: Vec<String>, flags: Vec<String>) -> (r: Result<Pdffile, RuleError>)
        ensures
            r is Ok,
            r->Ok_0.path() == target@,
            r->Ok_0.includes() == texts(include_paths@),
            r->Ok_0.options() == texts(flags@),
    {
        Ok(Pdffile { target: target.to_owned(), include_paths, flags })
    }

    /// The target path, relative to the sandbox.
    pub fn target(&self) -> (r: String)
        ensures
            r@ == self.path(),
    {
        self.target.clone()
    }

    /// The tag that tells the kind.
    pub fn tag(&self) -> (r: String)
        ensures
            r@ == "pdf file"@,
    {
        "pdf file".to_owned()
    }

    /// What identifies the node in the graph: its target path.
    pub fn id(&self) -> (r: String)
        ensures
            r@ == self.path(),
    {
        self.target.clone()
    }

    /// The node as the graph knows it.
    pub fn node(&self) -> (r: PathWithTag)
        ensures
            r@.path == self.path(),
            r@.tag == "pdf file"@,
    {
        PathWithTag { path: self.target.clone(), tag: "pdf file".to_owned() }
    }

    /// Where included files are looked for.
    pub closed spec fn includes(&self) -> Seq<Seq<char>> {
        texts(self.include_paths@)
    }

    /// The flags handed to the typesetter.
    pub closed spec fn options(&self) -> Seq<Seq<char>> {
        texts(self.flags@)
    }

    /// Where included files are looked for.
    pub fn include_paths(&self) -> (r: &Vec<String>)
        ensures
            texts(r@) == self.includes(),
    {
        &self.include_paths
    }

    /// The main source of the document: the one TeX source among the sources
    /// whose file is called `main.tex`. It is an error if the sources do
    /// not hold exactly one.
    pub fn main_source(&self, sources: &Vec<PathWithTag>) -> (r: Result<String, RuleError>)
        ensures
            match r {
                Ok(p) => picked_named(node_views(sources@), "tex file"@, "main.tex"@) == seq![p@],
                Err(RuleError::SourceCount(n)) => n == picked_named(
                    node_views(sources@),
                    "tex file"@,
                    "main.tex"@,
                ).len() && n != 1,
                Err(RuleError::BadSource(_)) => false,
            },
    {
        let mut found = paths_with_tag_named(sources, "tex file", "main.tex");
        if found.len() == 1 {
            let p = found.remove(0);
            proof {
                let want = picked_named(node_views(sources@), "tex file"@, "main.tex"@);
                assert(want.len() == 1);
                assert(want =~= seq![p@]);
            }
            Ok(p)
        } else {
            Err(RuleError::SourceCount(found.len()))
        }
    }

    /// The command that typesets the document, and the directory to run it
    /// in: `lualatex --interaction=nonstopmode`, the flags, the main source
    /// and the document, run where the main source is. It is an error if
    /// the sources do not hold exactly one main source.
    pub fn command(&self, sources: &Vec<PathWithTag>) -> (r: Result<(Vec<String>, String), RuleError>)
        ensures
            match r {
                Ok((args, dir)) => {
                    let mains = picked_named(node_views(sources@), "tex file"@, "main.tex"@);
                    &&& mains.len() == 1
                    &&& texts(args@) == seq!["lualatex"@, "--interaction=nonstopmode"@]
                        + self.options() + seq![mains[0], self.path()]
                    &&& dir@ == parent_of(mains[0])
                },
                Err(RuleError::SourceCount(n)) => n == picked_named(
                    node_views(sources@),
                    "tex file"@,
                    "main.tex"@,
                ).len() && n != 1,
                Err(RuleError::BadSource(_)) => false,
            },
    {
        let source = match self.main_source(sources) {
            Ok(s) => s,
            Err(e) => {
                return Err(e);
            },
        };
        let dir = parent(source.as_str());
        let mut args: Vec<String> = Vec::new();
        args.push("lualatex".to_owned());
        args.push("--interaction=nonstopmode".to_owned());
        proof {
            assert(texts(args@) =~= seq!["lualatex"@, "--interaction=nonstopmode"@]);
        }
        push_all(&mut args, &self.flags);
        let ghost a1 = texts(args@);
        let ghost src = source@;
        args.push(source);
        args.push(self.target.clone());
        proof {
            assert(texts(args@) =~= a1 + seq![src, self.path()]);
        }
        Ok((args, dir))
    }
}

} // verus!
