//! An object file, compiled from one C source.
use crate::command::RuleError;
use crate::model::PathWithTag;
use crate::command::flagged;
use crate::command::only_source;
use crate::command::picked;
use crate::command::push_all;
use crate::command::push_flagged;
use crate::state::node_views;
use crate::text::texts;
use vstd::prelude::*;

verus! {

/// An object file.
#[derive(Debug, Clone)]
pub struct Ofile {
    target: String,
    include_paths: Vec<String>,
    flags: Vec<String>,
}

impl Ofile {
    /// The target path, relative to the sandbox.
    pub closed spec fn path(&self) -> Seq<char> {
        self.target@
    }

    pub fn new(target: &str, include_paths: Vec<String>, flags: Vec<String>) -> (r: Result<Ofile, RuleError>)
        ensures
            r is Ok,
            r->Ok_0.path() == target@,
            r->Ok_0.includes() == texts(include_paths@),
            r->Ok_0.options() == texts(flags@),
    {
        Ok(Ofile { target: target.to_owned(), include_paths, flags })
    }

    /// The target path, relative to the sandbox.
    pub fn target(&self) -> (r: String)
        ensures
            r@ == self.path(),
    {
        self.target.clone()
    }

    /// The tag that tells the kind.
    pub fn tag(&self) -> (r: String)
        ensures
            r@ == "o file"@,
    {
        "o file".to_owned()
    }

    /// What identifies the node in the graph: its target path.
    pub fn id(&self) -> (r: String)
        ensures
            r@ == self.path(),
    {
        self.target.clone()
    }

    /// The node as the graph knows it.
    pub fn node(&self) -> (r: PathWithTag)
        ensures
            r@.path == self.path(),
            r@.tag == "o file"@,
    {
        PathWithTag { path: self.target.clone(), tag: "o file".to_owned() }
    }

    /// Where headers are looked for.
    pub closed spec fn includes(&self) -> Seq<Seq<char>> {
        texts(self.include_paths@)
    }

    /// The flags handed to the compiler.
    pub closed spec fn options(&self) -> Seq<Seq<char>> {
        texts(self.flags@)
    }

    /// The command that compiles the object, to be run in the sandbox:
    /// `gcc -c`, the flags, the one C source among the sources, the object
    /// as `-o`, and each include path as `-I`. It is an error if the
    /// sources do not hold exactly one C source.
    pub fn command(&self, sources: &Vec<PathWithTag>) -> (r: Result<Vec<String>, RuleError>)
        ensures
            match r {
                Ok(args) => picked(node_views(sources@), "c file"@, true).len() == 1 && texts(
                    args@,
                ) == seq!["gcc"@, "-c"@] + self.options() + seq![
                    picked(node_views(sources@), "c file"@, true)[0],
                    "-o"@,
                    self.path(),
                ] + flagged("-I"@, self.includes()),
                Err(RuleError::SourceCount(n)) => n == picked(
                    node_views(sources@),
                    "c file"@,
                    true,
                ).len() && n != 1,
                Err(RuleError::BadSource(_)) => false,
            },
    {
        let source = match only_source(sources, "c file") {
            Ok(s) => s,
            Err(e) => {
                return Err(e);
            },
        };
        let mut args: Vec<String> = Vec::new();
        args.push("gcc".to_owned());
        args.push("-c".to_owned());
        proof {
            assert(texts(args@) =~= seq!["gcc"@, "-c"@]);
        }
        push_all(&mut args, &self.flags);
        let ghost a1 = texts(args@);
        let ghost src = source@;
        args.push(source);
        args.push("-o".to_owned());
        args.push(self.target.clone());
        proof {
            assert(texts(args@) =~= a1 + seq![src, "-o"@, self.path()]);
        }
        push_flagged(&mut args, "-I", &self.include_paths);
        Ok(args)
    }
}

} // verus!
