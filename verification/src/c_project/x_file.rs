//! An executable, linked from object files.
use crate::command::RuleError;
use crate::model::PathWithTag;
use crate::command::all_paths;
use crate::command::first_without_tag;
use crate::command::paths_of_sources;
use crate::command::push_all;
use crate::state::node_views;
use crate::text::texts;
use vstd::prelude::*;

verus! {

/// An executable.
#[derive(Debug, Clone)]
pub struct Xfile {
    target: String,
    flags: Vec<String>,
}

impl Xfile {
    /// The target path, relative to the sandbox.
    pub closed spec fn path(&self) -> Seq<char> {
        self.target@
    }

    pub fn new(target: &str, flags: Vec<String>) -> (r: Result<Xfile, RuleError>)
        ensures
            r is Ok,
            r->Ok_0.path() == target@,
            r->Ok_0.options() == texts(flags@),
    {
        Ok(Xfile { target: target.to_owned(), flags })
    }

    /// The target path, relative to the sandbox.
    pub fn target(&self) -> (r: String)
        ensures
            r@ == self.path(),
    {
        self.target.clone()
    }

    /// The tag that tells the kind.
    pub fn tag(&self) -> (r: String)
        ensures
            r@ == "x file"@,
    {
        "x file".to_owned()
    }

    /// What identifies the node in the graph: its target path.
    pub fn id(&self) -> (r: String)
        ensures
            r@ == self.path(),
    {
        self.target.clone()
    }

    /// The node as the graph knows it.
    pub fn node(&self) -> (r: PathWithTag)
        ensures
            r@.path == self.path(),
            r@.tag == "x file"@,
    {
        PathWithTag { path: self.target.clone(), tag: "x file".to_owned() }
    }

    /// The flags handed to the linker.
    pub closed spec fn options(&self) -> Seq<Seq<char>> {
        texts(self.flags@)
    }

    /// The command that links the executable, to be run in the sandbox:
    /// `gcc`, the sources, the executable as `-o`, and the flags. It is an
    /// error if a source is no object file; the error names the first such
    /// source.
    pub fn command(&self, sources: &Vec<PathWithTag>) -> (r: Result<Vec<String>, RuleError>)
        ensures
            match r {
                Ok(args) => (forall|j: int|
                    0 <= j < sources@.len() ==> (#[trigger] sources@[j])@.tag == "o file"@)
                    && texts(args@) == seq!["gcc"@] + paths_of_sources(node_views(sources@)) + seq![
                    "-o"@,
                    self.path(),
                ] + self.options(),
                Err(RuleError::BadSource(p)) => exists|i: int|
                    0 <= i < sources@.len() && (#[trigger] sources@[i])@.tag != "o file"@ && p@
                        == sources@[i]@.path && forall|j: int|
                        0 <= j < i ==> (#[trigger] sources@[j])@.tag == "o file"@,
                Err(RuleError::SourceCount(_)) => false,
            },
    {
        match first_without_tag(sources, "o file") {
            Some(p) => {
                return Err(RuleError::BadSource(p));
            },
            None => {},
        }
        let mut args: Vec<String> = Vec::new();
        args.push("gcc".to_owned());
        proof {
            assert(texts(args@) =~= seq!["gcc"@]);
        }
        push_all(&mut args, &all_paths(sources));
        let ghost a1 = texts(args@);
        args.push("-o".to_owned());
        args.push(self.target.clone());
        proof {
            assert(texts(args@) =~= a1 + seq!["-o"@, self.path()]);
        }
        push_all(&mut args, &self.flags);
        Ok(args)
    }
}

} // verus!
