//! A C source file.
use crate::command::RuleError;
use crate::model::PathWithTag;
use vstd::prelude::*;

verus! {

/// A C source file, with the places where its headers are looked for.
#[derive(Debug, Clone)]
pub struct Cfile {
    target: String,
    include_paths: Vec<String>,
}

impl Cfile {
    /// The target path, relative to the sandbox.
    pub closed spec fn path(&self) -> Seq<char> {
        self.target@
    }

    pub fn new(target: &str, include_paths: Vec<String>) -> (r: Result<Cfile, RuleError>)
        ensures
            r is Ok,
            r->Ok_0.path() == target@,
            r->Ok_0.includes() == crate::text::texts(include_paths@),
    {
        Ok(Cfile { target: target.to_owned(), include_paths })
    }

    /// The target path, relative to the sandbox.
    pub fn target(&self) -> (r: String)
        ensures
            r@ == self.path(),
    {
        self.target.clone()
    }

    /// The tag that tells the kind.
    pub fn tag(&self) -> (r: String)
        ensures
            r@ == "c file"@,
    {
        "c file".to_owned()
    }

    /// What identifies the node in the graph: its target path.
    pub fn id(&self) -> (r: String)
        ensures
            r@ == self.path(),
    {
        self.target.clone()
    }

    /// The node as the graph knows it.
    pub fn node(&self) -> (r: PathWithTag)
        ensures
            r@.path == self.path(),
            r@.tag == "c file"@,
    {
        PathWithTag { path: self.target.clone(), tag: "c file".to_owned() }
    }

    /// Where headers are looked for.
    pub closed spec fn includes(&self) -> Seq<Seq<char>> {
        crate::text::texts(self.include_paths@)
    }

    /// Where headers are looked for.
    pub fn include_paths(&self) -> (r: &Vec<String>)
        ensures
            crate::text::texts(r@) == self.includes(),
    {
        &self.include_paths
    }
}

} // verus!
