//! A TeX source file.
use crate::command::RuleError;
use crate::model::PathWithTag;
use vstd::prelude::*;

verus! {

/// A TeX source file.
#[derive(Debug, Clone)]
pub struct Texfile {
    target: String,
}

impl Texfile {
    /// The target path, relative to the sandbox.
    pub closed spec fn path(&self) -> Seq<char> {
        self.target@
    }

    pub fn new(target: &str) -> (r: Result<Texfile, RuleError>)
        ensures
            r is Ok,
            r->Ok_0.path() == target@,
    {
        Ok(Texfile { target: target.to_owned() })
    }

    /// The target path, relative to the sandbox.
    pub fn target(&self) -> (r: String)
        ensures
            r@ == self.path(),
    {
        self.target.clone()
    }

    /// The tag that tells the kind.
    pub fn tag(&self) -> (r: String)
        ensures
            r@ == "tex file"@,
    {
        "tex file".to_owned()
    }

    /// What identifies the node in the graph: its target path.
    pub fn id(&self) -> (r: String)
        ensures
            r@ == self.path(),
    {
        self.target.clone()
    }

    /// The node as the graph knows it.
    pub fn node(&self) -> (r: PathWithTag)
        ensures
            r@.path == self.path(),
            r@.tag == "tex file"@,
    {
        PathWithTag { path: self.target.clone(), tag: "tex file".to_owned() }
    }
}

} // verus!
