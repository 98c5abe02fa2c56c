//! A LilyPond source file.
use crate::command::RuleError;
use crate::model::PathWithTag;
use vstd::prelude::*;

verus! {

/// A LilyPond source file.
#[derive(Debug, Clone)]
pub struct Lyfile {
    target: String,
}

impl Lyfile {
    /// The target path, relative to the sandbox.
    pub closed spec fn path(&self) -> Seq<char> {
        self.target@
    }

    pub fn new(target: &str) -> (r: Result<Lyfile, RuleError>)
        ensures
            r is Ok,
            r->Ok_0.path() == target@,
    {
        Ok(Lyfile { target: target.to_owned() })
    }

    /// The target path, relative to the sandbox.
    pub fn target(&self) -> (r: String)
        ensures
            r@ == self.path(),
    {
        self.target.clone()
    }

    /// The tag that tells the kind.
    pub fn tag(&self) -> (r: String)
        ensures
            r@ == "ly file"@,
    {
        "ly file".to_owned()
    }

    /// What identifies the node in the graph: its target path.
    pub fn id(&self) -> (r: String)
        ensures
            r@ == self.path(),
    {
        self.target.clone()
    }

    /// The node as the graph knows it.
    pub fn node(&self) -> (r: PathWithTag)
        ensures
            r@.path == self.path(),
            r@.tag == "ly file"@,
    {
        PathWithTag { path: self.target.clone(), tag: "ly file".to_owned() }
    }
}

} // verus!
