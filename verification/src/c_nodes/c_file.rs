//! A C source file.
use crate::model::PathWithTag;
use vstd::prelude::*;

verus! {

/// A C source file: a root, copied from the source tree.
#[derive(Debug, Clone)]
pub struct CFile {
    pub name: String,
}

impl CFile {
    pub fn new(name: &str) -> (r: CFile)
        ensures
            r.name@ == name@,
    {
        CFile { name: name.to_owned() }
    }

    /// The tag that tells the kind.
    pub fn tag(&self) -> (r: String)
        ensures
            r@ == "CFile"@,
    {
        "CFile".to_owned()
    }

    /// The target path, relative to the sandbox.
    pub fn pathbuf(&self) -> (r: String)
        ensures
            r@ == self.name@,
    {
        self.name.clone()
    }

    /// The node as the graph knows it.
    pub fn node(&self) -> (r: PathWithTag)
        ensures
            r@.path == self.name@,
            r@.tag == "CFile"@,
    {
        PathWithTag { path: self.name.clone(), tag: "CFile".to_owned() }
    }
}

} // verus!
