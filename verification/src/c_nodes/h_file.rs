//! A C header file.
use crate::model::PathWithTag;
use vstd::prelude::*;

verus! {

/// A C header file: a root, copied from the source tree.
#[derive(Debug, Clone)]
pub struct HFile {
    pub name: String,
}

impl HFile {
    pub fn new(name: &str) -> (r: HFile)
        ensures
            r.name@ == name@,
    {
        HFile { name: name.to_owned() }
    }

    /// The tag that tells the kind.
    pub fn tag(&self) -> (r: String)
        ensures
            r@ == "HFile"@,
    {
        "HFile".to_owned()
    }

    /// The target path, relative to the sandbox.
    pub fn pathbuf(&self) -> (r: String)
        ensures
            r@ == self.name@,
    {
        self.name.clone()
    }

    /// The node as the graph knows it.
    pub fn node(&self) -> (r: PathWithTag)
        ensures
            r@.path == self.name@,
            r@.tag == "HFile"@,
    {
        PathWithTag { path: self.name.clone(), tag: "HFile".to_owned() }
    }
}

} // verus!
