//! An executable, linked from its predecessors.
use crate::command::join_all;
use crate::command::paths_with_tag;
use crate::command::picked;
use crate::command::push_all;
use crate::command::rebased;
use crate::helpers::path::join;
use crate::helpers::path::joined;
use crate::model::PathWithTag;
use crate::state::node_views;
use crate::text::texts;
use vstd::prelude::*;

verus! {

/// An executable.
#[derive(Debug, Clone)]
pub struct XFile {
    pub name: String,
}

impl XFile {
    pub fn new(name: &str) -> (r: XFile)
        ensures
            r.name@ == name@,
    {
        XFile { name: name.to_owned() }
    }

    /// The tag that tells the kind.
    pub fn tag(&self) -> (r: String)
        ensures
            r@ == "XFile"@,
    {
        "XFile".to_owned()
    }

    /// The target path, relative to the sandbox.
    pub fn pathbuf(&self) -> (r: String)
        ensures
            r@ == self.name@,
    {
        self.name.clone()
    }

    /// The node as the graph knows it.
    pub fn node(&self) -> (r: PathWithTag)
        ensures
            r@.path == self.name@,
            r@.tag == "XFile"@,
    {
        PathWithTag { path: self.name.clone(), tag: "XFile".to_owned() }
    }

    /// The command that links the executable: `gcc -o`, the executable, the
    /// predecessors that are no libraries, and then the libraries, which the
    /// linker wants last; each placed in the sandbox.
    pub fn command(&self, sandbox: &str, predecessors: &Vec<PathWithTag>) -> (r: Vec<String>)
        ensures
            texts(r@) == seq!["gcc"@, "-o"@, joined(sandbox@, self.name@)] + rebased(
                sandbox@,
                picked(node_views(predecessors@), "AFile"@, false),
            ) + rebased(sandbox@, picked(node_views(predecessors@), "AFile"@, true)),
    {
        let mut args: Vec<String> = Vec::new();
        args.push("gcc".to_owned());
        args.push("-o".to_owned());
        args.push(join(sandbox, self.name.as_str()));
        proof {
            assert(texts(args@) =~= seq!["gcc"@, "-o"@, joined(sandbox@, self.name@)]);
        }
        let objects = join_all(sandbox, &paths_with_tag(predecessors, "AFile", false));
        let libraries = join_all(sandbox, &paths_with_tag(predecessors, "AFile", true));
        push_all(&mut args, &objects);
        push_all(&mut args, &libraries);
        args
    }
}

} // verus!
