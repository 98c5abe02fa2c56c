//! A static library, archived from its predecessors.
use crate::command::all_paths;
use crate::command::join_all;
use crate::command::paths_of_sources;
use crate::command::push_all;
use crate::command::rebased;
use crate::helpers::path::join;
use crate::helpers::path::joined;
use crate::model::PathWithTag;
use crate::state::node_views;
use crate::text::texts;
use vstd::prelude::*;

verus! {

/// A static library.
#[derive(Debug, Clone)]
pub struct AFile {
    pub name: String,
}

impl AFile {
    pub fn new(name: &str) -> (r: AFile)
        ensures
            r.name@ == name@,
    {
        AFile { name: name.to_owned() }
    }

    /// The tag that tells the kind.
    pub fn tag(&self) -> (r: String)
        ensures
            r@ == "AFile"@,
    {
        "AFile".to_owned()
    }

    /// The target path, relative to the sandbox.
    pub fn pathbuf(&self) -> (r: String)
        ensures
            r@ == self.name@,
    {
        self.name.clone()
    }

    /// The node as the graph knows it.
    pub fn node(&self) -> (r: PathWithTag)
        ensures
            r@.path == self.name@,
            r@.tag == "AFile"@,
    {
        PathWithTag { path: self.name.clone(), tag: "AFile".to_owned() }
    }

    /// The command that builds the library: `ar rcs`, the library, and then
    /// every predecessor, each placed in the sandbox.
    pub fn command(&self, sandbox: &str, predecessors: &Vec<PathWithTag>) -> (r: Vec<String>)
        ensures
            texts(r@) == seq!["ar"@, "rcs"@, joined(sandbox@, self.name@)] + rebased(
                sandbox@,
                paths_of_sources(node_views(predecessors@)),
            ),
    {
        let mut args: Vec<String> = Vec::new();
        args.push("ar".to_owned());
        args.push("rcs".to_owned());
        args.push(join(sandbox, self.name.as_str()));
        proof {
            assert(texts(args@) =~= seq!["ar"@, "rcs"@, joined(sandbox@, self.name@)]);
        }
        let inputs = join_all(sandbox, &all_paths(predecessors));
        push_all(&mut args, &inputs);
        args
    }
}

} // verus!
