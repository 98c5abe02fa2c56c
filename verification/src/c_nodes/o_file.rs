//! An object file, compiled from the C sources among its predecessors.
use crate::command::flagged;
use crate::command::join_all;
use crate::command::paths_with_tag;
use crate::command::picked;
use crate::command::push_all;
use crate::command::push_flagged;
use crate::command::rebased;
use crate::helpers::path::join;
use crate::helpers::path::joined;
use crate::model::PathWithTag;
use crate::state::node_views;
use crate::text::texts;
use vstd::prelude::*;

verus! {

/// An object file.
#[derive(Debug, Clone)]
pub struct OFile {
    pub name: String,
    /// Where headers are looked for besides the sandbox.
    pub include_paths: Vec<String>,
    pub compile_flags: Vec<String>,
}

impl OFile {
    pub fn new(name: &str, include_paths: Vec<String>, compile_flags: Vec<String>) -> (r: OFile)
        ensures
            r.name@ == name@,
            r.include_paths == include_paths,
            r.compile_flags == compile_flags,
    {
        OFile { name: name.to_owned(), include_paths, compile_flags }
    }

    /// The tag that tells the kind.
    pub fn tag(&self) -> (r: String)
        ensures
            r@ == "OFile"@,
    {
        "OFile".to_owned()
    }

    /// The target path, relative to the sandbox.
    pub fn pathbuf(&self) -> (r: String)
        ensures
            r@ == self.name@,
    {
        self.name.clone()
    }

    /// The node as the graph knows it.
    pub fn node(&self) -> (r: PathWithTag)
        ensures
            r@.path == self.name@,
            r@.tag == "OFile"@,
    {
        PathWithTag { path: self.name.clone(), tag: "OFile".to_owned() }
    }

    /// The command that compiles the object: `gcc -c`, the flags, the
    /// sandbox and each include path as `-I`, the object as `-o`, and the C
    /// sources among the predecessors. Headers are no inputs: they are found
    /// through `-I`.
    pub fn command(&self, sandbox: &str, predecessors: &Vec<PathWithTag>) -> (r: Vec<String>)
        ensures
            texts(r@) == seq!["gcc"@, "-c"@] + texts(self.compile_flags@) + seq!["-I"@, sandbox@]
                + flagged("-I"@, rebased(sandbox@, texts(self.include_paths@))) + seq![
                "-o"@,
                joined(sandbox@, self.name@),
            ] + rebased(sandbox@, picked(node_views(predecessors@), "CFile"@, true)),
    {
        let mut args: Vec<String> = Vec::new();
        args.push("gcc".to_owned());
        args.push("-c".to_owned());
        proof {
            assert(texts(args@) =~= seq!["gcc"@, "-c"@]);
        }
        push_all(&mut args, &self.compile_flags);
        let ghost a1 = texts(args@);
        args.push("-I".to_owned());
        args.push(sandbox.to_owned());
        proof {
            assert(texts(args@) =~= a1 + seq!["-I"@, sandbox@]);
        }
        let includes = join_all(sandbox, &self.include_paths);
        push_flagged(&mut args, "-I", &includes);
        let ghost a2 = texts(args@);
        args.push("-o".to_owned());
        args.push(join(sandbox, self.name.as_str()));
        proof {
            assert(texts(args@) =~= a2 + seq!["-o"@, joined(sandbox@, self.name@)]);
        }
        let inputs = join_all(sandbox, &paths_with_tag(predecessors, "CFile", true));
        push_all(&mut args, &inputs);
        args
    }
}

} // verus!
