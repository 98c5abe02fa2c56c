//! Finding references to other files in the content of a file, and keeping
//! track of what a scan has found.
//!
//! Reading the files is left to whoever drives the scan: it reads a file,
//! asks for the references in it, and follows each reference that is new.
use crate::scan::ScanOutcome;
use crate::scan::ScannedPath;
use crate::helpers::path::join;
use crate::helpers::path::joined;
use crate::text::same_path;
use crate::text::same_path_text;
use crate::text::texts;
use regex::Regex;
use vstd::prelude::*;

verus! {

/// The text that the first group of each match of the regular expression
/// `pattern` takes in `content`, match by match from left to right; `None`
/// if `pattern` is no regular expression.
pub uninterp spec fn first_groups(pattern: Seq<char>, content: Seq<char>) -> Option<Seq<Seq<char>>>;

/// The texts of an optional list of strings.
pub open spec fn group_texts(r: Option<Vec<String>>) -> Option<Seq<Seq<char>>> {
    match r {
        Some(v) => Some(texts(v@)),
        None => None,
    }
}

/// `Regex::new` and `Regex::captures_iter` of the `regex` crate: for each
/// match of `pattern` in `content`, the text of its first group, which is
/// empty where the group took no part in the match.
#[verifier::external_body]
fn regex_first_groups(pattern: &str, content: &str) -> (r: Option<Vec<String>>)
    ensures
        group_texts(r) == first_groups(pattern@, content@),
{
    match Regex::new(pattern) {
        Ok(re) => Some(
            re.captures_iter(content).map(
                |c| c.get(1).map_or(String::new(), |m| m.as_str().to_owned()),
            ).collect(),
        ),
        Err(_) => None,
    }
}

/// A way in which one file names another.
#[derive(Debug, Clone, Copy, PartialEq, Eq, Structural)]
pub enum Reference {
    /// `#include "..."` at the start of a line of C.
    CInclude,
    /// `#include "..."` anywhere in a line of C.
    CIncludeAnywhere,
    /// `input{...}` in TeX.
    TexInput,
    /// `input "..."` in LilyPond.
    LyInput,
}

impl Reference {
    /// The regular expression that finds the references; its first group is
    /// the name of the file.
    pub open spec fn pattern_text(self) -> Seq<char> {
        match self {
            Reference::CInclude => "(?m)^\\s*#include\\s+\"([^\"]+)\""@,
            Reference::CIncludeAnywhere => "#include *\"(?<f>.*)\".*"@,
            Reference::TexInput => "input *\\{ *(?<f>.*) *\\}.*"@,
            Reference::LyInput => "input *\"(?<f>.*)\".*"@,
        }
    }

    /// The regular expression that finds the references.
    pub fn pattern(&self) -> (r: &'static str)
        ensures
            r@ == self.pattern_text(),
    {
        match self {
            Reference::CInclude => "(?m)^\\s*#include\\s+\"([^\"]+)\"",
            Reference::CIncludeAnywhere => "#include *\"(?<f>.*)\".*",
            Reference::TexInput => "input *\\{ *(?<f>.*) *\\}.*",
            Reference::LyInput => "input *\"(?<f>.*)\".*",
        }
    }
}

/// The files that `content` names, in the order in which it names them.
pub open spec fn references_in(kind: Reference, content: Seq<char>) -> Seq<Seq<char>> {
    match first_groups(kind.pattern_text(), content) {
        Some(names) => names,
        None => Seq::empty(),
    }
}

/// The files that `content` names, as written, in the order in which it
/// names them.
pub fn find_references(kind: Reference, content: &str) -> (r: Vec<String>)
    ensures
        texts(r@) == references_in(kind, content@),
{
    match regex_first_groups(kind.pattern(), content) {
        Some(names) => names,
        None => {
            let r: Vec<String> = Vec::new();
            proof {
                assert(texts(r@) =~= Seq::<Seq<char>>::empty());
            }
            r
        },
    }
}

/// One of the names is a spelling of the path `name`.
pub open spec fn listed(names: Seq<Seq<char>>, name: Seq<char>) -> bool {
    exists|k: int| 0 <= k < names.len() && same_path(#[trigger] names[k], name)
}

/// The place of `name` in each of the directories.
pub open spec fn rebased_each(dirs: Seq<Seq<char>>, name: Seq<char>) -> Seq<Seq<char>> {
    Seq::new(dirs.len(), |i: int| joined(dirs[i], name))
}

/// Where a file that is named `name` is looked for, in this order: in each
/// of the directories.
pub fn candidates_in(dirs: &Vec<String>, name: &str) -> (r: Vec<String>)
    ensures
        texts(r@) == rebased_each(texts(dirs@), name@),
{
    let mut r: Vec<String> = Vec::new();
    let mut i: usize = 0;
    while i < dirs.len()
        invariant
            i <= dirs@.len(),
            r@.len() == i,
            forall|k: int| 0 <= k < i ==> (#[trigger] r@[k])@ == joined(dirs@[k]@, name@),
        decreases dirs@.len() - i,
    {
        r.push(join(dirs[i].as_str(), name));
        i += 1;
    }
    proof {
        assert(texts(r@) =~= rebased_each(texts(dirs@), name@));
    }
    r
}

/// Where a file that is named `name` is looked for, in this order: in the
/// sandbox, then in each of the include paths.
pub fn candidates(sandbox: &str, include_paths: &Vec<String>, name: &str) -> (r: Vec<String>)
    ensures
        texts(r@) == seq![joined(sandbox@, name@)] + rebased_each(texts(include_paths@), name@),
{
    let mut r: Vec<String> = Vec::new();
    r.push(join(sandbox, name));
    proof {
        assert(texts(r@) =~= seq![joined(sandbox@, name@)]);
    }
    let more = candidates_in(include_paths, name);
    crate::command::push_all(&mut r, &more);
    r
}

/// What a scan has found so far.
pub struct IncludeScan {
    found: Vec<String>,
    complete: bool,
}

impl IncludeScan {
    /// The names found so far, each once, in the order of their finding.
    pub closed spec fn names(&self) -> Seq<Seq<char>> {
        texts(self.found@)
    }

    /// Every file could be read and every name be followed so far.
    pub closed spec fn is_complete(&self) -> bool {
        self.complete
    }

    /// No path is listed twice, however it is spelled.
    pub closed spec fn wf(&self) -> bool {
        forall|i: int, j: int|
            0 <= i < j < self.found@.len() ==> !same_path(
                (#[trigger] self.found@[i])@,
                (#[trigger] self.found@[j])@,
            )
    }

    /// A scan that has found nothing yet.
    pub fn new() -> (r: IncludeScan)
        ensures
            r.wf(),
            r.names() =~= Seq::<Seq<char>>::empty(),
            r.is_complete(),
    {
        IncludeScan { found: Vec::new(), complete: true }
    }

    /// Takes note of a name. Returns whether the path it names is new, that
    /// is, whether the file has to be read in turn. A path that was found
    /// before under another spelling is not new.
    pub fn visit(&mut self, name: &str) -> (fresh: bool)
        requires
            old(self).wf(),
        ensures
            final(self).wf(),
            final(self).is_complete() == old(self).is_complete(),
            fresh == !listed(old(self).names(), name@),
            fresh ==> final(self).names() == old(self).names().push(name@),
            !fresh ==> final(self).names() == old(self).names(),
    {
        let mut i: usize = 0;
        while i < self.found.len()
            invariant
                self == old(self),
                self.wf(),
                i <= self.found@.len(),
                forall|k: int| 0 <= k < i ==> !same_path((#[trigger] self.found@[k])@, name@),
            decreases self.found@.len() - i,
        {
            if same_path_text(self.found[i].as_str(), name) {
                proof {
                    assert(same_path(texts(self.found@)[i as int], name@));
                }
                return false;
            }
            i += 1;
        }
        proof {
            if listed(old(self).names(), name@) {
                let k = choose|k: int|
                    0 <= k < old(self).names().len() && same_path(
                        #[trigger] old(self).names()[k],
                        name@,
                    );
                assert(same_path(self.found@[k]@, name@));
            }
        }
        self.found.push(name.to_owned());
        proof {
            assert(texts(self.found@) =~= old(self).names().push(name@));
        }
        true
    }

    /// Takes note that a file could not be read, or that a name could not
    /// be followed.
    pub fn missing(&mut self)
        requires
            old(self).wf(),
        ensures
            final(self).wf(),
            !final(self).is_complete(),
            final(self).names() == old(self).names(),
    {
        self.complete = false;
    }

    /// Whether every file could be read and every name be followed.
    pub fn complete(&self) -> (r: bool)
        ensures
            r == self.is_complete(),
    {
        self.complete
    }

    /// The names found, each once, in the order of their finding.
    pub fn found(&self) -> (r: &Vec<String>)
        ensures
            texts(r@) == self.names(),
    {
        &self.found
    }

    /// What the scan reports, given for each name found whether a file of
    /// that name is in the sandbox.
    pub fn outcome(&self, exists: &Vec<bool>) -> (r: ScanOutcome)
        requires
            exists@.len() == self.names().len(),
        ensures
            r@.complete == self.is_complete(),
            r@.paths.len() == self.names().len(),
            forall|k: int|
                0 <= k < r@.paths.len() ==> (#[trigger] r@.paths[k]).path == self.names()[k]
                    && r@.paths[k].exists == exists@[k],
    {
        let mut paths: Vec<ScannedPath> = Vec::new();
        let mut k: usize = 0;
        while k < self.found.len()
            invariant
                exists@.len() == self.found@.len(),
                k <= self.found@.len(),
                paths@.len() == k,
                forall|j: int|
                    0 <= j < k ==> (#[trigger] paths@[j])@.path == self.found@[j]@ && paths@[j]@.exists
                        == exists@[j],
            decreases self.found@.len() - k,
        {
            paths.push(ScannedPath { path: self.found[k].clone(), exists: exists[k] });
            k += 1;
        }
        let r = ScanOutcome { complete: self.complete, paths };
        proof {
            assert forall|j: int| 0 <= j < r@.paths.len() implies (#[trigger] r@.paths[j]).path
                == self.names()[j] && r@.paths[j].exists == exists@[j] by {
                assert(r@.paths[j] == paths@[j]@);
            }
        }
        r
    }
}

} // verus!
