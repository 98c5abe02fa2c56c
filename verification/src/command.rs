//! What build rules share: picking sources by tag, placing paths in the
//! sandbox, and the places of the per-node logs.
use crate::helpers::path::file_name;
use crate::helpers::path::file_name_of;
use crate::helpers::path::join;
use crate::helpers::path::joined;
use crate::helpers::path::parent;
use crate::helpers::path::parent_of;
use crate::model::NodeSpec;
use crate::model::PathWithTag;
use crate::state::node_views;
use crate::text::same_text;
use crate::text::texts;
use vstd::prelude::*;

verus! {

/// Why a rule cannot build from the sources it was given.
#[derive(Debug)]
pub enum RuleError {
    /// A source has a tag that the rule does not take; the path of the first
    /// such source.
    BadSource(String),
    /// The rule takes exactly one source of its kind; the number found.
    SourceCount(usize),
}

impl RuleError {
    /// The error in words.
    pub open spec fn text(self) -> Seq<char> {
        match self {
            RuleError::BadSource(p) => "found bad source : "@ + p@,
            RuleError::SourceCount(_) => "bad graph construct: the rule takes exactly one source of its kind"@,
        }
    }

    /// The error in words.
    pub fn message(&self) -> (r: String)
        ensures
            r@ == self.text(),
    {
        match self {
            RuleError::BadSource(p) => "found bad source : ".to_owned().concat(p.as_str()),
            RuleError::SourceCount(_) => "bad graph construct: the rule takes exactly one source of its kind".to_owned(),
        }
    }
}

/// The paths of the sources that carry the tag (`keep`) or do not carry it
/// (otherwise), in the order of the sources.
pub open spec fn picked(sources: Seq<NodeSpec>, tag: Seq<char>, keep: bool) -> Seq<Seq<char>>
    decreases sources.len(),
{
    if sources.len() == 0 {
        Seq::empty()
    } else {
        let rest = picked(sources.drop_last(), tag, keep);
        if (sources.last().tag == tag) == keep {
            rest.push(sources.last().path)
        } else {
            rest
        }
    }
}

/// The paths of the sources that carry the tag and whose file is called
/// `name`, in the order of the sources.
pub open spec fn picked_named(sources: Seq<NodeSpec>, tag: Seq<char>, name: Seq<char>) -> Seq<
    Seq<char>,
>
    decreases sources.len(),
{
    if sources.len() == 0 {
        Seq::empty()
    } else {
        let rest = picked_named(sources.drop_last(), tag, name);
        if sources.last().tag == tag && file_name_of(sources.last().path) == name {
            rest.push(sources.last().path)
        } else {
            rest
        }
    }
}

/// The paths of the sources, in the order of the sources.
pub open spec fn paths_of_sources(sources: Seq<NodeSpec>) -> Seq<Seq<char>> {
    Seq::new(sources.len(), |i: int| sources[i].path)
}

/// The paths, each seen from `base`.
pub open spec fn rebased(base: Seq<char>, paths: Seq<Seq<char>>) -> Seq<Seq<char>> {
    Seq::new(paths.len(), |i: int| joined(base, paths[i]))
}

/// The paths, each behind `flag`: `flag p0 flag p1 ...`.
pub open spec fn flagged(flag: Seq<char>, paths: Seq<Seq<char>>) -> Seq<Seq<char>> {
    Seq::new(
        2 * paths.len(),
        |i: int|
            if i % 2 == 0 {
                flag
            } else {
                paths[i / 2]
            },
    )
}

/// The paths of the sources that carry the tag, or of those that do not.
pub fn paths_with_tag(sources: &Vec<PathWithTag>, tag: &str, keep: bool) -> (r: Vec<String>)
    ensures
        texts(r@) == picked(node_views(sources@), tag@, keep),
{
    let mut r: Vec<String> = Vec::new();
    let mut i: usize = 0;
    let ghost all = node_views(sources@);
    proof {
        assert(all.take(0) =~= Seq::<NodeSpec>::empty());
        assert(texts(r@) =~= Seq::<Seq<char>>::empty());
    }
    while i < sources.len()
        invariant
            i <= sources@.len(),
            all == node_views(sources@),
            texts(r@) == picked(all.take(i as int), tag@, keep),
        decreases sources@.len() - i,
    {
        let ghost before = r@;
        proof {
            assert(all.take(i + 1).drop_last() =~= all.take(i as int));
            assert(all.take(i + 1).last() == sources@[i as int]@);
        }
        if same_text(sources[i].tag.as_str(), tag) == keep {
            r.push(sources[i].path.clone());
            proof {
                assert(texts(r@) =~= texts(before).push(sources@[i as int]@.path));
            }
        }
        i += 1;
    }
    proof {
        assert(all.take(i as int) =~= all);
    }
    r
}

/// The paths of the sources that carry the tag and whose file is called
/// `name`.
pub fn paths_with_tag_named(sources: &Vec<PathWithTag>, tag: &str, name: &str) -> (r: Vec<String>)
    ensures
        texts(r@) == picked_named(node_views(sources@), tag@, name@),
{
    let mut r: Vec<String> = Vec::new();
    let mut i: usize = 0;
    let ghost all = node_views(sources@);
    proof {
        assert(all.take(0) =~= Seq::<NodeSpec>::empty());
        assert(texts(r@) =~= Seq::<Seq<char>>::empty());
    }
    while i < sources.len()
        invariant
            i <= sources@.len(),
            all == node_views(sources@),
            texts(r@) == picked_named(all.take(i as int), tag@, name@),
        decreases sources@.len() - i,
    {
        let ghost before = r@;
        proof {
            assert(all.take(i + 1).drop_last() =~= all.take(i as int));
            assert(all.take(i + 1).last() == sources@[i as int]@);
        }
        if same_text(sources[i].tag.as_str(), tag) && same_text(
            file_name(sources[i].path.as_str()).as_str(),
            name,
        ) {
            r.push(sources[i].path.clone());
            proof {
                assert(texts(r@) =~= texts(before).push(sources@[i as int]@.path));
            }
        }
        i += 1;
    }
    proof {
        assert(all.take(i as int) =~= all);
    }
    r
}

/// The paths of the sources.
pub fn all_paths(sources: &Vec<PathWithTag>) -> (r: Vec<String>)
    ensures
        texts(r@) == paths_of_sources(node_views(sources@)),
{
    let mut r: Vec<String> = Vec::new();
    let mut i: usize = 0;
    while i < sources.len()
        invariant
            i <= sources@.len(),
            r@.len() == i,
            forall|k: int| 0 <= k < i ==> (#[trigger] r@[k])@ == sources@[k]@.path,
        decreases sources@.len() - i,
    {
        r.push(sources[i].path.clone());
        i += 1;
    }
    proof {
        assert(texts(r@) =~= paths_of_sources(node_views(sources@)));
    }
    r
}

/// The one source that carries the tag.
pub fn only_source(sources: &Vec<PathWithTag>, tag: &str) -> (r: Result<String, RuleError>)
    ensures
        match r {
            Ok(p) => picked(node_views(sources@), tag@, true) == seq![p@],
            Err(RuleError::SourceCount(n)) => n == picked(node_views(sources@), tag@, true).len()
                && n != 1,
            Err(RuleError::BadSource(_)) => false,
        },
{
    let mut found = paths_with_tag(sources, tag, true);
    if found.len() == 1 {
        let p = found.remove(0);
        proof {
            let want = picked(node_views(sources@), tag@, true);
            assert(want.len() == 1);
            assert(want =~= seq![p@]);
        }
        Ok(p)
    } else {
        Err(RuleError::SourceCount(found.len()))
    }
}

/// The path of the first source that does not carry the tag, if any.
pub fn first_without_tag(sources: &Vec<PathWithTag>, tag: &str) -> (r: Option<String>)
    ensures
        match r {
            Some(p) => exists|i: int|
                0 <= i < sources@.len() && (#[trigger] sources@[i])@.tag != tag@ && p@
                    == sources@[i]@.path && forall|j: int|
                    0 <= j < i ==> (#[trigger] sources@[j])@.tag == tag@,
            None => forall|j: int| 0 <= j < sources@.len() ==> (#[trigger] sources@[j])@.tag == tag@,
        },
{
    let mut i: usize = 0;
    while i < sources.len()
        invariant
            i <= sources@.len(),
            forall|j: int| 0 <= j < i ==> (#[trigger] sources@[j])@.tag == tag@,
        decreases sources@.len() - i,
    {
        if !same_text(sources[i].tag.as_str(), tag) {
            return Some(sources[i].path.clone());
        }
        i += 1;
    }
    None
}

/// The paths, each seen from `base`.
pub fn join_all(base: &str, paths: &Vec<String>) -> (r: Vec<String>)
    ensures
        texts(r@) == rebased(base@, texts(paths@)),
{
    let mut r: Vec<String> = Vec::new();
    let mut i: usize = 0;
    while i < paths.len()
        invariant
            i <= paths@.len(),
            r@.len() == i,
            forall|k: int| 0 <= k < i ==> (#[trigger] r@[k])@ == joined(base@, paths@[k]@),
        decreases paths@.len() - i,
    {
        r.push(join(base, paths[i].as_str()));
        i += 1;
    }
    proof {
        assert(texts(r@) =~= rebased(base@, texts(paths@)));
    }
    r
}

/// Puts `more` behind `args`.
pub fn push_all(args: &mut Vec<String>, more: &Vec<String>)
    ensures
        texts(final(args)@) == texts(old(args)@) + texts(more@),
{
    let mut i: usize = 0;
    proof {
        assert(texts(args@) =~= texts(old(args)@) + texts(more@).take(0));
    }
    while i < more.len()
        invariant
            i <= more@.len(),
            texts(args@) == texts(old(args)@) + texts(more@).take(i as int),
        decreases more@.len() - i,
    {
        let ghost before = args@;
        args.push(more[i].clone());
        proof {
            assert(texts(args@) =~= texts(before).push(more@[i as int]@));
            assert(texts(more@).take(i + 1) =~= texts(more@).take(i as int).push(more@[i as int]@));
            assert(texts(args@) =~= texts(old(args)@) + texts(more@).take(i + 1));
        }
        i += 1;
    }
    proof {
        assert(texts(more@).take(i as int) =~= texts(more@));
    }
}

/// Puts each of `more` behind `args`, with `flag` in front of it.
pub fn push_flagged(args: &mut Vec<String>, flag: &str, more: &Vec<String>)
    ensures
        texts(final(args)@) == texts(old(args)@) + flagged(flag@, texts(more@)),
{
    let mut i: usize = 0;
    proof {
        assert(texts(args@) =~= texts(old(args)@) + flagged(flag@, texts(more@).take(0)));
    }
    while i < more.len()
        invariant
            i <= more@.len(),
            texts(args@) == texts(old(args)@) + flagged(flag@, texts(more@).take(i as int)),
        decreases more@.len() - i,
    {
        let ghost before = args@;
        args.push(flag.to_owned());
        args.push(more[i].clone());
        proof {
            let a = flagged(flag@, texts(more@).take(i as int));
            let b = flagged(flag@, texts(more@).take(i + 1));
            assert(texts(args@) =~= texts(before).push(flag@).push(more@[i as int]@));
            assert(b =~= a.push(flag@).push(more@[i as int]@)) by {
                assert(b.len() == a.len() + 2);
                assert forall|k: int| 0 <= k < b.len() implies b[k] == a.push(flag@).push(
                    more@[i as int]@,
                )[k] by {
                    if k < a.len() {
                        assert(texts(more@).take(i + 1)[k / 2] == texts(more@).take(i as int)[k / 2]);
                    }
                }
            }
            assert(texts(args@) =~= texts(old(args)@) + b);
        }
        i += 1;
    }
    proof {
        assert(texts(more@).take(i as int) =~= texts(more@));
    }
}

/// Where the output (`.stdout`) and the errors (`.stderr`) of the build of
/// a node are logged: under `logs` in the sandbox, at the node's path with
/// the suffix behind its file name. A path without a file name gets the
/// suffix as its file name.
pub open spec fn log_path(sandbox: Seq<char>, node_id: Seq<char>, suffix: Seq<char>) -> Seq<char> {
    let base = joined(joined(sandbox, "logs"@), node_id);
    if file_name_of(base).len() == 0 {
        joined(base, suffix)
    } else {
        joined(parent_of(base), file_name_of(base) + suffix)
    }
}

/// The places of the two logs of a node.
pub fn create_log_paths(sandbox: &str, node_id: &str) -> (r: (String, String))
    ensures
        r.0@ == log_path(sandbox@, node_id@, ".stdout"@),
        r.1@ == log_path(sandbox@, node_id@, ".stderr"@),
{
    let logs = join(sandbox, "logs");
    let base = join(logs.as_str(), node_id);
    let name = file_name(base.as_str());
    if name.as_str().unicode_len() == 0 {
        (join(base.as_str(), ".stdout"), join(base.as_str(), ".stderr"))
    } else {
        let dir = parent(base.as_str());
        let out = name.clone().concat(".stdout");
        let err = name.concat(".stderr");
        (join(dir.as_str(), out.as_str()), join(dir.as_str(), err.as_str()))
    }
}

} // verus!
