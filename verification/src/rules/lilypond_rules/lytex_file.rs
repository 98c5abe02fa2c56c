//! The TeX rendering of a LilyPond score.
use crate::command::RuleError;
use crate::model::PathWithTag;
use crate::command::only_source;
use crate::helpers::path::file_name;
use crate::helpers::path::file_name_of;
use crate::helpers::path::join;
use crate::helpers::path::joined;
use crate::helpers::path::parent;
use crate::helpers::path::parent_of;
use crate::helpers::path::replaced;
use crate::helpers::path::text_replace;
use crate::helpers::path::with_extension;
use crate::helpers::path::with_extension_of;
use crate::text::texts;
use crate::command::picked;
use crate::state::node_views;
use vstd::prelude::*;

verus! {

/// What it takes to engrave a score with `lilypond-book`.
#[derive(Debug, Clone)]
pub struct LyPlan {
    /// The wrapper file to write beside the score.
    pub lytex_file: String,
    /// What to write into the wrapper: the score is included by name.
    pub lytex_content: String,
    /// Where the rendering goes.
    pub output_dir: String,
    /// The command, the program first.
    pub args: Vec<String>,
    /// The directory to run the command in: where the score is.
    pub dir: String,
}

/// Where the rendering of the score at `source` goes: beside the score, in
/// a directory named after it, with every `.ly` taken out of the name and
/// `output` as extension.
pub open spec fn ly_output_dir(source: Seq<char>) -> Seq<char> {
    with_extension_of(
        joined(parent_of(source), replaced(file_name_of(source), ".ly"@, Seq::empty())),
        "output"@,
    )
}

impl LyPlan {
    /// The plan is the one for the score at `source`.
    pub open spec fn fits(&self, source: Seq<char>) -> bool {
        &&& self.lytex_file@ == with_extension_of(source, "lytex"@)
        &&& self.lytex_content@ == "\\lilypondfile{"@ + file_name_of(source) + "}"@
        &&& self.output_dir@ == ly_output_dir(source)
        &&& texts(self.args@) == seq![
            "lilypond-book"@,
            "--output"@,
            ly_output_dir(source),
            "--pdf"@,
            "--latex-program=lualatex"@,
            with_extension_of(source, "lytex"@),
        ]
        &&& self.dir@ == parent_of(source)
    }
}

/// The TeX rendering of a LilyPond score.
#[derive(Debug, Clone)]
pub struct Lyoutputfile {
    target: String,
}

impl Lyoutputfile {
    /// The target path, relative to the sandbox.
    pub closed spec fn path(&self) -> Seq<char> {
        self.target@
    }

    pub fn new(target: &str) -> (r: Result<Lyoutputfile, RuleError>)
        ensures
            r is Ok,
            r->Ok_0.path() == target@,
    {
        Ok(Lyoutputfile { target: target.to_owned() })
    }

    /// The target path, relative to the sandbox.
    pub fn target(&self) -> (r: String)
        ensures
            r@ == self.path(),
    {
        self.target.clone()
    }

    /// The tag that tells the kind.
    pub fn tag(&self) -> (r: String)
        ensures
            r@ == "lytex file"@,
    {
        "lytex file".to_owned()
    }

    /// What identifies the node in the graph: its target path.
    pub fn id(&self) -> (r: String)
        ensures
            r@ == self.path(),
    {
        self.target.clone()
    }

    /// The node as the graph knows it.
    pub fn node(&self) -> (r: PathWithTag)
        ensures
            r@.path == self.path(),
            r@.tag == "lytex file"@,
    {
        PathWithTag { path: self.target.clone(), tag: "lytex file".to_owned() }
    }

    /// The score that the node is engraved from: the one LilyPond source
    /// among the sources. It is an error if the sources do not hold exactly
    /// one.
    pub fn source(&self, sources: &Vec<PathWithTag>) -> (r: Result<String, RuleError>)
        ensures
            match r {
                Ok(p) => picked(node_views(sources@), "ly file"@, true) == seq![p@],
                Err(RuleError::SourceCount(n)) => n == picked(
                    node_views(sources@),
                    "ly file"@,
                    true,
                ).len() && n != 1,
                Err(RuleError::BadSource(_)) => false,
            },
    {
        only_source(sources, "ly file")
    }

    /// What it takes to engrave the score: the wrapper to write, the
    /// command to run and where to run it.
    pub fn plan(&self, sources: &Vec<PathWithTag>) -> (r: Result<LyPlan, RuleError>)
        ensures
            match r {
                Ok(plan) => picked(node_views(sources@), "ly file"@, true).len() == 1 && plan.fits(
                    picked(node_views(sources@), "ly file"@, true)[0],
                ),
                Err(RuleError::SourceCount(n)) => n == picked(
                    node_views(sources@),
                    "ly file"@,
                    true,
                ).len() && n != 1,
                Err(RuleError::BadSource(_)) => false,
            },
    {
        let source = match only_source(sources, "ly file") {
            Ok(s) => s,
            Err(e) => {
                return Err(e);
            },
        };
        let name = file_name(source.as_str());
        proof {
            reveal_strlit(".ly");
            reveal_strlit("");
            assert(""@ =~= Seq::<char>::empty());
        }
        let stem = text_replace(name.as_str(), ".ly", "");
        let dir = parent(source.as_str());
        let output_dir = with_extension(join(dir.as_str(), stem.as_str()).as_str(), "output");
        let lytex_file = with_extension(source.as_str(), "lytex");
        let lytex_content = "\\lilypondfile{".to_owned().concat(name.as_str()).concat("}");
        let mut args: Vec<String> = Vec::new();
        args.push("lilypond-book".to_owned());
        args.push("--output".to_owned());
        args.push(output_dir.clone());
        args.push("--pdf".to_owned());
        args.push("--latex-program=lualatex".to_owned());
        args.push(lytex_file.clone());
        let plan = LyPlan { lytex_file, lytex_content, output_dir, args, dir };
        proof {
            assert(texts(plan.args@) =~= seq![
                "lilypond-book"@,
                "--output"@,
                ly_output_dir(source@),
                "--pdf"@,
                "--latex-program=lualatex"@,
                with_extension_of(source@, "lytex"@),
            ]);
            assert(plan.fits(source@));
        }
        Ok(plan)
    }
}

} // verus!
