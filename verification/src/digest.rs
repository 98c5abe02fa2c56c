//! Content digests: the SHA-256 of a file's bytes, written in hexadecimal,
//! and the digests that the previous run recorded.
use crate::model::MakeOutput;
use crate::model::OutputSpec;
use crate::text::same_text;
use sha2::Digest;
use sha2::Sha256;
use vstd::prelude::*;
use vstd::utf8::encode_utf8;

verus! {

/// The SHA-256 hash of a byte string.
pub uninterp spec fn sha256(data: Seq<u8>) -> Seq<u8>;

/// The lower-case hexadecimal digit for a value below sixteen.
pub open spec fn hex_digit(v: u8) -> char {
    if v == 0 {
        '0'
    } else if v == 1 {
        '1'
    } else if v == 2 {
        '2'
    } else if v == 3 {
        '3'
    } else if v == 4 {
        '4'
    } else if v == 5 {
        '5'
    } else if v == 6 {
        '6'
    } else if v == 7 {
        '7'
    } else if v == 8 {
        '8'
    } else if v == 9 {
        '9'
    } else if v == 10 {
        'a'
    } else if v == 11 {
        'b'
    } else if v == 12 {
        'c'
    } else if v == 13 {
        'd'
    } else if v == 14 {
        'e'
    } else {
        'f'
    }
}

/// A byte string in hexadecimal: two lower-case digits per byte, the high
/// half of each byte first.
pub open spec fn hex_text(data: Seq<u8>) -> Seq<char> {
    Seq::new(
        2 * data.len(),
        |i: int|
            if i % 2 == 0 {
                hex_digit(data[i / 2] / 16)
            } else {
                hex_digit(data[i / 2] % 16)
            },
    )
}

/// The digest of a file with the given content.
pub open spec fn digest_text(content: Seq<u8>) -> Seq<char> {
    hex_text(sha256(content))
}

/// `Sha256::new`, `update` and `finalize` of the `sha2` crate: the SHA-256
/// hash of `data`.
#[verifier::external_body]
fn sha256_of(data: &[u8]) -> (r: Vec<u8>)
    ensures
        r@ == sha256(data@),
{
    let mut hasher = Sha256::new();
    hasher.update(data);
    hasher.finalize().to_vec()
}

/// `hex::encode`: each byte as two lower-case hexadecimal digits.
#[verifier::external_body]
fn hex_of(data: &[u8]) -> (r: String)
    ensures
        r@ == hex_text(data@),
{
    hex::encode(data)
}

/// The digest of a file's content.
pub fn compute_file_digest(content: &[u8]) -> (r: String)
    ensures
        r@ == digest_text(content@),
{
    let hash = sha256_of(content);
    hex_of(hash.as_slice())
}

/// The digest of a text, taken over its UTF-8 encoding.
pub fn text_digest(text: &str) -> (r: String)
    ensures
        r@ == digest_text(encode_utf8(text@)),
{
    compute_file_digest(text.as_bytes())
}

/// The (path, digest) pairs of the records that hold a digest, in the order
/// of the report.
pub open spec fn digest_entries(report: Seq<OutputSpec>) -> Seq<(Seq<char>, Seq<char>)>
    decreases report.len(),
{
    if report.len() == 0 {
        Seq::empty()
    } else {
        let rest = digest_entries(report.drop_last());
        match report.last().digest {
            Some(d) => rest.push((report.last().path, d)),
            None => rest,
        }
    }
}

/// The digest recorded for `path`: that of the last entry with this path.
pub open spec fn recorded(entries: Seq<(Seq<char>, Seq<char>)>, path: Seq<char>) -> Option<Seq<char>>
    decreases entries.len(),
{
    if entries.len() == 0 {
        None
    } else if entries.last().0 == path {
        Some(entries.last().1)
    } else {
        recorded(entries.drop_last(), path)
    }
}

/// The digests that the previous run recorded, by path.
pub struct DigestTable {
    entries: Vec<(String, String)>,
}

impl View for DigestTable {
    type V = Seq<(Seq<char>, Seq<char>)>;

    closed spec fn view(&self) -> Seq<(Seq<char>, Seq<char>)> {
        Seq::new(self.entries@.len(), |i: int| (self.entries@[i].0@, self.entries@[i].1@))
    }
}

impl DigestTable {
    /// A table without entries: nothing was built before.
    pub fn new() -> (t: DigestTable)
        ensures
            t@ =~= Seq::<(Seq<char>, Seq<char>)>::empty(),
    {
        DigestTable { entries: Vec::new() }
    }

    /// The digest recorded for `path`, if any.
    pub fn get(&self, path: &str) -> (r: Option<&String>)
        ensures
            match r {
                Some(d) => recorded(self@, path@) == Some(d@),
                None => recorded(self@, path@) is None,
            },
    {
        let mut i: usize = self.entries.len();
        proof {
            assert(self@.take(i as int) =~= self@);
        }
        while i > 0
            invariant
                i <= self.entries@.len(),
                recorded(self@, path@) == recorded(self@.take(i as int), path@),
            decreases i,
        {
            proof {
                assert(self@.take(i as int).drop_last() =~= self@.take(i - 1));
                assert(self@.take(i as int).last() == self@[i - 1]);
            }
            if same_text(self.entries[i - 1].0.as_str(), path) {
                return Some(&self.entries[i - 1].1);
            }
            i -= 1;
        }
        None
    }

    /// Whether the file at `path` differs from what the previous run left:
    /// it does if there is no file, if nothing is recorded for the path, or
    /// if the digests differ.
    pub fn compute_needs_rebuild(&self, path: &str, digest: &Option<String>) -> (r: bool)
        ensures
            r == !same_as_recorded(self@, path@, crate::model::text_of(*digest)),
    {
        !self.matches(path, digest)
    }

    /// Whether the table records exactly this digest for `path`.
    pub fn matches(&self, path: &str, digest: &Option<String>) -> (r: bool)
        ensures
            r == same_as_recorded(self@, path@, crate::model::text_of(*digest)),
    {
        match digest {
            Some(d) => match self.get(path) {
                Some(p) => *p == *d,
                None => false,
            },
            None => false,
        }
    }
}

/// A file has a digest, and the table records that very digest for its path.
pub open spec fn same_as_recorded(
    entries: Seq<(Seq<char>, Seq<char>)>,
    path: Seq<char>,
    digest: Option<Seq<char>>,
) -> bool {
    digest is Some && recorded(entries, path) == digest
}

/// The digests that a report holds, by path. A record without a digest
/// contributes nothing; of two records for one path the later one counts.
pub fn load_previous_digests(report: &MakeOutput) -> (t: DigestTable)
    ensures
        t@ == digest_entries(report@),
{
    let mut t = DigestTable { entries: Vec::new() };
    let mut i: usize = 0;
    proof {
        assert(report@.take(0) =~= Seq::<OutputSpec>::empty());
        assert(t@ =~= Seq::<(Seq<char>, Seq<char>)>::empty());
    }
    while i < report.nodes.len()
        invariant
            i <= report.nodes@.len(),
            t@ == digest_entries(report@.take(i as int)),
        decreases report.nodes@.len() - i,
    {
        let ghost before = t@;
        proof {
            assert(report@.take(i + 1).drop_last() =~= report@.take(i as int));
            assert(report@.take(i + 1).last() == report.nodes@[i as int]@);
        }
        match &report.nodes[i].digest {
            Some(d) => {
                t.entries.push((report.nodes[i].pathbuf.clone(), d.clone()));
                proof {
                    assert(t@ =~= before.push((report.nodes@[i as int].pathbuf@, d@)));
                }
            },
            None => {
                proof {
                    assert(t@ =~= before);
                }
            },
        }
        i += 1;
    }
    proof {
        assert(report@.take(i as int) =~= report@);
    }
    t
}

} // verus!
