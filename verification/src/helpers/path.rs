//! Paths as text: joining, making relative, and reading a path from bytes.
//!
//! A path is relative unless it starts with `/`.
use vstd::prelude::*;
use vstd::utf8::encode_utf8;
use vstd::utf8::valid_utf8;

verus! {

/// Why a path could not be handled.
#[derive(Debug, Clone, PartialEq, Eq)]
pub enum PathError {
    /// The bytes of the path are not UTF-8.
    NotUtf8,
    /// The root directory is a relative path.
    RootRelative,
    /// The path to make relative is itself relative.
    PathRelative,
    /// The path does not start with the root directory; the root directory
    /// and the path.
    NotInRoot(String, String),
}

impl PathError {
    /// The error in words.
    pub open spec fn text(self) -> Seq<char> {
        match self {
            PathError::NotUtf8 => "huh, cannot get string of path"@,
            PathError::RootRelative => "rootdir is relative"@,
            PathError::PathRelative => "abspath is relative"@,
            PathError::NotInRoot(root, p) => "cannot make relpath \""@ + root@ + "\" is not in \""@
                + p@ + "\""@,
        }
    }

    /// The error in words.
    pub fn message(&self) -> (r: String)
        ensures
            r@ == self.text(),
    {
        match self {
            PathError::NotUtf8 => "huh, cannot get string of path".to_owned(),
            PathError::RootRelative => "rootdir is relative".to_owned(),
            PathError::PathRelative => "abspath is relative".to_owned(),
            PathError::NotInRoot(root, p) => "cannot make relpath \"".to_owned().concat(
                root.as_str(),
            ).concat("\" is not in \"").concat(p.as_str()).concat("\""),
        }
    }
}

/// `s` with every occurrence of `pat` replaced by `to`, found from left to
/// right, the search going on behind each replaced occurrence.
pub open spec fn replaced(s: Seq<char>, pat: Seq<char>, to: Seq<char>) -> Seq<char>
    decreases s.len(),
{
    if pat.len() == 0 || s.len() < pat.len() {
        s
    } else if s.subrange(0, pat.len() as int) == pat {
        to + replaced(s.subrange(pat.len() as int, s.len() as int), pat, to)
    } else {
        seq![s[0]] + replaced(s.drop_first(), pat, to)
    }
}

/// The path is absolute.
pub open spec fn absolute(p: Seq<char>) -> bool {
    p.len() > 0 && p[0] == '/'
}

/// `rel` seen from `base`: an absolute `rel` stands for itself; otherwise
/// it is put behind `base`, with a `/` between the two where `base` does not
/// end in one.
pub open spec fn joined(base: Seq<char>, rel: Seq<char>) -> Seq<char> {
    if absolute(rel) {
        rel
    } else if base.len() == 0 || base.last() == '/' {
        base + rel
    } else {
        base + seq!['/'] + rel
    }
}

/// The index of the last `/` of a path, or -1 if it has none.
pub open spec fn last_slash(p: Seq<char>) -> int
    decreases p.len(),
{
    if p.len() == 0 {
        -1
    } else if p.last() == '/' {
        p.len() - 1
    } else {
        last_slash(p.drop_last())
    }
}

/// The path without what does not count at its end: a `/` behind
/// something, and a `.` behind a `/`.
pub open spec fn trimmed(p: Seq<char>) -> Seq<char>
    decreases p.len(),
{
    if p.len() >= 2 && (p.last() == '/' || (p.last() == '.' && p[p.len() - 2] == '/')) {
        trimmed(p.drop_last())
    } else {
        p
    }
}

/// The last piece of a path: what stands behind the last `/` of the path
/// without what does not count at its end.
pub open spec fn last_piece(p: Seq<char>) -> Seq<char> {
    let q = trimmed(p);
    q.subrange(last_slash(q) + 1, q.len() as int)
}

/// The piece is a name: it is not empty, and neither `.` nor `..`.
pub open spec fn is_name(c: Seq<char>) -> bool {
    c.len() > 0 && !(c.len() == 1 && c[0] == '.') && !(c.len() == 2 && c[0] == '.' && c[1] == '.')
}

/// The file name of a path: its last piece, if that is a name. Nothing if
/// the path has no file name: if it is empty or the root, or ends in `..`.
pub open spec fn file_name_of(p: Seq<char>) -> Seq<char> {
    if is_name(last_piece(p)) {
        last_piece(p)
    } else {
        Seq::empty()
    }
}

/// The index of the last `.` of a text behind its first character, or -1
/// if there is none: a `.` in front does not start an extension.
pub open spec fn last_dot(name: Seq<char>) -> int
    decreases name.len(),
{
    if name.len() <= 1 {
        -1
    } else if name.last() == '.' {
        name.len() - 1
    } else {
        last_dot(name.drop_last())
    }
}

/// The directory of a path: what stands before its last piece, without
/// what does not count at its end. Nothing if the path has no last piece:
/// if it is empty or the root.
pub open spec fn parent_of(p: Seq<char>) -> Seq<char> {
    let q = trimmed(p);
    if last_piece(p).len() == 0 {
        Seq::empty()
    } else {
        trimmed(q.take(last_slash(q) + 1))
    }
}

/// The path with the extension of its file name replaced by `ext`, or with
/// `.` and `ext` behind the file name if that has no extension; with an
/// empty `ext` the extension is taken away. What stands behind the file name
/// is dropped. A path without a file name stays as it is.
pub open spec fn with_extension_of(p: Seq<char>, ext: Seq<char>) -> Seq<char> {
    let name = file_name_of(p);
    if name.len() == 0 {
        p
    } else {
        let q = trimmed(p);
        let k = last_dot(name);
        let stem = if k < 0 {
            q
        } else {
            q.take(q.len() - name.len() + k)
        };
        if ext.len() == 0 {
            stem
        } else {
            stem + seq!['.'] + ext
        }
    }
}

/// The last `/` of a path lies within the path.
proof fn lemma_last_slash_bounds(p: Seq<char>)
    ensures
        -1 <= last_slash(p) < p.len(),
    decreases p.len(),
{
    if p.len() > 0 && p.last() != '/' {
        lemma_last_slash_bounds(p.drop_last());
    }
}

/// Where the first `end` characters of a path end once what does not count
/// at their end is taken away.
fn trimmed_end(p: &str, end: usize) -> (r: usize)
    requires
        end <= p@.len(),
    ensures
        r <= end,
        trimmed(p@.take(end as int)) == p@.take(r as int),
{
    let mut i: usize = end;
    while i >= 2 && (p.get_char(i - 1) == '/' || (p.get_char(i - 1) == '.' && p.get_char(i - 2)
        == '/'))
        invariant
            i <= end,
            end <= p@.len(),
            trimmed(p@.take(end as int)) == trimmed(p@.take(i as int)),
        decreases i,
    {
        proof {
            assert(p@.take(i as int).drop_last() =~= p@.take(i - 1));
            assert(p@.take(i as int).last() == p@[i - 1]);
            assert(p@.take(i as int)[i - 2] == p@[i - 2]);
        }
        i -= 1;
    }
    proof {
        if i >= 2 {
            assert(p@.take(i as int).last() == p@[i - 1]);
            assert(p@.take(i as int)[i - 2] == p@[i - 2]);
        }
    }
    i
}

/// Where the last piece of the first `end` characters of a path begins.
fn piece_start(p: &str, end: usize) -> (r: usize)
    requires
        end <= p@.len(),
    ensures
        r <= end,
        r == last_slash(p@.take(end as int)) + 1,
{
    let mut i: usize = end;
    while i > 0 && p.get_char(i - 1) != '/'
        invariant
            i <= end,
            end <= p@.len(),
            last_slash(p@.take(end as int)) == last_slash(p@.take(i as int)),
        decreases i,
    {
        proof {
            assert(p@.take(i as int).drop_last() =~= p@.take(i - 1));
            assert(p@.take(i as int).last() == p@[i - 1]);
        }
        i -= 1;
    }
    proof {
        if i > 0 {
            assert(p@.take(i as int).last() == p@[i - 1]);
        }
    }
    i
}

/// The file name of a path; an empty text if it has none.
pub fn file_name(p: &str) -> (r: String)
    ensures
        r@ == file_name_of(p@),
{
    let n = p.unicode_len();
    let t = trimmed_end(p, n);
    let s = piece_start(p, t);
    proof {
        assert(p@.take(n as int) =~= p@);
        assert(p@.take(t as int).subrange(s as int, t as int) =~= p@.subrange(s as int, t as int));
    }
    let len = t - s;
    let dots = (len == 1 && p.get_char(s) == '.') || (len == 2 && p.get_char(s) == '.'
        && p.get_char(s + 1) == '.');
    if len == 0 || dots {
        let r = String::new();
        proof {
            assert(r@ =~= Seq::<char>::empty());
        }
        r
    } else {
        p.substring_char(s, t).to_owned()
    }
}

/// The directory of a path; an empty text if it has none.
pub fn parent(p: &str) -> (r: String)
    ensures
        r@ == parent_of(p@),
{
    let n = p.unicode_len();
    let t = trimmed_end(p, n);
    let s = piece_start(p, t);
    proof {
        assert(p@.take(n as int) =~= p@);
        assert(p@.take(t as int).subrange(s as int, t as int) =~= p@.subrange(s as int, t as int));
        assert(p@.take(t as int).take(s as int) =~= p@.take(s as int));
    }
    if t == s {
        let r = String::new();
        proof {
            assert(r@ =~= Seq::<char>::empty());
        }
        r
    } else {
        let u = trimmed_end(p, s);
        let r = p.substring_char(0, u).to_owned();
        proof {
            assert(p@.subrange(0, u as int) =~= p@.take(u as int));
        }
        r
    }
}

/// The path with the extension of its file name replaced.
pub fn with_extension(p: &str, ext: &str) -> (r: String)
    ensures
        r@ == with_extension_of(p@, ext@),
{
    let name = file_name(p);
    let m = name.as_str().unicode_len();
    if m == 0 {
        return p.to_owned();
    }
    let n = p.unicode_len();
    let t = trimmed_end(p, n);
    let mut i: usize = m;
    proof {
        assert(p@.take(n as int) =~= p@);
        lemma_last_slash_bounds(p@.take(t as int));
        assert(name@.take(m as int) =~= name@);
        reveal_strlit(".");
        assert("."@ =~= seq!['.']);
    }
    while i > 1 && name.as_str().get_char(i - 1) != '.'
        invariant
            m == name@.len(),
            i <= m,
            last_dot(name@) == last_dot(name@.take(i as int)),
        decreases i,
    {
        proof {
            assert(name@.take(i as int).drop_last() =~= name@.take(i - 1));
            assert(name@.take(i as int).last() == name@[i - 1]);
        }
        i -= 1;
    }
    proof {
        if i > 1 {
            assert(name@.take(i as int).last() == name@[i - 1]);
        }
    }
    // the last `.` of the file name, if it has one, is at i - 1
    let keep = if i <= 1 {
        t
    } else {
        t - m + (i - 1)
    };
    let stem = p.substring_char(0, keep).to_owned();
    proof {
        assert(p@.subrange(0, keep as int) =~= p@.take(keep as int));
        assert(p@.take(t as int).take(keep as int) =~= p@.take(keep as int));
    }
    if ext.unicode_len() == 0 {
        stem
    } else {
        stem.concat(".").concat(ext)
    }
}

/// `std::str::from_utf8`: the text that the bytes encode, if they are valid
/// UTF-8.
#[verifier::external_body]
fn text_of_bytes(bytes: &[u8]) -> (r: Option<String>)
    ensures
        r is Some <==> valid_utf8(bytes@),
        r is Some ==> encode_utf8(r->0@) == bytes@,
{
    match std::str::from_utf8(bytes) {
        Ok(s) => Some(s.to_owned()),
        Err(_) => None,
    }
}

/// Whether the text `s` starts with the text `prefix`.
fn text_starts_with(s: &str, prefix: &str) -> (r: bool)
    ensures
        r == prefix@.is_prefix_of(s@),
{
    let m = prefix.unicode_len();
    let n = s.unicode_len();
    if m > n {
        return false;
    }
    let mut i: usize = 0;
    while i < m
        invariant
            i <= m,
            m <= n,
            m == prefix@.len(),
            n == s@.len(),
            forall|k: int| 0 <= k < i ==> prefix@[k] == s@[k],
        decreases m - i,
    {
        if prefix.get_char(i) != s.get_char(i) {
            proof {
                assert(s@.subrange(0, m as int)[i as int] == s@[i as int]);
            }
            return false;
        }
        i += 1;
    }
    proof {
        assert(prefix@ =~= s@.subrange(0, m as int));
    }
    true
}

/// `str::replace` with a text that is not empty as pattern.
#[verifier::external_body]
pub(crate) fn text_replace(s: &str, pat: &str, to: &str) -> (r: String)
    requires
        pat@.len() > 0,
    ensures
        r@ == replaced(s@, pat@, to@),
{
    s.replace(pat, to)
}

/// The path that the bytes spell, if they are UTF-8.
pub fn string_of_path(p: &[u8]) -> (r: Result<String, PathError>)
    ensures
        r is Ok <==> valid_utf8(p@),
        r is Ok ==> encode_utf8(r->Ok_0@) == p@,
        r is Err ==> r->Err_0 == PathError::NotUtf8,
{
    match text_of_bytes(p) {
        Some(s) => Ok(s),
        None => Err(PathError::NotUtf8),
    }
}

/// Whether a path is absolute.
pub fn is_absolute(p: &str) -> (r: bool)
    ensures
        r == absolute(p@),
{
    let r = text_starts_with(p, "/");
    proof {
        reveal_strlit("/");
        if r {
            assert(p@.subrange(0, 1)[0] == p@[0]);
        }
        if absolute(p@) {
            assert(p@.subrange(0, 1) =~= "/"@);
        }
    }
    r
}

/// What is left of an absolute path `p` under the absolute directory `root`
/// once the directory and the `/` behind it are taken away: if `root` is
/// `/a/b/c/d` and `p` is `/a/b/c/d/e/f`, the result is `e/f`.
///
/// The directory is taken away wherever it occurs in `p`, not only in front.
pub fn relpath(root: &str, p: &str) -> (r: Result<String, PathError>)
    ensures
        !absolute(root@) ==> r == Err::<String, PathError>(PathError::RootRelative),
        absolute(root@) && !absolute(p@) ==> r == Err::<String, PathError>(PathError::PathRelative),
        absolute(root@) && absolute(p@) && !root@.is_prefix_of(p@) ==> (r matches Err(
            PathError::NotInRoot(a, b),
        ) && a@ == root@ && b@ == p@),
        absolute(root@) && absolute(p@) && root@.is_prefix_of(p@) ==> r is Ok && r->Ok_0@
            == replaced(p@, root@ + seq!['/'], Seq::empty()),
{
    if !is_absolute(root) {
        return Err(PathError::RootRelative);
    }
    if !is_absolute(p) {
        return Err(PathError::PathRelative);
    }
    if !text_starts_with(p, root) {
        return Err(PathError::NotInRoot(root.to_owned(), p.to_owned()));
    }
    let pat = root.to_owned().concat("/");
    proof {
        reveal_strlit("/");
        reveal_strlit("");
        assert("/"@ =~= seq!['/']);
        assert(""@ =~= Seq::<char>::empty());
    }
    Ok(text_replace(p, pat.as_str(), ""))
}

/// The place of `rel` seen from the directory `base`.
pub fn join(base: &str, rel: &str) -> (r: String)
    ensures
        r@ == joined(base@, rel@),
{
    proof {
        reveal_strlit("/");
        assert("/"@ =~= seq!['/']);
    }
    if is_absolute(rel) {
        rel.to_owned()
    } else {
        let n = base.unicode_len();
        if n == 0 || base.get_char(n - 1) == '/' {
            base.to_owned().concat(rel)
        } else {
            base.to_owned().concat("/").concat(rel)
        }
    }
}

} // verus!
