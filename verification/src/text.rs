//! When two paths are the same, the order in which paths are listed, and
//! sorting by it.
//!
//! A path is read as the list of its components: the pieces between its
//! `/`. Empty pieces do not count, nor does a piece `.` unless the path
//! starts with it; a path that starts with `/` has the root as its first
//! component. Two paths are the same if their components are. Paths are
//! listed component by component: the root comes before `.`, `.` before
//! `..`, `..` before any name, and names go by their bytes; a path comes
//! before any longer one that starts with its components.
use vstd::prelude::*;
use vstd::utf8::encode_utf8;

verus! {

/// `a` is not behind `b` in the lexicographic order of bytes.
pub open spec fn lex_le(a: Seq<u8>, b: Seq<u8>) -> bool
    decreases a.len(),
{
    if a.len() == 0 {
        true
    } else if b.len() == 0 {
        false
    } else if a[0] < b[0] {
        true
    } else if a[0] > b[0] {
        false
    } else {
        lex_le(a.drop_first(), b.drop_first())
    }
}

/// The byte of `/`.
pub const SLASH: u8 = 47;

/// The byte of `.`.
pub const DOT: u8 = 46;

/// The pieces of a path between its `/`, empty ones included.
pub open spec fn pieces(b: Seq<u8>) -> Seq<Seq<u8>>
    decreases b.len(),
{
    if b.len() == 0 {
        seq![Seq::empty()]
    } else {
        let ps = pieces(b.drop_last());
        if b.last() == SLASH {
            ps.push(Seq::empty())
        } else {
            ps.drop_last().push(ps.last().push(b.last()))
        }
    }
}

/// The path starts at the root.
pub open spec fn rooted(b: Seq<u8>) -> bool {
    b.len() > 0 && b[0] == SLASH
}

/// The pieces that count as components: not the empty ones, and a piece
/// `.` only in front of a path that does not start at the root.
pub open spec fn kept(ps: Seq<Seq<u8>>, rooted: bool) -> Seq<Seq<u8>>
    decreases ps.len(),
{
    if ps.len() == 0 {
        Seq::empty()
    } else {
        let rest = kept(ps.drop_last(), rooted);
        let x = ps.last();
        if x.len() == 0 || (x == seq![DOT] && !(ps.len() == 1 && !rooted)) {
            rest
        } else {
            rest.push(x)
        }
    }
}

/// The components of a path given by its bytes; the root stands as `/`.
pub open spec fn components_of(b: Seq<u8>) -> Seq<Seq<u8>> {
    if rooted(b) {
        seq![seq![SLASH]] + kept(pieces(b), true)
    } else {
        kept(pieces(b), false)
    }
}

/// The components of a path.
pub open spec fn path_components(p: Seq<char>) -> Seq<Seq<u8>> {
    components_of(encode_utf8(p))
}

/// The two texts name the same path.
pub open spec fn same_path(a: Seq<char>, b: Seq<char>) -> bool {
    path_components(a) == path_components(b)
}

/// The rank of a component: the root, `.`, `..`, any name.
pub open spec fn rank(c: Seq<u8>) -> int {
    if c == seq![SLASH] {
        0
    } else if c == seq![DOT] {
        1
    } else if c == seq![DOT, DOT] {
        2
    } else {
        3
    }
}

/// The component `a` is not behind the component `b`.
pub open spec fn comp_le(a: Seq<u8>, b: Seq<u8>) -> bool {
    rank(a) < rank(b) || (rank(a) == rank(b) && lex_le(a, b))
}

/// The components `a` are not behind the components `b`: the first
/// component in which they differ decides; if there is none, the shorter
/// list comes first.
pub open spec fn comps_le(a: Seq<Seq<u8>>, b: Seq<Seq<u8>>) -> bool
    decreases a.len(),
{
    if a.len() == 0 {
        true
    } else if b.len() == 0 {
        false
    } else if a[0] == b[0] {
        comps_le(a.drop_first(), b.drop_first())
    } else {
        comp_le(a[0], b[0])
    }
}

/// The path `a` is listed no later than the path `b`.
pub open spec fn path_le(a: Seq<char>, b: Seq<char>) -> bool {
    comps_le(path_components(a), path_components(b))
}

/// Of two byte strings one is not behind the other.
pub proof fn lemma_lex_total(a: Seq<u8>, b: Seq<u8>)
    ensures
        lex_le(a, b) || lex_le(b, a),
    decreases a.len(),
{
    if a.len() > 0 && b.len() > 0 && a[0] == b[0] {
        lemma_lex_total(a.drop_first(), b.drop_first());
    }
}

/// The order of byte strings is transitive.
pub proof fn lemma_lex_transitive(a: Seq<u8>, b: Seq<u8>, c: Seq<u8>)
    requires
        lex_le(a, b),
        lex_le(b, c),
    ensures
        lex_le(a, c),
    decreases a.len(),
{
    if a.len() > 0 && b.len() > 0 && c.len() > 0 && a[0] == b[0] && b[0] == c[0] {
        lemma_lex_transitive(a.drop_first(), b.drop_first(), c.drop_first());
    }
}

/// Two byte strings that are each not behind the other are the same.
pub proof fn lemma_lex_antisymmetric(a: Seq<u8>, b: Seq<u8>)
    requires
        lex_le(a, b),
        lex_le(b, a),
    ensures
        a == b,
    decreases a.len(),
{
    if a.len() > 0 && b.len() > 0 {
        lemma_lex_antisymmetric(a.drop_first(), b.drop_first());
        assert(a =~= seq![a[0]] + a.drop_first());
        assert(b =~= seq![b[0]] + b.drop_first());
    } else {
        assert(a =~= b);
    }
}

/// Of two lists of components one is not behind the other.
pub proof fn lemma_comps_total(a: Seq<Seq<u8>>, b: Seq<Seq<u8>>)
    ensures
        comps_le(a, b) || comps_le(b, a),
    decreases a.len(),
{
    if a.len() > 0 && b.len() > 0 {
        if a[0] == b[0] {
            lemma_comps_total(a.drop_first(), b.drop_first());
        } else {
            lemma_lex_total(a[0], b[0]);
        }
    }
}

/// The order of lists of components is transitive.
pub proof fn lemma_comps_transitive(a: Seq<Seq<u8>>, b: Seq<Seq<u8>>, c: Seq<Seq<u8>>)
    requires
        comps_le(a, b),
        comps_le(b, c),
    ensures
        comps_le(a, c),
    decreases a.len(),
{
    if a.len() > 0 && b.len() > 0 && c.len() > 0 {
        if a[0] == b[0] && b[0] == c[0] {
            lemma_comps_transitive(a.drop_first(), b.drop_first(), c.drop_first());
        } else if a[0] != b[0] && b[0] != c[0] {
            if rank(a[0]) == rank(b[0]) && rank(b[0]) == rank(c[0]) {
                lemma_lex_transitive(a[0], b[0], c[0]);
                if a[0] == c[0] {
                    lemma_lex_antisymmetric(a[0], b[0]);
                }
            }
        }
    }
}

/// Two lists of components that are each not behind the other are the same.
pub proof fn lemma_comps_antisymmetric(a: Seq<Seq<u8>>, b: Seq<Seq<u8>>)
    requires
        comps_le(a, b),
        comps_le(b, a),
    ensures
        a == b,
    decreases a.len(),
{
    if a.len() > 0 && b.len() > 0 {
        if a[0] == b[0] {
            lemma_comps_antisymmetric(a.drop_first(), b.drop_first());
            assert(a =~= seq![a[0]] + a.drop_first());
            assert(b =~= seq![b[0]] + b.drop_first());
        } else {
            lemma_lex_antisymmetric(a[0], b[0]);
        }
    } else {
        assert(a =~= b);
    }
}

/// Of two paths one is listed no later than the other.
pub proof fn lemma_path_total(a: Seq<char>, b: Seq<char>)
    ensures
        path_le(a, b) || path_le(b, a),
{
    lemma_comps_total(path_components(a), path_components(b));
}

/// The order of paths is transitive.
pub proof fn lemma_path_transitive(a: Seq<char>, b: Seq<char>, c: Seq<char>)
    requires
        path_le(a, b),
        path_le(b, c),
    ensures
        path_le(a, c),
{
    lemma_comps_transitive(path_components(a), path_components(b), path_components(c));
}

/// Two paths that are each listed no later than the other are the same.
pub proof fn lemma_path_antisymmetric(a: Seq<char>, b: Seq<char>)
    requires
        path_le(a, b),
        path_le(b, a),
    ensures
        same_path(a, b),
{
    lemma_comps_antisymmetric(path_components(a), path_components(b));
}

/// The bytes of each of a list of byte strings.
pub open spec fn byte_views(v: Seq<Vec<u8>>) -> Seq<Seq<u8>> {
    Seq::new(v.len(), |i: int| v[i]@)
}

/// A copy of a byte string.
pub fn copy_bytes(v: &Vec<u8>) -> (r: Vec<u8>)
    ensures
        r@ == v@,
{
    let mut r: Vec<u8> = Vec::new();
    let mut i: usize = 0;
    while i < v.len()
        invariant
            i <= v@.len(),
            r@ == v@.take(i as int),
        decreases v@.len() - i,
    {
        r.push(v[i]);
        proof {
            assert(v@.take(i + 1) =~= v@.take(i as int).push(v@[i as int]));
        }
        i += 1;
    }
    proof {
        assert(v@.take(i as int) =~= v@);
    }
    r
}

/// The components of a path.
pub fn components(p: &str) -> (r: Vec<Vec<u8>>)
    ensures
        byte_views(r@) == path_components(p@),
{
    let b = p.as_bytes();
    let mut done: Vec<Vec<u8>> = Vec::new();
    let mut cur: Vec<u8> = Vec::new();
    let mut i: usize = 0;
    proof {
        assert(b@.take(0) =~= Seq::<u8>::empty());
        assert(byte_views(done@).push(cur@) =~= seq![Seq::<u8>::empty()]);
    }
    while i < b.len()
        invariant
            i <= b@.len(),
            pieces(b@.take(i as int)) == byte_views(done@).push(cur@),
        decreases b@.len() - i,
    {
        let x = b[i];
        let ghost before = byte_views(done@).push(cur@);
        let ghost cur_before = cur@;
        let ghost done_before = byte_views(done@);
        proof {
            assert(b@.take(i + 1).drop_last() =~= b@.take(i as int));
            assert(b@.take(i + 1).last() == x);
            assert(before.last() == cur_before);
            assert(before.drop_last() =~= done_before);
        }
        if x == SLASH {
            done.push(cur);
            cur = Vec::new();
            proof {
                assert(byte_views(done@) =~= before);
                assert(byte_views(done@).push(cur@) =~= before.push(Seq::empty()));
            }
        } else {
            cur.push(x);
            proof {
                assert(byte_views(done@).push(cur@) =~= done_before.push(cur_before.push(x)));
            }
        }
        i += 1;
    }
    proof {
        assert(b@.take(i as int) =~= b@);
    }
    let ghost last = cur@;
    let ghost head = byte_views(done@);
    done.push(cur);
    proof {
        assert(byte_views(done@) =~= head.push(last));
    }
    let root = b.len() > 0 && b[0] == SLASH;
    let mut out: Vec<Vec<u8>> = Vec::new();
    if root {
        let mut mark: Vec<u8> = Vec::new();
        mark.push(SLASH);
        out.push(mark);
    }
    let ghost ps = byte_views(done@);
    let ghost front: Seq<Seq<u8>> = if root {
        seq![seq![SLASH]]
    } else {
        Seq::empty()
    };
    let mut k: usize = 0;
    proof {
        assert(ps.take(0) =~= Seq::<Seq<u8>>::empty());
        assert(byte_views(out@) =~= front + kept(ps.take(0), root));
    }
    while k < done.len()
        invariant
            k <= done@.len(),
            ps == byte_views(done@),
            byte_views(out@) == front + kept(ps.take(k as int), root),
        decreases done@.len() - k,
    {
        let piece = &done[k];
        let ghost out_before = byte_views(out@);
        proof {
            assert(ps.take(k + 1).drop_last() =~= ps.take(k as int));
            assert(ps.take(k + 1).last() == piece@);
            if piece@.len() == 1 && piece@[0] == DOT {
                assert(piece@ =~= seq![DOT]);
            }
        }
        let is_dot = piece.len() == 1 && piece[0] == DOT;
        if piece.len() == 0 || (is_dot && !(k == 0 && !root)) {
        } else {
            out.push(copy_bytes(piece));
            proof {
                assert(byte_views(out@) =~= out_before.push(piece@));
                assert(front + kept(ps.take(k as int), root).push(piece@) =~= (front + kept(
                    ps.take(k as int),
                    root,
                )).push(piece@));
            }
        }
        k += 1;
    }
    proof {
        assert(ps.take(k as int) =~= ps);
    }
    out
}

/// Whether two byte strings are the same.
pub fn bytes_eq(a: &Vec<u8>, b: &Vec<u8>) -> (r: bool)
    ensures
        r == (a@ == b@),
{
    if a.len() != b.len() {
        return false;
    }
    let mut i: usize = 0;
    while i < a.len()
        invariant
            a@.len() == b@.len(),
            i <= a@.len(),
            forall|k: int| 0 <= k < i ==> a@[k] == b@[k],
        decreases a@.len() - i,
    {
        if a[i] != b[i] {
            return false;
        }
        i += 1;
    }
    proof {
        assert(a@ =~= b@);
    }
    true
}

/// The rank of a component.
pub fn rank_of(c: &Vec<u8>) -> (r: u8)
    ensures
        r == rank(c@),
{
    proof {
        if c@.len() == 1 {
            assert(c@ =~= seq![c@[0]]);
        }
        if c@.len() == 2 {
            assert(c@ =~= seq![c@[0], c@[1]]);
        }
    }
    if c.len() == 1 && c[0] == SLASH {
        0
    } else if c.len() == 1 && c[0] == DOT {
        1
    } else if c.len() == 2 && c[0] == DOT && c[1] == DOT {
        2
    } else {
        3
    }
}

/// Whether the components `a` are not behind the components `b`.
pub fn comps_before(a: &Vec<Vec<u8>>, b: &Vec<Vec<u8>>) -> (r: bool)
    ensures
        r == comps_le(byte_views(a@), byte_views(b@)),
{
    let ghost x = byte_views(a@);
    let ghost y = byte_views(b@);
    let mut i: usize = 0;
    proof {
        assert(x.skip(0) =~= x);
        assert(y.skip(0) =~= y);
    }
    while i < a.len() && i < b.len()
        invariant
            x == byte_views(a@),
            y == byte_views(b@),
            i <= a@.len(),
            i <= b@.len(),
            comps_le(x, y) == comps_le(x.skip(i as int), y.skip(i as int)),
        decreases a@.len() - i,
    {
        proof {
            assert(x.skip(i as int)[0] == a@[i as int]@);
            assert(y.skip(i as int)[0] == b@[i as int]@);
            assert(x.skip(i as int).drop_first() =~= x.skip(i + 1));
            assert(y.skip(i as int).drop_first() =~= y.skip(i + 1));
        }
        if !bytes_eq(&a[i], &b[i]) {
            let ra = rank_of(&a[i]);
            let rb = rank_of(&b[i]);
            return ra < rb || (ra == rb && bytes_le(a[i].as_slice(), b[i].as_slice()));
        }
        i += 1;
    }
    i == a.len()
}

/// Whether two lists of components are the same.
pub fn comps_same(a: &Vec<Vec<u8>>, b: &Vec<Vec<u8>>) -> (r: bool)
    ensures
        r == (byte_views(a@) == byte_views(b@)),
{
    if a.len() != b.len() {
        proof {
            assert(byte_views(a@).len() != byte_views(b@).len());
        }
        return false;
    }
    let mut i: usize = 0;
    while i < a.len()
        invariant
            a@.len() == b@.len(),
            i <= a@.len(),
            forall|k: int| 0 <= k < i ==> (#[trigger] a@[k])@ == b@[k]@,
        decreases a@.len() - i,
    {
        if !bytes_eq(&a[i], &b[i]) {
            proof {
                assert(byte_views(a@)[i as int] != byte_views(b@)[i as int]);
            }
            return false;
        }
        i += 1;
    }
    proof {
        assert(byte_views(a@) =~= byte_views(b@));
    }
    true
}

/// Whether two texts name the same path.
pub fn same_path_text(a: &str, b: &str) -> (r: bool)
    ensures
        r == same_path(a@, b@),
{
    comps_same(&components(a), &components(b))
}

/// Whether `a` is not behind `b`, byte by byte.
pub fn bytes_le(a: &[u8], b: &[u8]) -> (r: bool)
    ensures
        r == lex_le(a@, b@),
{
    let mut i: usize = 0;
    proof {
        assert(a@.skip(0) =~= a@);
        assert(b@.skip(0) =~= b@);
    }
    while i < a.len() && i < b.len()
        invariant
            i <= a@.len(),
            i <= b@.len(),
            lex_le(a@, b@) == lex_le(a@.skip(i as int), b@.skip(i as int)),
        decreases a@.len() - i,
    {
        let x = a[i];
        let y = b[i];
        proof {
            assert(a@.skip(i as int)[0] == x);
            assert(b@.skip(i as int)[0] == y);
            assert(a@.skip(i as int).drop_first() =~= a@.skip(i + 1));
            assert(b@.skip(i as int).drop_first() =~= b@.skip(i + 1));
        }
        if x < y {
            return true;
        }
        if x > y {
            return false;
        }
        i += 1;
    }
    i == a.len()
}

/// Whether two texts are the same.
pub fn same_text(a: &str, b: &str) -> (r: bool)
    ensures
        r == (a@ == b@),
{
    let x = a.as_bytes();
    let y = b.as_bytes();
    proof {
        vstd::utf8::encode_utf8_decode_utf8(a@);
        vstd::utf8::encode_utf8_decode_utf8(b@);
    }
    if x.len() != y.len() {
        return false;
    }
    let mut i: usize = 0;
    while i < x.len()
        invariant
            x@.len() == y@.len(),
            i <= x@.len(),
            forall|k: int| 0 <= k < i ==> x@[k] == y@[k],
            x@ == encode_utf8(a@),
            y@ == encode_utf8(b@),
            a@ == b@ ==> x@ == y@,
        decreases x@.len() - i,
    {
        if x[i] != y[i] {
            return false;
        }
        i += 1;
    }
    proof {
        assert(x@ =~= y@);
    }
    true
}

/// Whether the path `a` is listed no later than the path `b`.
pub fn path_before(a: &str, b: &str) -> (r: bool)
    ensures
        r == path_le(a@, b@),
{
    comps_before(&components(a), &components(b))
}

/// `order` lists each of the indices below `n` exactly once.
pub open spec fn is_arrangement(order: Seq<usize>, n: nat) -> bool {
    &&& order.len() == n
    &&& forall|k: int| 0 <= k < order.len() ==> (#[trigger] order[k]) < n
    &&& forall|j: int, k: int| 0 <= j < k < order.len() ==> #[trigger] order[j] != #[trigger] order[k]
}

/// Read in the given order, the paths never step back.
pub open spec fn in_path_order(order: Seq<usize>, paths: Seq<Seq<char>>) -> bool {
    forall|j: int, k: int|
        0 <= j <= k < order.len() ==> path_le(
            paths[#[trigger] order[j] as int],
            paths[#[trigger] order[k] as int],
        )
}

/// Of two paths that are the same, the one with the smaller index comes
/// first.
pub open spec fn keeps_ties(order: Seq<usize>, paths: Seq<Seq<char>>) -> bool {
    forall|j: int, k: int|
        0 <= j < k < order.len() && path_le(
            paths[#[trigger] order[k] as int],
            paths[#[trigger] order[j] as int],
        ) ==> order[j] < order[k]
}

/// The texts of a list of strings.
pub open spec fn texts(v: Seq<String>) -> Seq<Seq<char>> {
    Seq::new(v.len(), |i: int| v[i]@)
}

/// The indices of `paths`, arranged so that the paths come in order.
pub fn sorted_by_path(paths: &Vec<String>) -> (order: Vec<usize>)
    ensures
        is_arrangement(order@, paths@.len()),
        in_path_order(order@, texts(paths@)),
        keeps_ties(order@, texts(paths@)),
{
    let n = paths.len();
    let mut order: Vec<usize> = Vec::new();
    let mut i: usize = 0;
    while i < n
        invariant
            n == paths@.len(),
            i <= n,
            order@.len() == i,
            forall|k: int| 0 <= k < order@.len() ==> (#[trigger] order@[k]) < i,
            forall|j: int, k: int|
                0 <= j < k < order@.len() ==> #[trigger] order@[j] != #[trigger] order@[k],
            in_path_order(order@, texts(paths@)),
            keeps_ties(order@, texts(paths@)),
        decreases n - i,
    {
        // find the place of path i among those already placed
        let mut j: usize = i;
        while j > 0 && !path_before(paths[order[j - 1]].as_str(), paths[i].as_str())
            invariant
                n == paths@.len(),
                i < n,
                j <= i,
                order@.len() == i,
                forall|k: int| 0 <= k < order@.len() ==> (#[trigger] order@[k]) < i,
                forall|k: int|
                    j <= k < i ==> path_le(
                        texts(paths@)[i as int],
                        texts(paths@)[#[trigger] order@[k] as int],
                    ) && !path_le(texts(paths@)[order@[k] as int], texts(paths@)[i as int]),
            decreases j,
        {
            proof {
                lemma_path_total(paths@[order@[j - 1] as int]@, paths@[i as int]@);
            }
            j -= 1;
        }
        let ghost before = order@;
        order.insert(j, i);
        proof {
            let ps = texts(paths@);
            assert forall|a: int, b: int| 0 <= a <= b < order@.len() implies path_le(
                ps[#[trigger] order@[a] as int],
                ps[#[trigger] order@[b] as int],
            ) by {
                if a == b {
                    lemma_path_total(ps[order@[a] as int], ps[order@[a] as int]);
                } else if b < j {
                    assert(order@[a] == before[a] && order@[b] == before[b]);
                } else if b == j {
                    // a < j: before[a] <= before[j - 1] <= path i
                    assert(order@[a] == before[a]);
                    assert(path_le(ps[before[a] as int], ps[before[j - 1] as int]));
                    lemma_path_transitive(
                        ps[before[a] as int],
                        ps[before[j - 1] as int],
                        ps[i as int],
                    );
                } else if a == j {
                    assert(order@[b] == before[b - 1]);
                } else if a > j {
                    assert(order@[a] == before[a - 1] && order@[b] == before[b - 1]);
                } else {
                    assert(order@[a] == before[a] && order@[b] == before[b - 1]);
                }
            }
            assert forall|a: int, b: int|
                0 <= a < b < order@.len() && path_le(
                    ps[#[trigger] order@[b] as int],
                    ps[#[trigger] order@[a] as int],
                ) implies order@[a] < order@[b] by {
                if b < j {
                    assert(order@[a] == before[a] && order@[b] == before[b]);
                } else if b == j {
                    assert(order@[a] == before[a]);
                } else if a == j {
                    assert(order@[b] == before[b - 1]);
                } else if a > j {
                    assert(order@[a] == before[a - 1] && order@[b] == before[b - 1]);
                } else {
                    assert(order@[a] == before[a] && order@[b] == before[b - 1]);
                }
            }
            assert forall|a: int, b: int| 0 <= a < b < order@.len() implies #[trigger] order@[a]
                != #[trigger] order@[b] by {
                let x = if a < j {
                    a
                } else {
                    a - 1
                };
                let y = if b < j {
                    b
                } else {
                    b - 1
                };
                if a != j && b != j {
                    assert(order@[a] == before[x] && order@[b] == before[y]);
                } else if a == j {
                    assert(order@[b] == before[y]);
                } else {
                    assert(order@[a] == before[x]);
                }
            }
            assert forall|k: int| 0 <= k < order@.len() implies (#[trigger] order@[k]) < i + 1 by {
                if k < j {
                    assert(order@[k] == before[k]);
                } else if k > j {
                    assert(order@[k] == before[k - 1]);
                }
            }
        }
        i += 1;
    }
    order
}

/// An arrangement leaves no index out.
pub proof fn lemma_arrangement_covers(order: Seq<usize>, n: nat, v: int)
    requires
        is_arrangement(order, n),
        0 <= v < n,
    ensures
        exists|k: int| 0 <= k < order.len() && #[trigger] order[k] == v,
{
    let ints = Seq::new(order.len(), |k: int| order[k] as int);
    assert(ints.no_duplicates()) by {
        assert forall|i: int, j: int|
            0 <= i < ints.len() && 0 <= j < ints.len() && i != j implies ints[i] != ints[j] by {
            if i < j {
                assert(order[i] != order[j]);
            } else {
                assert(order[j] != order[i]);
            }
        }
    }
    ints.unique_seq_to_set();
    vstd::set_lib::lemma_int_range(0, n as int);
    let all = vstd::set_lib::set_int_range(0, n as int);
    assert(ints.to_set().subset_of(all)) by {
        assert forall|x: int| ints.to_set().contains(x) implies all.contains(x) by {
            let k = choose|k: int| 0 <= k < ints.len() && ints[k] == x;
            assert(order[k] < n);
        }
    }
    vstd::set_lib::lemma_len_subset(ints.to_set(), all);
    vstd::set_lib::lemma_subset_equality(ints.to_set(), all);
    assert(all.contains(v));
    assert(ints.to_set().contains(v));
    let k = choose|k: int| 0 <= k < ints.len() && ints[k] == v;
    assert(order[k] == v);
}

/// There is only one way to list in order paths of which no two are the
/// same.
pub proof fn law_order_is_unique(a: Seq<usize>, b: Seq<usize>, paths: Seq<Seq<char>>)
    requires
        is_arrangement(a, paths.len()),
        is_arrangement(b, paths.len()),
        in_path_order(a, paths),
        in_path_order(b, paths),
        forall|i: int, j: int|
            0 <= i < j < paths.len() ==> !same_path(#[trigger] paths[i], #[trigger] paths[j]),
    ensures
        a == b,
{
    assert forall|k: int| 0 <= k < a.len() implies a[k] == b[k] by {
        lemma_same_upto(a, b, paths, k);
    }
    assert(a =~= b);
}

/// Two listings in order agree at position `k`.
proof fn lemma_same_upto(a: Seq<usize>, b: Seq<usize>, paths: Seq<Seq<char>>, k: int)
    requires
        is_arrangement(a, paths.len()),
        is_arrangement(b, paths.len()),
        in_path_order(a, paths),
        in_path_order(b, paths),
        forall|i: int, j: int|
            0 <= i < j < paths.len() ==> !same_path(#[trigger] paths[i], #[trigger] paths[j]),
        0 <= k < a.len(),
    ensures
        a[k] == b[k],
    decreases k,
{
    let x = a[k];
    let y = b[k];
    if x != y {
        // y comes later in a, and x comes later in b
        lemma_arrangement_covers(a, paths.len(), y as int);
        let j = choose|j: int| 0 <= j < a.len() && #[trigger] a[j] == y;
        if j < k {
            lemma_same_upto(a, b, paths, j);
            assert(b[j] != b[k]);
        }
        lemma_arrangement_covers(b, paths.len(), x as int);
        let i = choose|i: int| 0 <= i < b.len() && #[trigger] b[i] == x;
        if i < k {
            lemma_same_upto(a, b, paths, i);
            assert(a[i] != a[k]);
        }
        assert(path_le(paths[a[k] as int], paths[a[j] as int]));
        assert(path_le(paths[b[k] as int], paths[b[i] as int]));
        lemma_path_antisymmetric(paths[x as int], paths[y as int]);
        if x < y {
            assert(!same_path(paths[x as int], paths[y as int]));
        } else {
            assert(!same_path(paths[y as int], paths[x as int]));
        }
    }
}

} // verus!
