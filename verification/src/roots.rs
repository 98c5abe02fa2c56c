//! The roots behind a node, in the order in which a walk against the edges
//! comes upon them.
//!
//! The walk keeps a stack of nodes to look at, and starts with the node
//! itself on it. It takes the node on top; a node it has seen before is
//! dropped; of a new one it puts the predecessors on the stack, the newest
//! edge's first, so that the oldest edge's is looked at next. A new node
//! without predecessors is a root.
use crate::graph::lemma_neighbors_linked;
use crate::graph::lemma_reaches_self;
use crate::graph::lemma_reaches_step;
use crate::graph::lemma_walk_stays;
use crate::graph::neighbors;
use crate::graph::reaches;
use crate::graph::step;
use crate::graph::DepGraph;
use vstd::prelude::*;

verus! {

/// Node indices as numbers.
pub open spec fn indices(s: Seq<usize>) -> Seq<nat> {
    Seq::new(s.len(), |k: int| s[k] as nat)
}

/// No node has been seen.
pub open spec fn none_seen(n: nat) -> Seq<bool> {
    Seq::new(n, |k: int| false)
}

/// The roots that the walk comes upon from here on, in at most `fuel`
/// looks at a node.
pub open spec fn walk_roots(edges: Seq<(nat, nat)>, stack: Seq<nat>, seen: Seq<bool>, fuel: nat) -> Seq<nat>
    decreases fuel,
{
    if fuel == 0 || stack.len() == 0 {
        Seq::empty()
    } else {
        let u = stack.last();
        let rest = stack.drop_last();
        if u >= seen.len() || seen[u as int] {
            walk_roots(edges, rest, seen, (fuel - 1) as nat)
        } else {
            let before = neighbors(edges, u, true);
            let marked = seen.update(u as int, true);
            if before.len() == 0 {
                seq![u] + walk_roots(edges, rest, marked, (fuel - 1) as nat)
            } else {
                walk_roots(edges, rest + before, marked, (fuel - 1) as nat)
            }
        }
    }
}

/// The roots behind node `i` of a graph of `n` nodes, in the order in which
/// the walk comes upon them. The walk looks at a node once for `i` and once
/// for each edge into a node that it had not seen, so it is over within the
/// looks it is given.
pub open spec fn root_walk(edges: Seq<(nat, nat)>, n: nat, i: nat) -> Seq<nat> {
    walk_roots(edges, seq![i], none_seen(n), (1 + n * edges.len()) as nat)
}

/// The list holds node `v`.
pub open spec fn among(stack: Seq<usize>, v: nat) -> bool {
    exists|k: int| 0 <= k < stack.len() && #[trigger] stack[k] as nat == v
}

/// What was seen and what waits on the stack is a node that `i` depends on,
/// or `i` itself.
#[verifier::opaque]
spec fn walk_sound(edges: Seq<(nat, nat)>, i: nat, seen: Seq<bool>, stack: Seq<usize>) -> bool {
    &&& forall|v: int| 0 <= v < seen.len() && #[trigger] seen[v] ==> reaches(edges, i, v as nat, true)
    &&& forall|k: int|
        0 <= k < stack.len() ==> (#[trigger] stack[k]) < seen.len() && reaches(
            edges,
            i,
            stack[k] as nat,
            true,
        )
}

/// The predecessors of a node that was seen were seen too, or wait on the
/// stack.
#[verifier::opaque]
spec fn walk_closed(edges: Seq<(nat, nat)>, seen: Seq<bool>, stack: Seq<usize>) -> bool {
    forall|u: nat, v: nat|
        u < seen.len() && seen[u as int] && #[trigger] step(edges, u, v, true) ==> (v < seen.len()
            && seen[v as int]) || among(stack, v)
}

/// A node has no more neighbors than there are edges.
proof fn lemma_neighbors_few(edges: Seq<(nat, nat)>, a: nat, incoming: bool)
    ensures
        neighbors(edges, a, incoming).len() <= edges.len(),
    decreases edges.len(),
{
    if edges.len() > 0 {
        lemma_neighbors_few(edges.drop_last(), a, incoming);
    }
}

/// The walk begins.
proof fn lemma_walk_begins(edges: Seq<(nat, nat)>, n: nat, i: usize)
    requires
        i < n,
    ensures
        walk_sound(edges, i as nat, none_seen(n), seq![i]),
        walk_closed(edges, none_seen(n), seq![i]),
{
    reveal(walk_sound);
    reveal(walk_closed);
    lemma_reaches_self(edges, i as nat, true);
}

/// Dropping a node that was seen before keeps what holds of the walk.
proof fn lemma_walk_drops(edges: Seq<(nat, nat)>, i: nat, seen: Seq<bool>, stack: Seq<usize>)
    requires
        stack.len() > 0,
        stack.last() < seen.len(),
        seen[stack.last() as int],
        walk_sound(edges, i, seen, stack),
        walk_closed(edges, seen, stack),
    ensures
        walk_sound(edges, i, seen, stack.drop_last()),
        walk_closed(edges, seen, stack.drop_last()),
{
    reveal(walk_sound);
    reveal(walk_closed);
    let rest = stack.drop_last();
    assert forall|k: int| 0 <= k < rest.len() implies (#[trigger] rest[k]) < seen.len() && reaches(
        edges,
        i,
        rest[k] as nat,
        true,
    ) by {
        assert(rest[k] == stack[k]);
    }
    assert forall|u: nat, v: nat|
        u < seen.len() && seen[u as int] && #[trigger] step(edges, u, v, true) implies (v
        < seen.len() && seen[v as int]) || among(rest, v) by {
        if !(v < seen.len() && seen[v as int]) {
            let k = choose|k: int| 0 <= k < stack.len() && #[trigger] stack[k] as nat == v;
            assert(k < stack.len() - 1);
            assert(rest[k] as nat == v);
        }
    }
}

/// Marking a new node and putting its predecessors on the stack keeps what
/// holds of the walk.
proof fn lemma_walk_visits(
    edges: Seq<(nat, nat)>,
    i: nat,
    seen: Seq<bool>,
    stack: Seq<usize>,
    before: Seq<usize>,
)
    requires
        stack.len() > 0,
        stack.last() < seen.len(),
        !seen[stack.last() as int],
        walk_sound(edges, i, seen, stack),
        walk_closed(edges, seen, stack),
        indices(before) == neighbors(edges, stack.last() as nat, true),
        forall|k: int| 0 <= k < before.len() ==> (#[trigger] before[k]) < seen.len(),
    ensures
        walk_sound(edges, i, seen.update(stack.last() as int, true), stack.drop_last() + before),
        walk_closed(edges, seen.update(stack.last() as int, true), stack.drop_last() + before),
{
    reveal(walk_sound);
    reveal(walk_closed);
    let u = stack.last();
    let rest = stack.drop_last();
    let marked = seen.update(u as int, true);
    let next = rest + before;
    lemma_neighbors_linked(edges, u as nat, true);
    assert(reaches(edges, i, stack[stack.len() - 1] as nat, true));
    assert forall|k: int| 0 <= k < next.len() implies (#[trigger] next[k]) < marked.len()
        && reaches(edges, i, next[k] as nat, true) by {
        if k < rest.len() {
            assert(next[k] == stack[k]);
        } else {
            let j = k - rest.len();
            assert(next[k] == before[j]);
            assert(indices(before)[j] == before[j] as nat);
            assert(neighbors(edges, u as nat, true).contains(before[j] as nat));
            assert(step(edges, u as nat, before[j] as nat, true));
            lemma_reaches_step(edges, i, u as nat, before[j] as nat, true);
        }
    }
    assert forall|a: nat, b: nat|
        a < marked.len() && marked[a as int] && #[trigger] step(edges, a, b, true) implies (b
        < marked.len() && marked[b as int]) || among(next, b) by {
        if a == u as nat {
            assert(neighbors(edges, u as nat, true).contains(b));
            let j = choose|j: int|
                0 <= j < neighbors(edges, u as nat, true).len() && neighbors(
                    edges,
                    u as nat,
                    true,
                )[j] == b;
            assert(indices(before)[j] == before[j] as nat);
            assert(next[rest.len() + j] as nat == b);
        } else {
            assert(seen[a as int]);
            if !(b < seen.len() && seen[b as int]) {
                let k = choose|k: int| 0 <= k < stack.len() && #[trigger] stack[k] as nat == b;
                if k == stack.len() - 1 {
                    assert(b == u as nat);
                } else {
                    assert(next[k] as nat == b);
                }
            }
        }
    }
}

/// When nothing waits any more, every node that `i` depends on was seen.
proof fn lemma_walk_ends(edges: Seq<(nat, nat)>, i: nat, seen: Seq<bool>, v: nat)
    requires
        i < seen.len(),
        seen[i as int],
        walk_closed(edges, seen, Seq::<usize>::empty()),
        reaches(edges, i, v, true),
    ensures
        v < seen.len(),
        seen[v as int],
{
    reveal(walk_closed);
    let p = choose|p: Seq<nat>| #[trigger]
        crate::graph::is_walk(edges, p, true) && p[0] == i && p.last() == v;
    assert forall|a: nat, b: nat|
        a < seen.len() && seen[a as int] && #[trigger] step(edges, a, b, true) implies b
        < seen.len() && seen[b as int] by {
        assert(!among(Seq::<usize>::empty(), b));
    }
    lemma_walk_stays(edges, seen, p, true, p.len() - 1);
}

/// Every node marked is counted once, so fewer than all are marked while
/// one is not.
proof fn lemma_one_unseen(marked: Set<int>, n: int, u: int)
    requires
        0 <= u < n,
        marked.finite(),
        !marked.contains(u),
        forall|v: int| marked.contains(v) ==> 0 <= v < n,
    ensures
        marked.len() < n,
{
    let more = marked.insert(u);
    vstd::set_lib::lemma_int_range(0, n);
    vstd::set_lib::lemma_len_subset(more, vstd::set_lib::set_int_range(0, n));
}

/// The looks that are left suffice after a look at a new node.
proof fn lemma_looks_suffice(fuel: nat, waiting: nat, unseen: nat, total: nat, found: nat)
    requires
        unseen >= 1,
        waiting >= 1,
        found <= total,
        fuel >= waiting + unseen * total,
    ensures
        fuel - 1 >= (waiting - 1) + found + (unseen - 1) * total,
{
    assert(unseen * total == (unseen - 1) * total + total) by (nonlinear_arith)
        requires
            unseen >= 1,
    ;
}

impl DepGraph {
    /// The nodes without predecessors among `i` and the nodes that `i`
    /// depends on, directly or not, in the order in which the walk against
    /// the edges comes upon them.
    pub fn root_walk(&self, i: usize) -> (roots: Vec<usize>)
        requires
            self.wf(),
            i < self.node_total(),
        ensures
            indices(roots@) == root_walk(self.edges(), self.node_total(), i as nat),
            forall|k: int|
                0 <= k < roots@.len() ==> (#[trigger] roots@[k]) < self.node_total() && neighbors(
                    self.edges(),
                    roots@[k] as nat,
                    true,
                ).len() == 0 && reaches(self.edges(), i as nat, roots@[k] as nat, true),
            forall|v: nat|
                v < self.node_total() && (#[trigger] neighbors(self.edges(), v, true)).len() == 0
                    && reaches(self.edges(), i as nat, v, true) ==> among(roots@, v),
            forall|j: int, k: int| 0 <= j < k < roots@.len() ==> roots@[j] != roots@[k],
    {
        let n = self.node_count();
        let mut seen: Vec<bool> = Vec::new();
        let mut c: usize = 0;
        while c < n
            invariant
                c <= n,
                seen@.len() == c,
                forall|v: int| 0 <= v < c ==> !(#[trigger] seen@[v]),
            decreases n - c,
        {
            seen.push(false);
            c += 1;
        }
        let ghost edges = self.edges();
        let ghost target = root_walk(edges, n as nat, i as nat);
        let ghost mut fuel: nat = (1 + n * edges.len()) as nat;
        let ghost mut marked: Set<int> = Set::empty();
        let mut stack: Vec<usize> = Vec::new();
        stack.push(i);
        let mut roots: Vec<usize> = Vec::new();
        proof {
            assert(seen@ =~= none_seen(n as nat));
            assert(indices(stack@) =~= seq![i as nat]);
            assert(indices(roots@) =~= Seq::<nat>::empty());
            assert(indices(roots@) + target =~= target);
            lemma_walk_begins(edges, n as nat, i);
            assert(stack@ =~= seq![i]);
            assert(stack@[0] as nat == i as nat);
        }
        while stack.len() > 0
            invariant
                self.wf(),
                edges == self.edges(),
                n == self.node_total(),
                i < n,
                seen@.len() == n,
                target == root_walk(edges, n as nat, i as nat),
                indices(roots@) + walk_roots(edges, indices(stack@), seen@, fuel) == target,
                fuel >= stack@.len() + (n - marked.len()) * edges.len(),
                marked.finite(),
                forall|v: int| marked.contains(v) <==> 0 <= v < n && seen@[v],
                forall|k: int| 0 <= k < stack@.len() ==> (#[trigger] stack@[k]) < n,
                walk_sound(edges, i as nat, seen@, stack@),
                walk_closed(edges, seen@, stack@),
                seen@[i as int] || among(stack@, i as nat),
                forall|k: int|
                    0 <= k < roots@.len() ==> (#[trigger] roots@[k]) < n && seen@[roots@[k] as int]
                        && neighbors(edges, roots@[k] as nat, true).len() == 0,
                forall|v: nat|
                    v < n && seen@[v as int] && (#[trigger] neighbors(edges, v, true)).len() == 0
                        ==> among(roots@, v),
                forall|j: int, k: int| 0 <= j < k < roots@.len() ==> roots@[j] != roots@[k],
            decreases fuel,
        {
            let ghost stack0 = stack@;
            let ghost seen0 = seen@;
            let ghost roots0 = roots@;
            let ghost fuel0 = fuel;
            proof {
                vstd::set_lib::lemma_int_range(0, n as int);
                vstd::set_lib::lemma_len_subset(marked, vstd::set_lib::set_int_range(0, n as int));
                assert(indices(stack0).last() == stack0.last() as nat);
                assert(indices(stack0).drop_last() =~= indices(stack0.drop_last()));
                assert((n - marked.len()) * edges.len() >= 0) by (nonlinear_arith)
                    requires
                        n - marked.len() >= 0,
                        edges.len() >= 0,
                ;
            }
            let u = stack.pop().unwrap();
            if seen[u] {
                proof {
                    lemma_walk_drops(edges, i as nat, seen0, stack0);
                    fuel = (fuel - 1) as nat;
                    if !seen@[i as int] {
                        let k = choose|k: int|
                            0 <= k < stack0.len() && #[trigger] stack0[k] as nat == i as nat;
                        assert(stack@[k] as nat == i as nat);
                    }
                }
            } else {
                let before = self.predecessors(u);
                seen.set(u, true);
                if before.len() == 0 {
                    roots.push(u);
                }
                let mut j: usize = 0;
                while j < before.len()
                    invariant
                        j <= before@.len(),
                        stack@ == stack0.drop_last() + before@.take(j as int),
                    decreases before@.len() - j,
                {
                    stack.push(before[j]);
                    proof {
                        assert(before@.take(j + 1) =~= before@.take(j as int).push(before@[j as int]));
                        assert(stack@ =~= stack0.drop_last() + before@.take(j + 1));
                    }
                    j += 1;
                }
                proof {
                    assert(before@.take(j as int) =~= before@);
                    assert(indices(before@) =~= neighbors(edges, u as nat, true));
                    lemma_walk_visits(edges, i as nat, seen0, stack0, before@);
                    assert(seen@ =~= seen0.update(u as int, true));
                    assert(indices(stack@) =~= indices(stack0.drop_last()) + neighbors(
                        edges,
                        u as nat,
                        true,
                    ));
                    lemma_one_unseen(marked, n as int, u as int);
                    lemma_neighbors_few(edges, u as nat, true);
                    lemma_looks_suffice(
                        fuel0,
                        stack0.len(),
                        (n - marked.len()) as nat,
                        edges.len(),
                        before@.len(),
                    );
                    marked = marked.insert(u as int);
                    fuel = (fuel - 1) as nat;
                    if before@.len() == 0 {
                        assert(indices(roots@) =~= indices(roots0) + seq![u as nat]);
                        assert(stack0.drop_last() + before@ =~= stack0.drop_last());
                        let rest = walk_roots(edges, indices(stack@), seen@, fuel);
                        assert(indices(roots@) + rest =~= indices(roots0) + (seq![u as nat] + rest));
                        assert(roots@[roots@.len() - 1] == u);
                        assert forall|v: nat|
                            v < n && seen@[v as int] && (#[trigger] neighbors(edges, v, true)).len()
                                == 0 implies among(roots@, v) by {
                            if v != u as nat {
                                assert(seen0[v as int]);
                                let k = choose|k: int|
                                    0 <= k < roots0.len() && #[trigger] roots0[k] as nat == v;
                                assert(roots@[k] as nat == v);
                            }
                        }
                    }
                    if !seen@[i as int] {
                        let k = choose|k: int|
                            0 <= k < stack0.len() && #[trigger] stack0[k] as nat == i as nat;
                        assert(k < stack0.len() - 1);
                        assert(stack@[k] as nat == i as nat);
                    }
                }
            }
        }
        proof {
            assert(stack@ =~= Seq::<usize>::empty());
            assert(indices(stack@) =~= Seq::<nat>::empty());
            assert(indices(roots@) + Seq::<nat>::empty() =~= indices(roots@));
            reveal(walk_sound);
            assert forall|v: nat|
                v < n && (#[trigger] neighbors(edges, v, true)).len() == 0 && reaches(
                    edges,
                    i as nat,
                    v,
                    true,
                ) implies among(roots@, v) by {
                lemma_walk_ends(edges, i as nat, seen@, v);
            }
        }
        roots
    }
}

} // verus!
