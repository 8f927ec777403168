//! Walks and reachability in a directed graph given by its set of edges.

use vstd::prelude::*;

verus! {

/// A non-empty sequence of nodes in which each node has an edge to the next.
pub open spec fn is_walk<T>(edges: Set<(T, T)>, walk: Seq<T>) -> bool {
    &&& walk.len() > 0
    &&& forall|i: int| 0 <= i < walk.len() - 1 ==> edges.contains((#[trigger] walk[i], walk[i + 1]))
}

/// `to` can be reached from `from` by following zero or more edges.
pub open spec fn reaches<T>(edges: Set<(T, T)>, from: T, to: T) -> bool {
    exists|walk: Seq<T>| #[trigger] is_walk(edges, walk) && walk[0] == from && walk.last() == to
}

/// The edges between the images, under `f`, of the endpoints of `edges`.
pub open spec fn image<A, B>(edges: Set<(A, A)>, f: spec_fn(A) -> B) -> Set<(B, B)> {
    Set::new(|p: (B, B)| exists|e: (A, A)| #[trigger] edges.contains(e) && p == (f(e.0), f(e.1)))
}

/// Every node reaches itself.
pub proof fn lemma_reaches_self<T>(edges: Set<(T, T)>, a: T)
    ensures
        reaches(edges, a, a),
{
    let walk = seq![a];
    assert(is_walk(edges, walk));
    assert(walk[0] == a && walk.last() == a);
}

/// An edge extends what its source is reached from.
pub proof fn lemma_reaches_step<T>(edges: Set<(T, T)>, a: T, b: T, c: T)
    requires
        reaches(edges, a, b),
        edges.contains((b, c)),
    ensures
        reaches(edges, a, c),
{
    let walk = choose|walk: Seq<T>| #[trigger] is_walk(edges, walk) && walk[0] == a && walk.last() == b;
    let longer = walk.push(c);
    assert forall|i: int| 0 <= i < longer.len() - 1 implies edges.contains(
        (#[trigger] longer[i], longer[i + 1]),
    ) by {
        if i < walk.len() - 1 {
            assert(longer[i] == walk[i]);
            assert(longer[i + 1] == walk[i + 1]);
        }
    }
    assert(is_walk(edges, longer));
    assert(longer[0] == a && longer.last() == c);
}

/// A walk that leaves its first node leaves it by one of that node's outgoing edges.
pub proof fn lemma_reaches_needs_edge<T>(edges: Set<(T, T)>, a: T, b: T)
    requires
        reaches(edges, a, b),
        a != b,
    ensures
        exists|c: T| edges.contains((a, c)),
{
    let walk = choose|walk: Seq<T>| #[trigger] is_walk(edges, walk) && walk[0] == a && walk.last() == b;
    assert(walk.len() > 1);
    assert(edges.contains((walk[0int], walk[0int + 1])));
}

/// Reachability is kept when edges are added.
pub proof fn lemma_reaches_mono<T>(small: Set<(T, T)>, large: Set<(T, T)>, a: T, b: T)
    requires
        reaches(small, a, b),
        small.subset_of(large),
    ensures
        reaches(large, a, b),
{
    let walk = choose|walk: Seq<T>| #[trigger] is_walk(small, walk) && walk[0] == a && walk.last() == b;
    assert forall|i: int| 0 <= i < walk.len() - 1 implies large.contains(
        (#[trigger] walk[i], walk[i + 1]),
    ) by {
        assert(small.contains((walk[i], walk[i + 1])));
    }
    assert(is_walk(large, walk));
}

/// An edge extends what its target reaches.
pub proof fn lemma_reaches_prepend<T>(edges: Set<(T, T)>, a: T, b: T, c: T)
    requires
        edges.contains((a, b)),
        reaches(edges, b, c),
    ensures
        reaches(edges, a, c),
{
    let walk = choose|walk: Seq<T>| #[trigger] is_walk(edges, walk) && walk[0] == b && walk.last() == c;
    let longer = seq![a] + walk;
    assert forall|i: int| 0 <= i < longer.len() - 1 implies edges.contains(
        (#[trigger] longer[i], longer[i + 1]),
    ) by {
        if i == 0 {
            assert(longer[0] == a);
            assert(longer[1] == walk[0]);
        } else {
            assert(longer[i] == walk[i - 1]);
            assert(longer[i + 1] == walk[i - 1 + 1]);
        }
    }
    assert(is_walk(edges, longer));
    assert(longer[0] == a && longer.last() == c);
}

/// The edges that do not leave `a`.
pub open spec fn without_source<T>(edges: Set<(T, T)>, a: T) -> Set<(T, T)> {
    edges.filter(|e: (T, T)| e.0 != a)
}

/// A walk that ends in `a` has a part that ends in `a` and leaves `a`
/// nowhere.
proof fn lemma_walk_without<T>(edges: Set<(T, T)>, a: T, walk: Seq<T>)
    requires
        is_walk(edges, walk),
        walk.last() == a,
    ensures
        reaches(without_source(edges, a), walk[0], a),
    decreases walk.len(),
{
    let kept = without_source(edges, a);
    if walk[0] == a {
        lemma_reaches_self(kept, a);
    } else {
        let rest = walk.skip(1);
        assert forall|j: int| 0 <= j < rest.len() - 1 implies edges.contains(
            (#[trigger] rest[j], rest[j + 1]),
        ) by {
            assert(rest[j] == walk[j + 1]);
            assert(rest[j + 1] == walk[j + 1 + 1]);
            assert(edges.contains((walk[j + 1], walk[j + 1 + 1])));
        }
        assert(rest.last() == a);
        lemma_walk_without(edges, a, rest);
        assert(rest[0] == walk[1]);
        assert(edges.contains((walk[0int], walk[0int + 1])));
        assert(kept.contains((walk[0], walk[1])));
        lemma_reaches_prepend(kept, walk[0], walk[1], a);
    }
}

/// What reaches `a`, reaches it without the edges that leave `a`.
pub proof fn lemma_reaches_without<T>(edges: Set<(T, T)>, x: T, a: T)
    requires
        reaches(edges, x, a),
    ensures
        reaches(without_source(edges, a), x, a),
{
    let walk = choose|walk: Seq<T>| #[trigger] is_walk(edges, walk) && walk[0] == x && walk.last() == a;
    lemma_walk_without(edges, a, walk);
}

/// A walk maps, node by node, to a walk among the images of its edges.
pub proof fn lemma_reaches_image<A, B>(edges: Set<(A, A)>, f: spec_fn(A) -> B, from: A, to: A)
    requires
        reaches(edges, from, to),
    ensures
        reaches(image(edges, f), f(from), f(to)),
{
    let walk = choose|walk: Seq<A>| #[trigger]
        is_walk(edges, walk) && walk[0] == from && walk.last() == to;
    let mapped = walk.map_values(f);
    assert forall|i: int| 0 <= i < mapped.len() - 1 implies image(edges, f).contains(
        (#[trigger] mapped[i], mapped[i + 1]),
    ) by {
        let e = (walk[i], walk[i + 1]);
        assert(edges.contains(e));
        assert((mapped[i], mapped[i + 1]) == (f(e.0), f(e.1)));
    }
    assert(is_walk(image(edges, f), mapped));
    assert(mapped[0] == f(from) && mapped.last() == f(to));
}

/// Lifts a walk among the images back to a walk of the same length among
/// `edges`, where `f` is one-to-one on a set that holds every endpoint.
proof fn lemma_walk_preimage<A, B>(
    edges: Set<(A, A)>,
    f: spec_fn(A) -> B,
    dom: Set<A>,
    from: A,
    mapped: Seq<B>,
) -> (walk: Seq<A>)
    requires
        is_walk(image(edges, f), mapped),
        mapped[0] == f(from),
        dom.contains(from),
        forall|e: (A, A)| #[trigger] edges.contains(e) ==> dom.contains(e.0) && dom.contains(e.1),
        forall|x: A, y: A| dom.contains(x) && dom.contains(y) && #[trigger] f(x) == #[trigger] f(y) ==> x == y,
    ensures
        is_walk(edges, walk),
        walk.len() == mapped.len(),
        walk[0] == from,
        dom.contains(walk.last()),
        f(walk.last()) == mapped.last(),
    decreases mapped.len(),
{
    if mapped.len() == 1 {
        let walk = seq![from];
        assert(is_walk(edges, walk));
        walk
    } else {
        let shorter = mapped.drop_last();
        assert forall|i: int| 0 <= i < shorter.len() - 1 implies image(edges, f).contains(
            (#[trigger] shorter[i], shorter[i + 1]),
        ) by {
            assert(shorter[i] == mapped[i]);
            assert(shorter[i + 1] == mapped[i + 1]);
        }
        let prefix = lemma_walk_preimage(edges, f, dom, from, shorter);
        let k = mapped.len() - 2;
        assert(image(edges, f).contains((mapped[k], mapped[k + 1])));
        let e = choose|e: (A, A)| #[trigger]
            edges.contains(e) && (mapped[k], mapped[k + 1]) == (f(e.0), f(e.1));
        assert(f(e.0) == f(prefix.last()));
        assert(e.0 == prefix.last());
        let walk = prefix.push(e.1);
        assert forall|i: int| 0 <= i < walk.len() - 1 implies edges.contains(
            (#[trigger] walk[i], walk[i + 1]),
        ) by {
            if i < prefix.len() - 1 {
                assert(walk[i] == prefix[i]);
                assert(walk[i + 1] == prefix[i + 1]);
            } else {
                assert(walk[i] == e.0);
                assert(walk[i + 1] == e.1);
            }
        }
        walk
    }
}

/// What is reached among the images is the image of something reached among
/// `edges`, where `f` is one-to-one on a set that holds every endpoint.
pub proof fn lemma_reaches_preimage<A, B>(
    edges: Set<(A, A)>,
    f: spec_fn(A) -> B,
    dom: Set<A>,
    from: A,
    target: B,
) -> (to: A)
    requires
        reaches(image(edges, f), f(from), target),
        dom.contains(from),
        forall|e: (A, A)| #[trigger] edges.contains(e) ==> dom.contains(e.0) && dom.contains(e.1),
        forall|x: A, y: A| dom.contains(x) && dom.contains(y) && #[trigger] f(x) == #[trigger] f(y) ==> x == y,
    ensures
        dom.contains(to),
        f(to) == target,
        reaches(edges, from, to),
{
    let mapped = choose|walk: Seq<B>| #[trigger]
        is_walk(image(edges, f), walk) && walk[0] == f(from) && walk.last() == target;
    let walk = lemma_walk_preimage(edges, f, dom, from, mapped);
    walk.last()
}

} // verus!
