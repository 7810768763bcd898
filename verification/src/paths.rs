//! Paths through the 4-neighbourhood of the plane, and the reachability facts
//! that the flood fills of this crate rest on.
use vstd::prelude::*;

verus! {

/// Two cells share an edge.
pub open spec fn adj(a: (int, int), b: (int, int)) -> bool {
    (a.0 == b.0 && (a.1 == b.1 + 1 || b.1 == a.1 + 1)) || (a.1 == b.1 && (a.0 == b.0 + 1 || b.0
        == a.0 + 1))
}

/// `p` is a non-empty walk of edge-adjacent cells that all satisfy `inside`.
pub open spec fn is_path(inside: spec_fn((int, int)) -> bool, p: Seq<(int, int)>) -> bool {
    &&& p.len() > 0
    &&& forall|i: int| 0 <= i < p.len() ==> #[trigger] inside(p[i])
    &&& forall|i: int| 0 <= i < p.len() - 1 ==> adj(#[trigger] p[i], p[i + 1])
}

/// `b` can be reached from `a` by stepping between edge-adjacent cells that
/// all satisfy `inside`.
pub open spec fn reachable(inside: spec_fn((int, int)) -> bool, a: (int, int), b: (int, int)) -> bool {
    exists|p: Seq<(int, int)>| #[trigger] is_path(inside, p) && p[0] == a && p.last() == b
}

/// `s` is closed under stepping to an adjacent cell inside the region.
pub open spec fn closed_under_steps(
    inside: spec_fn((int, int)) -> bool,
    s: spec_fn((int, int)) -> bool,
) -> bool {
    forall|c: (int, int), n: (int, int)| #![trigger s(c), s(n)] s(c) && inside(n) && adj(c, n) ==> s(n)
}

pub proof fn lemma_reach_refl(inside: spec_fn((int, int)) -> bool, a: (int, int))
    requires
        inside(a),
    ensures
        reachable(inside, a, a),
{
    let p = seq![a];
    assert(is_path(inside, p));
}

pub proof fn lemma_reach_step(
    inside: spec_fn((int, int)) -> bool,
    a: (int, int),
    b: (int, int),
    c: (int, int),
)
    requires
        reachable(inside, a, b),
        inside(c),
        adj(b, c),
    ensures
        reachable(inside, a, c),
{
    let p = choose|p: Seq<(int, int)>| #[trigger] is_path(inside, p) && p[0] == a && p.last() == b;
    let q = p.push(c);
    assert forall|i: int| 0 <= i < q.len() - 1 implies adj(#[trigger] q[i], q[i + 1]) by {
        if i < p.len() - 1 {
            assert(adj(p[i], p[i + 1]));
        }
    }
    assert forall|i: int| 0 <= i < q.len() implies #[trigger] inside(q[i]) by {
        if i < p.len() {
            assert(inside(p[i]));
        }
    }
    assert(is_path(inside, q));
}

pub proof fn lemma_reach_symmetric(inside: spec_fn((int, int)) -> bool, a: (int, int), b: (int, int))
    requires
        reachable(inside, a, b),
    ensures
        reachable(inside, b, a),
{
    let p = choose|p: Seq<(int, int)>| #[trigger] is_path(inside, p) && p[0] == a && p.last() == b;
    let q = p.reverse();
    assert forall|i: int| 0 <= i < q.len() implies #[trigger] inside(q[i]) by {
        assert(q[i] == p[p.len() - 1 - i]);
        assert(inside(p[p.len() - 1 - i]));
    }
    assert forall|i: int| 0 <= i < q.len() - 1 implies adj(#[trigger] q[i], q[i + 1]) by {
        let j = p.len() - 2 - i;
        assert(q[i] == p[j + 1]);
        assert(q[i + 1] == p[j]);
        assert(adj(p[j], p[j + 1]));
    }
    assert(is_path(inside, q));
}

pub proof fn lemma_reach_trans(
    inside: spec_fn((int, int)) -> bool,
    a: (int, int),
    b: (int, int),
    c: (int, int),
)
    requires
        reachable(inside, a, b),
        reachable(inside, b, c),
    ensures
        reachable(inside, a, c),
{
    let p = choose|p: Seq<(int, int)>| #[trigger] is_path(inside, p) && p[0] == a && p.last() == b;
    let q = choose|q: Seq<(int, int)>| #[trigger] is_path(inside, q) && q[0] == b && q.last() == c;
    let r = p + q.drop_first();
    assert forall|i: int| 0 <= i < r.len() implies #[trigger] inside(r[i]) by {
        if i < p.len() {
            assert(inside(p[i]));
        } else {
            assert(r[i] == q[i - p.len() + 1]);
            assert(inside(q[i - p.len() + 1]));
        }
    }
    assert forall|i: int| 0 <= i < r.len() - 1 implies adj(#[trigger] r[i], r[i + 1]) by {
        if i < p.len() - 1 {
            assert(adj(p[i], p[i + 1]));
        } else if i == p.len() - 1 {
            assert(r[i] == b);
            assert(r[i + 1] == q[1]);
            assert(adj(q[0], q[1]));
        } else {
            let j = i - p.len() + 1;
            assert(r[i] == q[j]);
            assert(r[i + 1] == q[j + 1]);
            assert(adj(q[j], q[j + 1]));
        }
    }
    if q.len() == 1 {
        assert(r =~= p);
    }
    assert(is_path(inside, r));
}

/// A set that holds `a` and is closed under steps holds everything reachable
/// from `a`.
pub proof fn lemma_closed_holds_reachable(
    inside: spec_fn((int, int)) -> bool,
    s: spec_fn((int, int)) -> bool,
    a: (int, int),
    b: (int, int),
)
    requires
        closed_under_steps(inside, s),
        s(a),
        reachable(inside, a, b),
    ensures
        s(b),
{
    let p = choose|p: Seq<(int, int)>| #[trigger] is_path(inside, p) && p[0] == a && p.last() == b;
    lemma_closed_holds_path(inside, s, p, p.len() - 1);
}

proof fn lemma_closed_holds_path(
    inside: spec_fn((int, int)) -> bool,
    s: spec_fn((int, int)) -> bool,
    p: Seq<(int, int)>,
    k: int,
)
    requires
        closed_under_steps(inside, s),
        is_path(inside, p),
        s(p[0]),
        0 <= k < p.len(),
    ensures
        s(p[k]),
    decreases k,
{
    if k > 0 {
        lemma_closed_holds_path(inside, s, p, k - 1);
        assert(adj(p[k - 1], p[k]));
        assert(inside(p[k]));
    }
}

/// Growing the region keeps every reachability fact.
pub proof fn lemma_reach_mono(
    inside: spec_fn((int, int)) -> bool,
    bigger: spec_fn((int, int)) -> bool,
    a: (int, int),
    b: (int, int),
)
    requires
        forall|c: (int, int)| #[trigger] inside(c) ==> bigger(c),
        reachable(inside, a, b),
    ensures
        reachable(bigger, a, b),
{
    let p = choose|p: Seq<(int, int)>| #[trigger] is_path(inside, p) && p[0] == a && p.last() == b;
    assert forall|i: int| 0 <= i < p.len() implies #[trigger] bigger(p[i]) by {
        assert(inside(p[i]));
    }
    assert(is_path(bigger, p));
}

} // verus!
