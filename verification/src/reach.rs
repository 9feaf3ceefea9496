//! The dependency graph model.
//!
//! The registry's contents are modelled as a map from identifier text to
//! package value. Over that map this module defines the dependency edge
//! relation, reachability along package-typed edges, membership of the
//! transitive dependency closure, cycles, and what it means for a sequence
//! of identifiers to linearize the graph. The registry's graph algorithms
//! state their contracts with these predicates.

use vstd::prelude::*;
use crate::manifest::DepView;
use crate::manifest::has_pkg_dep;
use crate::package::PackageView;
use crate::version::Comparator;
use crate::version::Version;

verus! {

/// The registry model: package values keyed by their identifier text.
pub type RegMap = Map<Seq<char>, PackageView>;

/// The declared direct dependencies of the package registered as `x`.
pub open spec fn deps_of(m: RegMap, x: Seq<char>) -> Seq<DepView> {
    m[x].manifest.dependencies
}

/// A dependency edge: the package registered as `u` declares a package
/// dependency on `v`.
pub open spec fn dep_edge(m: RegMap, u: Seq<char>, v: Seq<char>) -> bool {
    m.contains_key(u) && has_pkg_dep(deps_of(m, u), v)
}

/// A walk through the graph: a non-empty sequence of identifiers with a
/// dependency edge between each pair of neighbours.
pub open spec fn is_path(m: RegMap, p: Seq<Seq<char>>) -> bool {
    p.len() >= 1 && forall|i: int| 0 <= i < p.len() - 1 ==> dep_edge(m, #[trigger] p[i], p[i + 1])
}

/// Whether `x` can be reached from `a` along dependency edges (in zero or
/// more steps).
pub open spec fn reaches(m: RegMap, a: Seq<char>, x: Seq<char>) -> bool {
    exists|p: Seq<Seq<char>>| #[trigger] is_path(m, p) && p[0] == a && p.last() == x
}

/// Whether dependency `d` belongs to the transitive dependency closure of
/// `a`: some package reachable from `a` declares it.
pub open spec fn in_closure(m: RegMap, a: Seq<char>, d: DepView) -> bool {
    exists|x: Seq<char>|
        #[trigger] reaches(m, a, x) && m.contains_key(x) && deps_of(m, x).contains(d)
}

/// Whether `a` depends on itself: some package reachable from `a` declares
/// a package dependency back on `a`.
pub open spec fn self_reach(m: RegMap, a: Seq<char>) -> bool {
    exists|x: Seq<char>|
        #[trigger] reaches(m, a, x) && m.contains_key(x) && has_pkg_dep(deps_of(m, x), a)
}

/// Whether the closure of `a` mentions a package that is not registered.
pub open spec fn has_dangling(m: RegMap, a: Seq<char>) -> bool {
    exists|d: DepView|
        #[trigger] in_closure(m, a, d) && d is Package && !m.contains_key(d.pkg_id())
}

/// Whether the closure of `a` mentions the unregistered package `x`.
pub open spec fn closure_dangles_on(m: RegMap, a: Seq<char>, x: Seq<char>) -> bool {
    exists|d: DepView|
        #[trigger] in_closure(m, a, d) && d is Package && d.pkg_id() == x && !m.contains_key(x)
}

/// Whether some registered package declares a dependency on the
/// unregistered package `x`.
pub open spec fn edge_dangles_on(m: RegMap, x: Seq<char>) -> bool {
    exists|u: Seq<char>| #[trigger] dep_edge(m, u, x) && !m.contains_key(x)
}

/// Whether a dependency cycle is reachable from `a`.
pub open spec fn reaches_cycle(m: RegMap, a: Seq<char>) -> bool {
    exists|c: Seq<Seq<char>>| #[trigger] is_cycle(m, c) && reaches(m, a, c[0])
}

/// Whether, somewhere in the closure of `dependent`, a requirement
/// `required` on `target` is declared that the registered version
/// `actual` of `target` does not meet.
pub open spec fn version_violation(
    m: RegMap,
    dependent: Seq<char>,
    target: Seq<char>,
    required: Seq<Comparator>,
    actual: Version,
) -> bool {
    &&& m.contains_key(dependent)
    &&& in_closure(m, dependent, DepView::Package { id: target, version: required })
    &&& m.contains_key(target)
    &&& actual == m[target].manifest.metadata.version
    &&& !crate::version::spec_req_matches(required, actual)
}

/// Whether the transitive dependency closure of `a` can be computed: `a`
/// is registered, does not depend on itself, and every package the closure
/// mentions is registered.
pub open spec fn closure_ok(m: RegMap, a: Seq<char>) -> bool {
    m.contains_key(a) && !self_reach(m, a) && !has_dangling(m, a)
}

/// Whether `k` is a package whose version requirement, wherever it is
/// declared in the closure of `a`, admits the registered version.
pub open spec fn versions_ok(m: RegMap) -> bool {
    forall|a: Seq<char>, d: DepView|
        m.contains_key(a) && #[trigger] in_closure(m, a, d) && d is Package
            ==> m.contains_key(d.pkg_id()) && crate::version::spec_req_matches(
            d.pkg_version(),
            m[d.pkg_id()].manifest.metadata.version,
        )
}

/// A cycle: a walk of at least one edge that returns to its start.
pub open spec fn is_cycle(m: RegMap, p: Seq<Seq<char>>) -> bool {
    is_path(m, p) && p.len() >= 2 && p[0] == p.last()
}

/// Whether the graph holds a dependency cycle.
pub open spec fn has_cycle(m: RegMap) -> bool {
    exists|p: Seq<Seq<char>>| #[trigger] is_cycle(m, p)
}

/// Whether some registered package declares a package dependency on an
/// unregistered one.
pub open spec fn has_dangling_edge(m: RegMap) -> bool {
    exists|u: Seq<char>, v: Seq<char>| #[trigger] dep_edge(m, u, v) && !m.contains_key(v)
}

/// Whether `k` is an orphan for build root `root`: registered, not the
/// root, and not a package the root's closure depends on.
pub open spec fn is_orphan(m: RegMap, root: Seq<char>, k: Seq<char>) -> bool {
    &&& m.contains_key(k)
    &&& k != root
    &&& !exists|d: DepView| #[trigger] in_closure(m, root, d) && d is Package && d.pkg_id() == k
}

/// The set of orphan identifiers for build root `root`.
pub open spec fn orphan_keys(m: RegMap, root: Seq<char>) -> Set<Seq<char>> {
    Set::new(|k: Seq<char>| is_orphan(m, root, k))
}

/// Whether `order` linearizes the graph: it lists every registered
/// identifier exactly once, and every dependency comes before its
/// dependent.
pub open spec fn linearizes(m: RegMap, order: Seq<Seq<char>>) -> bool {
    &&& order.no_duplicates()
    &&& forall|i: int| 0 <= i < order.len() ==> m.contains_key(#[trigger] order[i])
    &&& forall|k: Seq<char>| m.contains_key(k) ==> #[trigger] order.contains(k)
    &&& forall|i: int, j: int|
        0 <= i < order.len() && 0 <= j < order.len() && dep_edge(m, #[trigger] order[i], #[trigger] order[j])
            ==> j < i
}

/// The position of `x` in `order`.
pub open spec fn pos_of(order: Seq<Seq<char>>, x: Seq<char>) -> int {
    choose|i: int| 0 <= i < order.len() && order[i] == x
}

/// In a duplicate-free sequence, the position of any element is the index
/// it stands at.
pub proof fn lemma_pos_of(order: Seq<Seq<char>>, i: int)
    requires
        order.no_duplicates(),
        0 <= i < order.len(),
    ensures
        pos_of(order, order[i]) == i,
{
    assert(order.contains(order[i]));
    let k = pos_of(order, order[i]);
    assert(0 <= k < order.len() && order[k] == order[i]);
}

/// The one-element walk from `a` to itself.
pub proof fn lemma_reaches_refl(m: RegMap, a: Seq<char>)
    ensures
        reaches(m, a, a),
{
    let p = seq![a];
    assert(is_path(m, p));
    assert(p[0] == a && p.last() == a);
}

/// Extending a walk by one edge.
pub proof fn lemma_reaches_step(m: RegMap, a: Seq<char>, x: Seq<char>, y: Seq<char>)
    requires
        reaches(m, a, x),
        dep_edge(m, x, y),
    ensures
        reaches(m, a, y),
{
    let p = choose|p: Seq<Seq<char>>| #[trigger] is_path(m, p) && p[0] == a && p.last() == x;
    let q = p.push(y);
    assert forall|i: int| 0 <= i < q.len() - 1 implies dep_edge(m, #[trigger] q[i], q[i + 1]) by {
        if i < p.len() - 1 {
            assert(dep_edge(m, p[i], p[i + 1]));
        } else {
            assert(q[i] == x && q[i + 1] == y);
        }
    }
    assert(is_path(m, q) && q[0] == a && q.last() == y);
}

/// Along a walk, positions in a linearization strictly decrease: the walk's
/// end stands strictly before its start whenever the walk has an edge.
pub proof fn lemma_path_positions(m: RegMap, order: Seq<Seq<char>>, p: Seq<Seq<char>>)
    requires
        linearizes(m, order),
        is_path(m, p),
        forall|i: int| 0 <= i < p.len() ==> order.contains(#[trigger] p[i]),
    ensures
        p.len() >= 2 ==> pos_of(order, p.last()) < pos_of(order, p[0]),
        pos_of(order, p.last()) <= pos_of(order, p[0]),
    decreases p.len(),
{
    if p.len() >= 2 {
        let rest = p.drop_first();
        assert forall|i: int| 0 <= i < rest.len() - 1 implies dep_edge(
            m,
            #[trigger] rest[i],
            rest[i + 1],
        ) by {
            assert(dep_edge(m, p[i + 1], p[i + 2]));
        }
        assert(is_path(m, rest));
        assert forall|i: int| 0 <= i < rest.len() implies order.contains(#[trigger] rest[i]) by {
            assert(order.contains(p[i + 1]));
        }
        lemma_path_positions(m, order, rest);
        // the first edge p[0] -> p[1] forces pos(p[1]) < pos(p[0])
        let i0 = pos_of(order, p[0]);
        let i1 = pos_of(order, p[1]);
        assert(order.contains(p[0]));
        assert(order[i0] == p[0] && 0 <= i0 < order.len());
        assert(order.contains(p[1]));
        assert(order[i1] == p[1] && 0 <= i1 < order.len());
        assert(dep_edge(m, p[0], p[1]));
        assert(dep_edge(m, order[i0], order[i1]));
        assert(i1 < i0);
        assert(rest[0] == p[1]);
        assert(rest.last() == p.last());
    }
}

/// A graph with a linearization has no cycle.
pub proof fn lemma_linearization_acyclic(m: RegMap, order: Seq<Seq<char>>)
    requires
        linearizes(m, order),
    ensures
        !has_cycle(m),
{
    if has_cycle(m) {
        let p = choose|p: Seq<Seq<char>>| #[trigger] is_cycle(m, p);
        assert forall|i: int| 0 <= i < p.len() implies order.contains(#[trigger] p[i]) by {
            if i < p.len() - 1 {
                assert(dep_edge(m, p[i], p[i + 1]));
                assert(m.contains_key(p[i]));
            } else {
                assert(p[i] == p[0]);
                assert(dep_edge(m, p[0], p[1]));
                assert(m.contains_key(p[0]));
            }
        }
        lemma_path_positions(m, order, p);
    }
}

/// Every node on a cycle depends on itself.
pub proof fn lemma_cycle_self_reach(m: RegMap, p: Seq<Seq<char>>, i: int)
    requires
        is_cycle(m, p),
        0 <= i < p.len() - 1,
    ensures
        self_reach(m, p[i]),
{
    // p[i] reaches the predecessor of p[i] by walking the cycle (wrapping
    // once), and that predecessor's edge closes back on p[i].
    let n = p.len() as int;
    // the walk from p[i] around the cycle: p[i..n-1] + p[0..i+1]
    let q = p.subrange(i, n - 1) + p.subrange(0, i + 1);
    assert forall|k: int| 0 <= k < q.len() - 1 implies dep_edge(m, #[trigger] q[k], q[k + 1]) by {
        let l1 = n - 1 - i;
        if k + 1 < l1 {
            assert(q[k] == p[i + k]);
            assert(q[k + 1] == p[i + k + 1]);
            assert(dep_edge(m, p[i + k], p[i + k + 1]));
        } else if k + 1 == l1 {
            assert(q[k] == p[n - 2]);
            assert(q[k + 1] == p[0]);
            assert(dep_edge(m, p[n - 2], p[n - 1]));
            assert(p[n - 1] == p[0]);
        } else {
            let j = k - l1;
            assert(q[k] == p[j]);
            assert(q[k + 1] == p[j + 1]);
            assert(dep_edge(m, p[j], p[j + 1]));
        }
    }
    assert(is_path(m, q));
    assert(q[0] == p[i]);
    assert(q.last() == p[i]);
    // walk q without its final step reaches the predecessor of p[i] on the
    // cycle; that predecessor's edge back to p[i] shows self-reach.
    let q2 = q.drop_last();
    assert forall|k: int| 0 <= k < q2.len() - 1 implies dep_edge(m, #[trigger] q2[k], q2[k + 1]) by {
        assert(dep_edge(m, q[k], q[k + 1]));
    }
    assert(q2.len() >= 1);
    assert(is_path(m, q2));
    assert(q2[0] == p[i]);
    assert(reaches(m, p[i], q2.last()));
    assert(dep_edge(m, q2.last(), p[i])) by {
        assert(q2.last() == q[q.len() - 2]);
        assert(dep_edge(m, q[q.len() - 2], q[q.len() - 1]));
    }
    assert(m.contains_key(q2.last()) && has_pkg_dep(deps_of(m, q2.last()), p[i]));
}

/// In a linearization, anything at the end of an edge out of a node
/// reachable from `a` stands strictly before `a`.
pub proof fn lemma_reached_strictly_before(
    m: RegMap,
    order: Seq<Seq<char>>,
    a: Seq<char>,
    x: Seq<char>,
    k: Seq<char>,
)
    requires
        linearizes(m, order),
        m.contains_key(a),
        m.contains_key(k),
        reaches(m, a, x),
        dep_edge(m, x, k),
    ensures
        pos_of(order, k) < pos_of(order, a),
{
    let p = choose|p: Seq<Seq<char>>| #[trigger] is_path(m, p) && p[0] == a && p.last() == x;
    let q = p.push(k);
    assert forall|i: int| 0 <= i < q.len() - 1 implies dep_edge(m, #[trigger] q[i], q[i + 1]) by {
        if i < p.len() - 1 {
            assert(dep_edge(m, p[i], p[i + 1]));
        } else {
            assert(q[i] == x && q[i + 1] == k);
        }
    }
    assert(is_path(m, q));
    assert forall|i: int| 0 <= i < q.len() implies order.contains(#[trigger] q[i]) by {
        if i < q.len() - 1 {
            assert(dep_edge(m, q[i], q[i + 1]));
            assert(m.contains_key(q[i]));
        }
    }
    lemma_path_positions(m, order, q);
    assert(q[0] == a && q.last() == k && q.len() >= 2);
}

/// A dependency cycle defeats the graph algorithms: no ordering of any
/// kind linearizes the graph (so a topological ordering cannot be
/// returned), and every package on the cycle depends on itself (so its
/// transitive dependency closure cannot be computed either).
pub proof fn lemma_cycle_blocks(m: RegMap, p: Seq<Seq<char>>, i: int)
    requires
        is_cycle(m, p),
        0 <= i < p.len() - 1,
    ensures
        forall|ordv: Seq<Seq<char>>| !#[trigger] linearizes(m, ordv),
        self_reach(m, p[i]),
        !closure_ok(m, p[i]),
{
    assert forall|ordv: Seq<Seq<char>>| !#[trigger] linearizes(m, ordv) by {
        if linearizes(m, ordv) {
            lemma_linearization_acyclic(m, ordv);
            assert(is_cycle(m, p));
        }
    }
    lemma_cycle_self_reach(m, p, i);
}

/// A set of identifiers that is closed under dependency edges and holds
/// `a` holds everything reachable from `a`.
pub proof fn lemma_reachable_in_closed_set(
    m: RegMap,
    a: Seq<char>,
    s: Seq<Seq<char>>,
    x: Seq<char>,
)
    requires
        s.contains(a),
        forall|u: Seq<char>, v: Seq<char>|
            s.contains(u) && #[trigger] dep_edge(m, u, v) ==> s.contains(v),
        reaches(m, a, x),
    ensures
        s.contains(x),
{
    let p = choose|p: Seq<Seq<char>>| #[trigger] is_path(m, p) && p[0] == a && p.last() == x;
    assert forall|i: int| 0 <= i < p.len() implies s.contains(#[trigger] p[i]) by {
        lemma_path_prefix_in_closed_set(m, s, p, i);
    }
    assert(s.contains(p[p.len() - 1]));
}

/// Helper: along a walk that starts inside an edge-closed set, every node
/// lies in the set.
proof fn lemma_path_prefix_in_closed_set(m: RegMap, s: Seq<Seq<char>>, p: Seq<Seq<char>>, i: int)
    requires
        is_path(m, p),
        s.contains(p[0]),
        forall|u: Seq<char>, v: Seq<char>|
            s.contains(u) && #[trigger] dep_edge(m, u, v) ==> s.contains(v),
        0 <= i < p.len(),
    ensures
        s.contains(p[i]),
    decreases i,
{
    if i > 0 {
        lemma_path_prefix_in_closed_set(m, s, p, i - 1);
        assert(dep_edge(m, p[i - 1], p[i]));
    }
}

} // verus!
