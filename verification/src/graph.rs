//! The registry's dependency-graph algorithms: transitive closure with
//! cycle detection, topological ordering, orphan detection, and version
//! compatibility.

use vstd::prelude::*;
use crate::id::Id;
use crate::manifest::DepView;
use crate::manifest::Dependency;
use crate::manifest::dep_views;
use crate::manifest::dep_eq;
use crate::package::Package;
use crate::package::PackageView;
use crate::reach::RegMap;
use crate::reach::closure_ok;
use crate::reach::dep_edge;
use crate::reach::deps_of;
use crate::reach::has_dangling;
use crate::reach::in_closure;
use crate::reach::lemma_reachable_in_closed_set;
use crate::reach::lemma_reaches_refl;
use crate::reach::lemma_reaches_step;
use crate::reach::reaches;
use crate::reach::self_reach;
use crate::registry::Error;
use crate::registry::Registry;
use crate::registry::id_texts;
use crate::version::Version;

verus! {

broadcast use vstd::seq_lib::group_to_multiset_ensures;

/// Decides whether `v` holds an identifier with the text of `x`.
pub fn contains_id(v: &Vec<Id>, x: &Id) -> (r: bool)
    ensures
        r == id_texts(v@).contains(x@),
{
    let n = v.len();
    let mut i: usize = 0;
    while i < n
        invariant
            i <= n,
            n == v@.len(),
            forall|j: int| 0 <= j < i ==> (#[trigger] id_texts(v@)[j]) != x@,
        decreases n - i,
    {
        if v[i].eq(x) {
            proof {
                assert(id_texts(v@)[i as int] == x@);
            }
            return true;
        }
        i = i + 1;
    }
    false
}

/// Decides whether `v` holds a dependency with the value of `d`.
pub fn contains_dep(v: &Vec<Dependency>, d: &Dependency) -> (r: bool)
    ensures
        r == dep_views(v@).contains(d@),
{
    let n = v.len();
    let mut i: usize = 0;
    while i < n
        invariant
            i <= n,
            n == v@.len(),
            forall|j: int| 0 <= j < i ==> (#[trigger] dep_views(v@)[j]) != d@,
        decreases n - i,
    {
        if dep_eq(&v[i], d) {
            proof {
                assert(dep_views(v@)[i as int] == d@);
            }
            return true;
        }
        i = i + 1;
    }
    false
}

/// A duplicate-free sequence of keys of a finite domain is no longer than
/// the domain.
pub proof fn lemma_distinct_len_le_dom(sv: Seq<Seq<char>>, dom: Set<Seq<char>>)
    requires
        sv.no_duplicates(),
        forall|i: int| 0 <= i < sv.len() ==> dom.contains(#[trigger] sv[i]),
        dom.finite(),
    ensures
        sv.len() <= dom.len(),
{
    sv.unique_seq_to_set();
    assert(sv.to_set().subset_of(dom));
    vstd::set_lib::lemma_len_subset(sv.to_set(), dom);
}

/// Whether every package-typed dependency of `k` points at an identifier
/// in `prefix`.
pub open spec fn ready(m: RegMap, k: Seq<char>, prefix: Seq<Seq<char>>) -> bool {
    forall|j: int|
        0 <= j < deps_of(m, k).len() && (#[trigger] deps_of(m, k)[j]) is Package
            ==> prefix.contains(deps_of(m, k)[j].pkg_id())
}

/// Whether every package-typed dependency of `k` points at a registered
/// package.
pub open spec fn targets_registered(m: RegMap, k: Seq<char>) -> bool {
    forall|j: int|
        0 <= j < deps_of(m, k).len() && (#[trigger] deps_of(m, k)[j]) is Package
            ==> m.contains_key(deps_of(m, k)[j].pkg_id())
}

/// Whether position `i` of `ordv` holds the least identifier that was
/// still placeable there: among the registered identifiers not listed
/// before `i` whose package dependencies are all listed before `i`, the
/// one at `i` comes first in the identifiers' own order.
pub open spec fn canonical_at(m: RegMap, ordv: Seq<Seq<char>>, i: int) -> bool {
    forall|k: Seq<char>|
        m.contains_key(k) && !ordv.take(i).contains(k) && #[trigger] ready(m, k, ordv.take(i))
            ==> crate::text::lex_le(ordv[i], k)
}

/// The canonical linearization: a linearization that at every position
/// holds the least identifier that was placeable there. At most one
/// ordering is canonical (`lemma_canonical_unique`), which is what makes
/// the topological ordering deterministic.
pub open spec fn canonical(m: RegMap, ordv: Seq<Seq<char>>) -> bool {
    &&& crate::reach::linearizes(m, ordv)
    &&& forall|i: int| 0 <= i < ordv.len() ==> #[trigger] canonical_at(m, ordv, i)
}

/// What a failed closure computation for `a` reports: the error names
/// `a` itself when it is unregistered or depends on itself, or an
/// unregistered package that `a`'s closure mentions.
pub open spec fn closure_error(m: RegMap, a: Seq<char>, e: Error) -> bool {
    match e {
        Error::NotFound { id: x } => (x@ == a && !m.contains_key(a))
            || crate::reach::closure_dangles_on(m, a, x@),
        Error::CircularDependency { id: x } => x@ == a && crate::reach::self_reach(m, a),
        _ => false,
    }
}

/// What a failed whole-registry sweep reports: some registered
/// identifier's closure failed, named as `closure_error` states, or the
/// error's own fields witness a version violation.
pub open spec fn sweep_error(m: RegMap, e: Error) -> bool {
    ||| exists|a: Seq<char>| #[trigger] m.contains_key(a) && closure_error(m, a, e)
    ||| e matches Error::IncompatibleVersion { dependent, id, required, actual }
        && crate::reach::version_violation(m, dependent@, id@, required@, actual)
}

/// A duplicate-free sequence that lists exactly the keys of a finite
/// domain has the domain's size.
pub proof fn lemma_complete_len(sv: Seq<Seq<char>>, dom: Set<Seq<char>>)
    requires
        sv.no_duplicates(),
        forall|i: int| 0 <= i < sv.len() ==> dom.contains(#[trigger] sv[i]),
        forall|k: Seq<char>| dom.contains(k) ==> #[trigger] sv.contains(k),
        dom.finite(),
    ensures
        sv.len() == dom.len(),
{
    sv.unique_seq_to_set();
    assert(sv.to_set() =~= dom);
}

/// Builds a walk of the given length through the blocked identifiers:
/// when every unplaced identifier has an unplaced package dependency (and
/// no edge dangles), each has an edge to another unplaced one.
proof fn lemma_blocked_walk(m: RegMap, placedv: Seq<Seq<char>>, u: Seq<char>, len: int) -> (p: Seq<
    Seq<char>,
>)
    requires
        len >= 1,
        m.contains_key(u),
        !placedv.contains(u),
        forall|k: Seq<char>|
            m.contains_key(k) && !placedv.contains(k) ==> !(#[trigger] ready(m, k, placedv)),
        forall|k: Seq<char>|
            m.contains_key(k) && !placedv.contains(k) ==> #[trigger] targets_registered(m, k),
    ensures
        crate::reach::is_path(m, p),
        p.len() == len,
        p[0] == u,
        forall|i: int|
            0 <= i < p.len() ==> m.contains_key(#[trigger] p[i]) && !placedv.contains(p[i]),
    decreases len,
{
    if len == 1 {
        let p = seq![u];
        assert(crate::reach::is_path(m, p));
        p
    } else {
        assert(!ready(m, u, placedv));
        let j = choose|j: int|
            0 <= j < deps_of(m, u).len() && (#[trigger] deps_of(m, u)[j]) is Package
                && !placedv.contains(deps_of(m, u)[j].pkg_id());
        let v = deps_of(m, u)[j].pkg_id();
        assert(dep_edge(m, u, v)) by {
            assert(crate::manifest::has_pkg_dep(deps_of(m, u), v));
        }
        assert(m.contains_key(v)) by {
            assert(targets_registered(m, u));
        }
        let rest = lemma_blocked_walk(m, placedv, v, len - 1);
        let p = seq![u] + rest;
        assert forall|i: int| 0 <= i < p.len() - 1 implies dep_edge(m, #[trigger] p[i], p[i + 1]) by {
            if i == 0 {
                assert(p[0] == u && p[1] == rest[0] && rest[0] == v);
            } else {
                assert(p[i] == rest[i - 1]);
                assert(p[i + 1] == rest[i]);
                assert(dep_edge(m, rest[i - 1], rest[i]));
            }
        }
        assert(crate::reach::is_path(m, p));
        assert(p[0] == u);
        p
    }
}

/// When unplaced identifiers remain, none of them is placeable, and all
/// their dependencies are registered, a cycle is reachable from each of
/// them: following blocked dependencies for longer than there are
/// identifiers must revisit one.
proof fn lemma_stuck(m: RegMap, placedv: Seq<Seq<char>>, u: Seq<char>)
    requires
        m.dom().finite(),
        m.contains_key(u),
        !placedv.contains(u),
        forall|k: Seq<char>|
            m.contains_key(k) && !placedv.contains(k) ==> !(#[trigger] ready(m, k, placedv)),
        forall|k: Seq<char>|
            m.contains_key(k) && !placedv.contains(k) ==> #[trigger] targets_registered(m, k),
    ensures
        crate::reach::reaches_cycle(m, u),
        crate::reach::has_cycle(m),
{
    {
        let n = m.dom().len() as int;
        let p = lemma_blocked_walk(m, placedv, u, n + 1);
        assert(!p.no_duplicates()) by {
            if p.no_duplicates() {
                lemma_distinct_len_le_dom(p, m.dom());
            }
        }
        let (a0, b0) = choose|a0: int, b0: int|
            0 <= a0 < p.len() && 0 <= b0 < p.len() && a0 != b0 && p[a0] == p[b0];
        let a = if a0 < b0 { a0 } else { b0 };
        let b = if a0 < b0 { b0 } else { a0 };
        let c = p.subrange(a, b + 1);
        assert forall|i: int| 0 <= i < c.len() - 1 implies dep_edge(m, #[trigger] c[i], c[i + 1]) by {
            assert(c[i] == p[a + i]);
            assert(c[i + 1] == p[a + i + 1]);
            assert(dep_edge(m, p[a + i], p[a + i + 1]));
        }
        assert(c[0] == p[a] && c.last() == p[b]);
        assert(c.len() >= 2);
        assert(crate::reach::is_cycle(m, c));
        // the cycle is reachable from `u` along the walk's prefix
        let q = p.subrange(0, a + 1);
        assert forall|i: int| 0 <= i < q.len() - 1 implies dep_edge(m, #[trigger] q[i], q[i + 1]) by {
            assert(q[i] == p[i]);
            assert(q[i + 1] == p[i + 1]);
            assert(dep_edge(m, p[i], p[i + 1]));
        }
        assert(crate::reach::is_path(m, q) && q[0] == u && q.last() == c[0]);
        assert(crate::reach::reaches(m, u, c[0]));
    }
}

/// In a linearization of a graph without dangling edges, every listed
/// identifier is placeable at its own position.
proof fn lemma_linearization_ready(m: RegMap, ordv: Seq<Seq<char>>, i: int)
    requires
        crate::reach::linearizes(m, ordv),
        !crate::reach::has_dangling_edge(m),
        0 <= i < ordv.len(),
    ensures
        ready(m, ordv[i], ordv.take(i)),
{
    assert forall|j: int|
        0 <= j < deps_of(m, ordv[i]).len() && (#[trigger] deps_of(m, ordv[i])[j]) is Package
        implies ordv.take(i).contains(deps_of(m, ordv[i])[j].pkg_id()) by {
        let t = deps_of(m, ordv[i])[j].pkg_id();
        assert(dep_edge(m, ordv[i], t)) by {
            assert(crate::manifest::has_pkg_dep(deps_of(m, ordv[i]), t));
        }
        assert(m.contains_key(t));
        assert(ordv.contains(t));
        let jt = choose|jt: int| 0 <= jt < ordv.len() && ordv[jt] == t;
        assert(dep_edge(m, ordv[i], ordv[jt]));
        assert(jt < i);
        assert(ordv.take(i)[jt] == t);
    }
}

/// Two canonical linearizations agree on every prefix: at each position,
/// each one's entry is placeable in the other, and minimality on both
/// sides makes them equal.
proof fn lemma_canonical_prefix(m: RegMap, o1: Seq<Seq<char>>, o2: Seq<Seq<char>>, i: int)
    requires
        !crate::reach::has_dangling_edge(m),
        canonical(m, o1),
        canonical(m, o2),
        0 <= i <= o1.len(),
        i <= o2.len(),
    ensures
        o1.take(i) =~= o2.take(i),
    decreases i,
{
    if i > 0 {
        lemma_canonical_prefix(m, o1, o2, i - 1);
        lemma_linearization_ready(m, o1, i - 1);
        lemma_linearization_ready(m, o2, i - 1);
        let a = o1[i - 1];
        let b = o2[i - 1];
        assert(o2.take(i - 1) =~= o1.take(i - 1));
        assert(o2.take(i - 1) == o1.take(i - 1));
        assert(!o1.take(i - 1).contains(a)) by {
            if o1.take(i - 1).contains(a) {
                let l = choose|l: int| 0 <= l < i - 1 && #[trigger] o1.take(i - 1)[l] == a;
                assert(o1[l] == o1[i - 1]);
            }
        }
        assert(!o2.take(i - 1).contains(b)) by {
            if o2.take(i - 1).contains(b) {
                let l = choose|l: int| 0 <= l < i - 1 && #[trigger] o2.take(i - 1)[l] == b;
                assert(o2[l] == o2[i - 1]);
            }
        }
        assert(canonical_at(m, o2, i - 1));
        assert(ready(m, a, o2.take(i - 1)));
        assert(crate::text::lex_le(b, a));
        assert(canonical_at(m, o1, i - 1));
        assert(ready(m, b, o1.take(i - 1)));
        assert(crate::text::lex_le(a, b));
        crate::text::lemma_lex_le_antisymmetric(a, b);
        assert(a == b);
        assert forall|l: int| 0 <= l < i implies o1.take(i)[l] == o2.take(i)[l] by {
            if l < i - 1 {
                assert(o1.take(i - 1)[l] == o2.take(i - 1)[l]);
            }
        }
    }
}

/// The canonical linearization is unique: any two orderings that both
/// linearize the graph canonically are the same sequence. Together with
/// the topological ordering's contract this makes the returned order
/// deterministic: equal registries admit exactly one canonical ordering.
pub proof fn lemma_canonical_unique(m: RegMap, o1: Seq<Seq<char>>, o2: Seq<Seq<char>>)
    requires
        m.dom().finite(),
        !crate::reach::has_dangling_edge(m),
        canonical(m, o1),
        canonical(m, o2),
    ensures
        o1 == o2,
{
    lemma_complete_len(o1, m.dom());
    lemma_complete_len(o2, m.dom());
    lemma_canonical_prefix(m, o1, o2, o1.len() as int);
    assert(o1.take(o1.len() as int) =~= o1);
    assert(o2.take(o2.len() as int) =~= o2);
    assert(o1 =~= o2);
}

/// The structural invariant of the closure search: every discovered
/// identifier is registered and reachable from the root, the worklist
/// holds discovered identifiers, and every collected dependency belongs to
/// the root's closure; no list repeats itself.
pub open spec fn bfs_inv(
    m: RegMap,
    root: Seq<char>,
    resv: Seq<DepView>,
    discv: Seq<Seq<char>>,
    workv: Seq<Seq<char>>,
) -> bool {
    &&& m.contains_key(root)
    &&& discv.no_duplicates()
    &&& discv.contains(root)
    &&& forall|i: int| 0 <= i < discv.len() ==> m.contains_key(#[trigger] discv[i])
    &&& forall|i: int| 0 <= i < discv.len() ==> reaches(m, root, #[trigger] discv[i])
    &&& workv.no_duplicates()
    &&& forall|i: int| 0 <= i < workv.len() ==> discv.contains(#[trigger] workv[i])
    &&& resv.no_duplicates()
    &&& forall|i: int| 0 <= i < resv.len() ==> in_closure(m, root, #[trigger] resv[i])
}

/// What holds of an identifier whose dependencies the search has fully
/// scanned: each is collected, and each package-typed one points away from
/// the root, at a registered, discovered target.
pub open spec fn expanded_ok(
    m: RegMap,
    x: Seq<char>,
    resv: Seq<DepView>,
    discv: Seq<Seq<char>>,
    root: Seq<char>,
) -> bool {
    forall|k: int|
        0 <= k < deps_of(m, x).len() ==> {
            let d = #[trigger] deps_of(m, x)[k];
            &&& resv.contains(d)
            &&& (d is Package ==> d.pkg_id() != root && m.contains_key(d.pkg_id())
                && discv.contains(d.pkg_id()))
        }
}

/// Whether every discovered identifier off the worklist has been scanned.
pub open spec fn all_expanded(
    m: RegMap,
    resv: Seq<DepView>,
    discv: Seq<Seq<char>>,
    workv: Seq<Seq<char>>,
    root: Seq<char>,
) -> bool {
    forall|i: int|
        0 <= i < discv.len() && !workv.contains(#[trigger] discv[i]) ==> expanded_ok(
            m,
            discv[i],
            resv,
            discv,
            root,
        )
}

/// Scanning is preserved when the collected and discovered lists grow.
pub proof fn lemma_expanded_monotone(
    m: RegMap,
    x: Seq<char>,
    resv1: Seq<DepView>,
    resv2: Seq<DepView>,
    discv1: Seq<Seq<char>>,
    discv2: Seq<Seq<char>>,
    root: Seq<char>,
)
    requires
        expanded_ok(m, x, resv1, discv1, root),
        resv1.is_prefix_of(resv2),
        discv1.is_prefix_of(discv2),
    ensures
        expanded_ok(m, x, resv2, discv2, root),
{
    assert forall|k: int| 0 <= k < deps_of(m, x).len() implies {
        let d = #[trigger] deps_of(m, x)[k];
        &&& resv2.contains(d)
        &&& (d is Package ==> d.pkg_id() != root && m.contains_key(d.pkg_id())
            && discv2.contains(d.pkg_id()))
    } by {
        let d = deps_of(m, x)[k];
        let i = choose|i: int| 0 <= i < resv1.len() && resv1[i] == d;
        assert(resv2[i] == d);
        if d is Package {
            let j = choose|j: int| 0 <= j < discv1.len() && discv1[j] == d.pkg_id();
            assert(discv2[j] == d.pkg_id());
        }
    }
}

/// What a successful orphan deletion leaves behind: the removed packages
/// are exactly the orphans of `m` for `root`, each handed back with the
/// value it was registered under, and the new registry value is `m`
/// without the orphan keys.
pub open spec fn delete_outcome(
    m: RegMap,
    root: Seq<char>,
    removed: Seq<PackageView>,
    newm: RegMap,
) -> bool {
    &&& closure_ok(m, root)
    &&& forall|i: int|
        0 <= i < removed.len() ==> crate::reach::is_orphan(m, root, (#[trigger] removed[i]).id())
            && removed[i] == m[removed[i].id()]
    &&& forall|k: Seq<char>|
        crate::reach::is_orphan(m, root, k) ==> exists|i: int|
            0 <= i < removed.len() && (#[trigger] removed[i]).id() == k
    &&& newm == m.remove_keys(crate::reach::orphan_keys(m, root))
}

impl Registry {
    /// Scans the direct dependencies of the discovered identifier `x`:
    /// collects each into `result`, and queues each package-typed target
    /// that has not been seen. Fails when a dependency points back at the
    /// root or at an unregistered package.
    fn scan_deps(
        &self,
        x: &Id,
        root: &Id,
        result: &mut Vec<Dependency>,
        disc: &mut Vec<Id>,
        work: &mut Vec<Id>,
    ) -> (r: Result<(), Error>)
        requires
            self.wf(),
            self@.contains_key(x@),
            bfs_inv(self@, root@, dep_views(old(result)@), id_texts(old(disc)@), id_texts(old(work)@)),
            id_texts(old(disc)@).contains(x@),
        ensures
            bfs_inv(
                self@,
                root@,
                dep_views(final(result)@),
                id_texts(final(disc)@),
                id_texts(final(work)@),
            ),
            dep_views(old(result)@).is_prefix_of(dep_views(final(result)@)),
            id_texts(old(disc)@).is_prefix_of(id_texts(final(disc)@)),
            id_texts(old(work)@).is_prefix_of(id_texts(final(work)@)),
            final(disc)@.len() - old(disc)@.len() == final(work)@.len() - old(work)@.len(),
            forall|i: int|
                old(disc)@.len() <= i < final(disc)@.len() ==> id_texts(final(work)@).contains(
                    #[trigger] id_texts(final(disc)@)[i],
                ),
            match r {
                Ok(()) => expanded_ok(
                    self@,
                    x@,
                    dep_views(final(result)@),
                    id_texts(final(disc)@),
                    root@,
                ),
                Err(e) => !closure_ok(self@, root@) && closure_error(self@, root@, e),
            },
    {
        let ghost m = self@;
        proof {
            self.lemma_wf_facts();
        }
        let pkg = match self.get(x) {
            Some(p) => p,
            None => {
                proof {
                    assert(false);
                }
                vstd::pervasive::unreached()
            },
        };
        let deps = pkg.manifest().iter_direct_dependencies();
        let ghost dseq = deps_of(m, x@);
        proof {
            assert(dep_views(deps@) == dseq);
        }
        let n = deps.len();
        let mut k: usize = 0;
        while k < n
            invariant
                k <= n,
                n == dseq.len(),
                dep_views(deps@) == dseq,
                bfs_inv(m, root@, dep_views(result@), id_texts(disc@), id_texts(work@)),
                dep_views(old(result)@).is_prefix_of(dep_views(result@)),
                id_texts(old(disc)@).is_prefix_of(id_texts(disc@)),
                id_texts(old(work)@).is_prefix_of(id_texts(work@)),
                disc@.len() - old(disc)@.len() == work@.len() - old(work)@.len(),
                forall|i: int|
                    old(disc)@.len() <= i < disc@.len() ==> id_texts(work@).contains(
                        #[trigger] id_texts(disc@)[i],
                    ),
                forall|kk: int|
                    0 <= kk < k ==> {
                        let d = #[trigger] dseq[kk];
                        &&& dep_views(result@).contains(d)
                        &&& (d is Package ==> d.pkg_id() != root@ && m.contains_key(d.pkg_id())
                            && id_texts(disc@).contains(d.pkg_id()))
                    },
            decreases n - k,
        {
            let ghost disc_at_start = id_texts(disc@);
            let ghost work_at_start = id_texts(work@);
            let ghost res_at_start = dep_views(result@);
            let d = &deps[k];
            proof {
                assert(d@ == dseq[k as int]);
                assert(dseq.contains(d@));
                assert(in_closure(m, root@, d@)) by {
                    assert(reaches(m, root@, x@));
                }
            }
            match d {
                Dependency::Package { id: t, version: _ } => {
                    proof {
                        assert(dseq[k as int] is Package && dseq[k as int].pkg_id() == t@);
                    }
                    if t.eq(root) {
                        proof {
                            assert(self_reach(m, root@)) by {
                                assert(reaches(m, root@, x@));
                                assert(crate::manifest::has_pkg_dep(deps_of(m, x@), root@)) by {
                                    assert(dseq[k as int] is Package && dseq[k as int].pkg_id()
                                        == root@);
                                }
                            }
                        }
                        return Err(Error::CircularDependency { id: t.clone() });
                    }
                    if !self.has(t) {
                        proof {
                            assert(has_dangling(m, root@));
                        }
                        return Err(Error::NotFound { id: t.clone() });
                    }
                    if !contains_id(disc, t) {
                        let ghost discv0 = id_texts(disc@);
                        let ghost workv0 = id_texts(work@);
                        disc.push(t.clone());
                        work.push(t.clone());
                        proof {
                            assert(id_texts(disc@) =~= discv0.push(t@));
                            assert(id_texts(work@) =~= workv0.push(t@));
                            assert(id_texts(disc@)[discv0.len() as int] == t@);
                            assert(id_texts(work@)[workv0.len() as int] == t@);
                            assert(dep_edge(m, x@, t@)) by {
                                assert(dseq[k as int] is Package && dseq[k as int].pkg_id() == t@);
                            }
                            lemma_reaches_step(m, root@, x@, t@);
                            assert forall|i: int| 0 <= i < workv0.len() implies workv0[i]
                                != t@ by {
                                assert(discv0.contains(workv0[i]));
                            }
                        }
                    }
                },
                Dependency::Decomp { rev: _ } => {},
            }
            if !contains_dep(result, d) {
                let ghost resv0 = dep_views(result@);
                result.push(d.clone());
                proof {
                    assert(dep_views(result@) =~= resv0.push(d@));
                    assert(dep_views(result@)[resv0.len() as int] == d@);
                }
            }
            proof {
                let resv = dep_views(result@);
                let discv = id_texts(disc@);
                let workv = id_texts(work@);
                assert(res_at_start.is_prefix_of(resv));
                assert(disc_at_start.is_prefix_of(discv));
                assert(work_at_start.is_prefix_of(workv));
                assert forall|i: int|
                    old(disc)@.len() <= i < disc@.len() implies workv.contains(
                    #[trigger] discv[i],
                ) by {
                    if i < disc_at_start.len() {
                        let j = choose|j: int|
                            0 <= j < work_at_start.len() && work_at_start[j] == disc_at_start[i];
                        assert(workv[j] == discv[i]);
                    } else {
                        assert(workv[workv.len() - 1] == discv[i]);
                    }
                }
                assert(resv.contains(dseq[k as int]));
                if dseq[k as int] is Package {
                    assert(discv.contains(dseq[k as int].pkg_id()));
                }
                assert forall|kk: int| 0 <= kk < k + 1 implies {
                    let dd = #[trigger] dseq[kk];
                    &&& resv.contains(dd)
                    &&& (dd is Package ==> dd.pkg_id() != root@ && m.contains_key(dd.pkg_id())
                        && discv.contains(dd.pkg_id()))
                } by {
                    let dd = dseq[kk];
                    if kk < k {
                        let i = choose|i: int| 0 <= i < res_at_start.len() && res_at_start[i] == dd;
                        assert(resv[i] == dd);
                        if dd is Package {
                            let j = choose|j: int|
                                0 <= j < disc_at_start.len() && disc_at_start[j] == dd.pkg_id();
                            assert(discv[j] == dd.pkg_id());
                        }
                    }
                }
            }
            k = k + 1;
        }
        Ok(())
    }

    /// Whether every package dependency of the registered `id` is already
    /// placed. The whole dependency list is scanned; one that points at an
    /// unregistered package fails instead, naming it: the graph has a
    /// dangling edge.
    fn deps_ready(&self, id: &Id, placed: &Vec<Id>) -> (r: Result<bool, Error>)
        requires
            self.wf(),
            self@.contains_key(id@),
        ensures
            match r {
                Ok(b) => {
                    &&& b == ready(self@, id@, id_texts(placed@))
                    &&& targets_registered(self@, id@)
                },
                Err(e) => e matches Error::NotFound { id: x } && crate::reach::edge_dangles_on(
                    self@,
                    x@,
                ),
            },
    {
        let ghost m = self@;
        let pkg = match self.get(id) {
            Some(p) => p,
            None => {
                proof {
                    assert(false);
                }
                vstd::pervasive::unreached()
            },
        };
        let deps = pkg.manifest().iter_direct_dependencies();
        let ghost dseq = deps_of(m, id@);
        proof {
            assert(dep_views(deps@) == dseq);
        }
        let n = deps.len();
        let mut all_placed = true;
        let mut j: usize = 0;
        while j < n
            invariant
                j <= n,
                n == dseq.len(),
                dep_views(deps@) == dseq,
                forall|l: int|
                    0 <= l < j && (#[trigger] dseq[l]) is Package ==> m.contains_key(
                        dseq[l].pkg_id(),
                    ),
                all_placed ==> forall|l: int|
                    0 <= l < j && (#[trigger] dseq[l]) is Package ==> id_texts(placed@).contains(
                        dseq[l].pkg_id(),
                    ),
                !all_placed ==> exists|l: int|
                    0 <= l < j && (#[trigger] dseq[l]) is Package && !id_texts(placed@).contains(
                        dseq[l].pkg_id(),
                    ),
            decreases n - j,
        {
            match &deps[j] {
                Dependency::Package { id: t, version: _ } => {
                    proof {
                        assert(dseq[j as int] is Package && dseq[j as int].pkg_id() == t@);
                    }
                    if !self.has(t) {
                        proof {
                            assert(dep_edge(m, id@, t@)) by {
                                assert(crate::manifest::has_pkg_dep(dseq, t@));
                            }
                        }
                        return Err(Error::NotFound { id: t.clone() });
                    }
                    if !contains_id(placed, t) {
                        all_placed = false;
                        proof {
                            assert(dseq[j as int] is Package && !id_texts(placed@).contains(
                                dseq[j as int].pkg_id(),
                            ));
                        }
                    }
                },
                Dependency::Decomp { rev: _ } => {},
            }
            j = j + 1;
        }
        Ok(all_placed)
    }

    /// The position of the first identifier in `ids` that is unplaced and
    /// placeable: not yet in `placed`, with every package dependency in
    /// `placed`. Fails when a scanned dependency dangles.
    fn find_ready(&self, ids: &Vec<Id>, placed: &Vec<Id>) -> (r: Result<Option<usize>, Error>)
        requires
            self.wf(),
            forall|i: int| 0 <= i < ids@.len() ==> self@.contains_key(#[trigger] id_texts(ids@)[i]),
        ensures
            match r {
                Ok(found) => match found {
                    Some(j) => {
                        &&& j < ids@.len()
                        &&& !id_texts(placed@).contains(id_texts(ids@)[j as int])
                        &&& ready(self@, id_texts(ids@)[j as int], id_texts(placed@))
                        &&& targets_registered(self@, id_texts(ids@)[j as int])
                        &&& forall|l: int|
                            0 <= l < j ==> id_texts(placed@).contains(#[trigger] id_texts(ids@)[l])
                                || !ready(self@, id_texts(ids@)[l], id_texts(placed@))
                    },
                    None => forall|l: int|
                        0 <= l < ids@.len() ==> id_texts(placed@).contains(
                            #[trigger] id_texts(ids@)[l],
                        ) || (!ready(self@, id_texts(ids@)[l], id_texts(placed@))
                            && targets_registered(self@, id_texts(ids@)[l])),
                },
                Err(e) => e matches Error::NotFound { id: x } && crate::reach::edge_dangles_on(
                    self@,
                    x@,
                ),
            },
    {
        let n = ids.len();
        let mut j: usize = 0;
        while j < n
            invariant
                j <= n,
                n == ids@.len(),
                forall|l: int|
                    0 <= l < j ==> id_texts(placed@).contains(#[trigger] id_texts(ids@)[l])
                        || (!ready(self@, id_texts(ids@)[l], id_texts(placed@))
                            && targets_registered(self@, id_texts(ids@)[l])),
            decreases n - j,
        {
            proof {
                assert(id_texts(ids@)[j as int] == ids@[j as int]@);
            }
            if !contains_id(placed, &ids[j]) {
                let is_ready = self.deps_ready(&ids[j], placed)?;
                if is_ready {
                    return Ok(Some(j));
                }
            }
            j = j + 1;
        }
        Ok(None)
    }

    /// Returns a topological ordering of the packages in the registry: a
    /// list of all registered identifiers in which every dependency
    /// appears before its dependents. The ordering is canonical — at each
    /// position it takes the least identifier whose dependencies are
    /// already listed — so equal registries yield exactly one and the same
    /// ordering (`lemma_canonical_unique`). Fails exactly when the graph
    /// has a dependency cycle or an edge to an unregistered package.
    pub fn topological_ordering(&self) -> (r: Result<Vec<Id>, Error>)
        requires
            self.wf(),
        ensures
            match r {
                Ok(ord) => {
                    &&& crate::reach::linearizes(self@, id_texts(ord@))
                    &&& canonical(self@, id_texts(ord@))
                    &&& !crate::reach::has_dangling_edge(self@)
                },
                Err(e) => {
                    &&& crate::reach::has_cycle(self@) || crate::reach::has_dangling_edge(self@)
                    &&& match e {
                        Error::NotFound { id: x } => crate::reach::edge_dangles_on(self@, x@),
                        Error::CircularDependency { id: x } => self@.contains_key(x@)
                            && crate::reach::reaches_cycle(self@, x@),
                        _ => false,
                    }
                },
            },
    {
        let ghost m = self@;
        proof {
            self.lemma_wf_facts();
        }
        let unsorted = self.package_ids();
        let ghost unsortedv = unsorted@;
        let ids = crate::text::sort_ids(unsorted);
        proof {
            assert(ids@.to_multiset().len() == unsortedv.to_multiset().len());
            assert(ids@.len() == unsortedv.len());
            assert forall|i: int| 0 <= i < ids@.len() implies m.contains_key(
                #[trigger] id_texts(ids@)[i],
            ) by {
                assert(ids@.to_multiset().contains(ids@[i]));
                assert(unsortedv.contains(ids@[i]));
                let j = choose|j: int| 0 <= j < unsortedv.len() && unsortedv[j] == ids@[i];
                assert(id_texts(unsortedv)[j] == ids@[i]@);
            }
            assert forall|k: Seq<char>| #[trigger] m.contains_key(k) implies id_texts(
                ids@,
            ).contains(k) by {
                let j = choose|j: int| 0 <= j < unsortedv.len() && id_texts(unsortedv)[j] == k;
                assert(unsortedv.to_multiset().contains(unsortedv[j]));
                assert(ids@.contains(unsortedv[j]));
                let i = choose|i: int| 0 <= i < ids@.len() && ids@[i] == unsortedv[j];
                assert(id_texts(ids@)[i] == k);
            }
            // the sorted identifier texts are still duplicate-free
            assert(id_texts(ids@).to_set() =~= m.dom()) by {
                assert forall|k: Seq<char>| id_texts(ids@).to_set().contains(k) implies m.dom().contains(
                    k,
                ) by {
                    let i = choose|i: int| 0 <= i < ids@.len() && id_texts(ids@)[i] == k;
                }
            }
            id_texts(ids@).lemma_cardinality_of_set();
            assert(id_texts(ids@).to_set().len() == m.dom().len());
            assert(id_texts(ids@).len() == m.dom().len());
            id_texts(ids@).lemma_no_dup_set_cardinality();
        }
        let n = ids.len();
        let mut placed: Vec<Id> = Vec::new();
        let mut i: usize = 0;
        proof {
            assert(id_texts(placed@) =~= Seq::<Seq<char>>::empty());
        }
        while i < n
            invariant
                i <= n,
                n == ids@.len(),
                n == m.dom().len(),
                placed@.len() == i,
                id_texts(placed@).no_duplicates(),
                forall|l: int| 0 <= l < i ==> m.contains_key(#[trigger] id_texts(placed@)[l]),
                forall|l: int|
                    0 <= l < i ==> #[trigger] ready(
                        m,
                        id_texts(placed@)[l],
                        id_texts(placed@).take(l),
                    ),
                forall|l: int|
                    0 <= l < i ==> targets_registered(m, #[trigger] id_texts(placed@)[l]),
                forall|l: int| 0 <= l < i ==> #[trigger] canonical_at(m, id_texts(placed@), l),
            decreases n - i,
        {
            let ghost oldtexts = id_texts(placed@);
            let found = match self.find_ready(&ids, &placed) {
                Ok(found) => found,
                Err(e) => {
                    return Err(e);
                },
            };
            match found {
                Some(j) => {
                    placed.push(ids[j].clone());
                    proof {
                        let newtexts = id_texts(placed@);
                        let x = ids@[j as int]@;
                        assert(newtexts =~= oldtexts.push(x));
                        assert(newtexts[i as int] == x);
                        assert(id_texts(ids@)[j as int] == x);
                        assert forall|l: int| 0 <= l <= i implies newtexts.take(l)
                            =~= oldtexts.take(l) by {}
                        assert forall|l: int| 0 <= l < i + 1 implies m.contains_key(
                            #[trigger] newtexts[l],
                        ) by {
                            if l < i {
                                assert(newtexts[l] == oldtexts[l]);
                            }
                        }
                        assert forall|l: int| 0 <= l < i + 1 implies #[trigger] ready(
                            m,
                            newtexts[l],
                            newtexts.take(l),
                        ) by {
                            assert(newtexts.take(l) =~= oldtexts.take(l));
                            if l < i {
                                assert(ready(m, oldtexts[l], oldtexts.take(l)));
                            } else {
                                assert(newtexts.take(i as int) =~= oldtexts);
                                assert(ready(m, x, oldtexts));
                            }
                        }
                        assert forall|l: int| 0 <= l < i + 1 implies targets_registered(
                            m,
                            #[trigger] newtexts[l],
                        ) by {
                            if l < i {
                                assert(newtexts[l] == oldtexts[l]);
                            }
                        }
                        assert forall|l: int| 0 <= l < i + 1 implies #[trigger] canonical_at(
                            m,
                            newtexts,
                            l,
                        ) by {
                            assert(newtexts.take(l) =~= oldtexts.take(l));
                            assert(newtexts.take(l) == oldtexts.take(l));
                            if l < i {
                                assert(newtexts[l] == oldtexts[l]);
                                assert(canonical_at(m, oldtexts, l));
                            } else {
                                assert(newtexts.take(i as int) == oldtexts);
                                assert forall|k: Seq<char>|
                                    m.contains_key(k) && !newtexts.take(i as int).contains(k)
                                        && #[trigger] ready(m, k, newtexts.take(i as int))
                                    implies crate::text::lex_le(newtexts[i as int], k) by {
                                    let l2 = choose|l2: int|
                                        0 <= l2 < ids@.len() && #[trigger] id_texts(ids@)[l2] == k;
                                    if l2 < j {
                                        assert(oldtexts.contains(k) || !ready(m, k, oldtexts));
                                    } else if l2 == j {
                                        crate::text::lemma_lex_le_refl(x);
                                    } else {
                                        assert(crate::text::lex_le(ids@[j as int]@, ids@[l2]@));
                                    }
                                }
                            }
                        }
                        // the new identifier was not placed before
                        assert forall|l1: int, l2: int| 0 <= l1 < l2 < newtexts.len() implies (
                        #[trigger] newtexts[l1]) != (#[trigger] newtexts[l2]) by {
                            if l2 == newtexts.len() - 1 {
                                assert(newtexts[l1] == oldtexts[l1]);
                                assert(oldtexts.contains(oldtexts[l1]));
                            } else {
                                assert(newtexts[l1] == oldtexts[l1]);
                                assert(newtexts[l2] == oldtexts[l2]);
                            }
                        }
                    }
                    i = i + 1;
                },
                None => {
                    // identifiers remain, but none is placeable: find one
                    // still unplaced to name, and conclude a cycle or a
                    // dangling edge
                    let mut u: usize = 0;
                    while u < n
                        invariant
                            u <= n,
                            forall|l: int|
                                0 <= l < u ==> id_texts(placed@).contains(
                                    #[trigger] id_texts(ids@)[l],
                                ),
                        decreases n - u,
                    {
                        proof {
                            assert(id_texts(ids@)[u as int] == ids@[u as int]@);
                        }
                        if !contains_id(&placed, &ids[u]) {
                            proof {
                                assert forall|k: Seq<char>|
                                    m.contains_key(k) && !id_texts(placed@).contains(k)
                                    implies !(#[trigger] ready(m, k, id_texts(placed@))) by {
                                    let l2 = choose|l2: int|
                                        0 <= l2 < ids@.len() && #[trigger] id_texts(ids@)[l2] == k;
                                }
                                assert forall|k: Seq<char>|
                                    m.contains_key(k) && !id_texts(placed@).contains(k)
                                    implies #[trigger] targets_registered(m, k) by {
                                    let l2 = choose|l2: int|
                                        0 <= l2 < ids@.len() && #[trigger] id_texts(ids@)[l2] == k;
                                }
                                lemma_stuck(m, id_texts(placed@), ids@[u as int]@);
                            }
                            return Err(Error::CircularDependency { id: ids[u].clone() });
                        }
                        u = u + 1;
                    }
                    proof {
                        // impossible: every identifier is placed, yet fewer
                        // were placed than exist
                        assert forall|k: Seq<char>| m.dom().contains(k) implies id_texts(
                            placed@,
                        ).to_set().contains(k) by {
                            let l2 = choose|l2: int|
                                0 <= l2 < ids@.len() && #[trigger] id_texts(ids@)[l2] == k;
                            assert(id_texts(placed@).contains(k));
                        }
                        vstd::set_lib::lemma_len_subset(m.dom(), id_texts(placed@).to_set());
                        id_texts(placed@).lemma_cardinality_of_set();
                        assert(false);
                    }
                    return vstd::pervasive::unreached();
                },
            }
        }
        proof {
            let ordv = id_texts(placed@);
            // every registered identifier is listed
            assert forall|k: Seq<char>| #[trigger] m.contains_key(k) implies ordv.contains(k) by {
                if !ordv.contains(k) {
                    assert forall|x: Seq<char>| ordv.to_set().contains(x) implies m.dom().remove(
                        k,
                    ).contains(x) by {
                        let l = choose|l: int| 0 <= l < ordv.len() && ordv[l] == x;
                    }
                    vstd::set_lib::lemma_len_subset(ordv.to_set(), m.dom().remove(k));
                    vstd::set::axiom_set_remove_len(m.dom(), k);
                    ordv.unique_seq_to_set();
                }
            }
            // dependencies come before their dependents
            assert forall|i1: int, j1: int|
                0 <= i1 < ordv.len() && 0 <= j1 < ordv.len() && dep_edge(
                    m,
                    #[trigger] ordv[i1],
                    #[trigger] ordv[j1],
                ) implies j1 < i1 by {
                assert(ready(m, ordv[i1], ordv.take(i1)));
                let kk = choose|kk: int|
                    0 <= kk < deps_of(m, ordv[i1]).len() && (#[trigger] deps_of(
                        m,
                        ordv[i1],
                    )[kk]) is Package && deps_of(m, ordv[i1])[kk].pkg_id() == ordv[j1];
                assert(ordv.take(i1).contains(ordv[j1]));
                let jt = choose|jt: int| 0 <= jt < i1 && ordv.take(i1)[jt] == ordv[j1];
                if jt != j1 {
                    assert(ordv[jt] == ordv[j1]);
                }
            }
            // no edge dangles: every listed identifier was scanned in full
            assert(!crate::reach::has_dangling_edge(m)) by {
                if crate::reach::has_dangling_edge(m) {
                    let (du, dv) = choose|du: Seq<char>, dv: Seq<char>|
                        #[trigger] dep_edge(m, du, dv) && !m.contains_key(dv);
                    assert(ordv.contains(du));
                    let l = choose|l: int| 0 <= l < ordv.len() && ordv[l] == du;
                    assert(targets_registered(m, ordv[l]));
                    let kk = choose|kk: int|
                        0 <= kk < deps_of(m, du).len() && (#[trigger] deps_of(
                            m,
                            du,
                        )[kk]) is Package && deps_of(m, du)[kk].pkg_id() == dv;
                    assert(m.contains_key(deps_of(m, ordv[l])[kk].pkg_id()));
                }
            }
        }
        Ok(placed)
    }

    /// All dependencies of a package, both direct and transitive: every
    /// dependency declared by a package reachable from `id` along
    /// package-typed edges. Base-tree pins are collected but not followed.
    ///
    /// Succeeds exactly when `id` is registered, no reachable package
    /// depends back on `id`, and every package the closure mentions is
    /// registered; the collected list holds each closure member once.
    pub fn get_dependencies(&self, id: &Id) -> (r: Result<Vec<Dependency>, Error>)
        requires
            self.wf(),
        ensures
            match r {
                Ok(deps) => {
                    &&& closure_ok(self@, id@)
                    &&& dep_views(deps@).no_duplicates()
                    &&& forall|d: DepView|
                        #[trigger] dep_views(deps@).contains(d) <==> in_closure(self@, id@, d)
                },
                Err(e) => !closure_ok(self@, id@) && closure_error(self@, id@, e),
            },
    {
        let ghost m = self@;
        let ghost root = id@;
        proof {
            self.lemma_wf_facts();
        }
        if !self.has(id) {
            return Err(Error::NotFound { id: id.clone() });
        }
        let mut result: Vec<Dependency> = Vec::new();
        let mut disc: Vec<Id> = Vec::new();
        let mut work: Vec<Id> = Vec::new();
        disc.push(id.clone());
        work.push(id.clone());
        proof {
            assert(id_texts(disc@) =~= seq![root]);
            assert(id_texts(work@) =~= seq![root]);
            assert(dep_views(result@) =~= Seq::<DepView>::empty());
            lemma_reaches_refl(m, root);
            assert(id_texts(disc@)[0] == root);
        }
        while work.len() > 0
            invariant
                bfs_inv(m, root, dep_views(result@), id_texts(disc@), id_texts(work@)),
                all_expanded(m, dep_views(result@), id_texts(disc@), id_texts(work@), root),
                id_texts(disc@).len() <= m.dom().len(),
            decreases 2 * (m.dom().len() - id_texts(disc@).len()) + id_texts(work@).len(),
        {
            let ghost work_before = id_texts(work@);
            let ghost disc_before = id_texts(disc@);
            let ghost res_before = dep_views(result@);
            let x = match work.pop() {
                Some(x) => x,
                None => {
                    proof {
                        assert(false);
                    }
                    vstd::pervasive::unreached()
                },
            };
            proof {
                assert(id_texts(work@) =~= work_before.drop_last());
                assert(x@ == work_before.last());
                assert(id_texts(disc@).contains(x@));
                assert(m.contains_key(x@)) by {
                    let i = choose|i: int|
                        0 <= i < id_texts(disc@).len() && id_texts(disc@)[i] == x@;
                    assert(m.contains_key(id_texts(disc@)[i]));
                }
                // the shortened worklist still satisfies the structural
                // invariant
                assert forall|i: int|
                    0 <= i < id_texts(work@).len() implies id_texts(disc@).contains(
                    #[trigger] id_texts(work@)[i],
                ) by {
                    assert(work_before[i] == id_texts(work@)[i]);
                }
            }
            let ghost work_mid = id_texts(work@);
            let scan = self.scan_deps(&x, id, &mut result, &mut disc, &mut work);
            match scan {
                Err(e) => {
                    return Err(e);
                },
                Ok(()) => {},
            }
            proof {
                let resv = dep_views(result@);
                let discv = id_texts(disc@);
                let workv = id_texts(work@);
                lemma_distinct_len_le_dom(discv, m.dom());
                assert forall|i: int|
                    0 <= i < discv.len() && !workv.contains(#[trigger] discv[i]) implies expanded_ok(
                    m,
                    discv[i],
                    resv,
                    discv,
                    root,
                ) by {
                    let y = discv[i];
                    if i < disc_before.len() {
                        assert(disc_before[i] == y);
                        if y == x@ {
                            lemma_expanded_monotone(m, y, resv, resv, discv, discv, root);
                        } else if work_before.contains(y) {
                            // still queued: its position was not the popped
                            // last one, so it survives into the new list
                            let j = choose|j: int|
                                0 <= j < work_before.len() && work_before[j] == y;
                            if j == work_before.len() - 1 {
                                assert(y == x@);
                            } else {
                                assert(work_mid[j] == y);
                                assert(workv[j] == y);
                            }
                        } else {
                            // expanded in an earlier iteration
                            assert(expanded_ok(m, y, res_before, disc_before, root));
                            lemma_expanded_monotone(
                                m,
                                y,
                                res_before,
                                resv,
                                disc_before,
                                discv,
                                root,
                            );
                        }
                    } else {
                        // newly discovered this iteration: still queued
                        assert(workv.contains(y));
                    }
                }
            }
        }
        proof {
            let resv = dep_views(result@);
            let discv = id_texts(disc@);
            // the discovered set is closed under dependency edges
            assert forall|u: Seq<char>, v: Seq<char>|
                discv.contains(u) && #[trigger] dep_edge(m, u, v) implies discv.contains(v) by {
                let i = choose|i: int| 0 <= i < discv.len() && discv[i] == u;
                assert(expanded_ok(m, u, resv, discv, root));
                let k = choose|k: int|
                    0 <= k < deps_of(m, u).len() && #[trigger] deps_of(m, u)[k] is Package
                        && deps_of(m, u)[k].pkg_id() == v;
                assert(discv.contains(deps_of(m, u)[k].pkg_id()));
            }
            // completeness: every closure member was collected
            assert forall|d: DepView| in_closure(m, root, d) implies resv.contains(d) by {
                let x = choose|x: Seq<char>|
                    #[trigger] reaches(m, root, x) && m.contains_key(x) && deps_of(m, x).contains(
                        d,
                    );
                lemma_reachable_in_closed_set(m, root, discv, x);
                let i = choose|i: int| 0 <= i < discv.len() && discv[i] == x;
                assert(expanded_ok(m, x, resv, discv, root));
                let k = choose|k: int| 0 <= k < deps_of(m, x).len() && deps_of(m, x)[k] == d;
                assert(resv.contains(deps_of(m, x)[k]));
            }
            // no reachable package depends back on the root
            assert(!self_reach(m, root)) by {
                if self_reach(m, root) {
                    let x = choose|x: Seq<char>|
                        #[trigger] reaches(m, root, x) && m.contains_key(x)
                            && crate::manifest::has_pkg_dep(deps_of(m, x), root);
                    lemma_reachable_in_closed_set(m, root, discv, x);
                    assert(expanded_ok(m, x, resv, discv, root));
                    let k = choose|k: int|
                        0 <= k < deps_of(m, x).len() && #[trigger] deps_of(m, x)[k] is Package
                            && deps_of(m, x)[k].pkg_id() == root;
                    assert(deps_of(m, x)[k].pkg_id() != root);
                }
            }
            // every package the closure mentions is registered
            assert(!has_dangling(m, root)) by {
                if has_dangling(m, root) {
                    let d = choose|d: DepView|
                        #[trigger] in_closure(m, root, d) && d is Package && !m.contains_key(
                            d.pkg_id(),
                        );
                    let x = choose|x: Seq<char>|
                        #[trigger] reaches(m, root, x) && m.contains_key(x) && deps_of(
                            m,
                            x,
                        ).contains(d);
                    lemma_reachable_in_closed_set(m, root, discv, x);
                    assert(expanded_ok(m, x, resv, discv, root));
                    let k = choose|k: int| 0 <= k < deps_of(m, x).len() && deps_of(m, x)[k] == d;
                    assert(m.contains_key(deps_of(m, x)[k].pkg_id()));
                }
            }
        }
        Ok(result)
    }

    /// The dependency set that a package declares directly.
    pub fn get_direct_dependencies(&self, id: &Id) -> (r: Result<Vec<Dependency>, Error>)
        requires
            self.wf(),
        ensures
            match r {
                Ok(deps) => self@.contains_key(id@) && dep_views(deps@) == deps_of(self@, id@),
                Err(e) => {
                    &&& e matches Error::NotFound { id: x } && x@ == id@
                    &&& !self@.contains_key(id@)
                },
            },
    {
        let pkg = self.get_or_error(id)?;
        Ok(pkg.manifest().dependencies_cloned())
    }

    /// Returns true if a package has a dependency — transitive or direct —
    /// on another package.
    pub fn has_dependency(&self, id: &Id, dependency_id: &Id) -> (r: Result<bool, Error>)
        requires
            self.wf(),
        ensures
            match r {
                Ok(b) => closure_ok(self@, id@) && b == exists|d: DepView|
                    #[trigger] in_closure(self@, id@, d) && d is Package && d.pkg_id()
                        == dependency_id@,
                Err(e) => !closure_ok(self@, id@) && closure_error(self@, id@, e),
            },
    {
        let ghost m = self@;
        let deps = self.get_dependencies(id)?;
        let n = deps.len();
        let mut i: usize = 0;
        while i < n
            invariant
                i <= n,
                n == deps@.len(),
                forall|j: int|
                    0 <= j < i ==> !((#[trigger] dep_views(deps@)[j]) is Package && dep_views(
                        deps@,
                    )[j].pkg_id() == dependency_id@),
            decreases n - i,
        {
            let hit = match &deps[i] {
                Dependency::Package { id: t, version: _ } => t.eq(dependency_id),
                Dependency::Decomp { rev: _ } => false,
            };
            if hit {
                proof {
                    assert(dep_views(deps@)[i as int] is Package && dep_views(
                        deps@,
                    )[i as int].pkg_id() == dependency_id@);
                    assert(dep_views(deps@).contains(dep_views(deps@)[i as int]));
                    assert(in_closure(m, id@, dep_views(deps@)[i as int]));
                }
                return Ok(true);
            }
            i = i + 1;
        }
        proof {
            if exists|d: DepView|
                #[trigger] in_closure(m, id@, d) && d is Package && d.pkg_id() == dependency_id@ {
                let d = choose|d: DepView|
                    #[trigger] in_closure(m, id@, d) && d is Package && d.pkg_id()
                        == dependency_id@;
                assert(dep_views(deps@).contains(d));
                let j = choose|j: int|
                    0 <= j < dep_views(deps@).len() && dep_views(deps@)[j] == d;
            }
        }
        Ok(false)
    }

    /// Decides whether a collected dependency list holds a package
    /// dependency on `t`.
    fn deps_have_pkg_target(deps: &Vec<Dependency>, t: &Id) -> (r: bool)
        ensures
            r == exists|j: int|
                0 <= j < dep_views(deps@).len() && (#[trigger] dep_views(deps@)[j]) is Package
                    && dep_views(deps@)[j].pkg_id() == t@,
    {
        let n = deps.len();
        let mut i: usize = 0;
        while i < n
            invariant
                i <= n,
                n == deps@.len(),
                forall|j: int|
                    0 <= j < i ==> !((#[trigger] dep_views(deps@)[j]) is Package && dep_views(
                        deps@,
                    )[j].pkg_id() == t@),
            decreases n - i,
        {
            let hit = match &deps[i] {
                Dependency::Package { id: u, version: _ } => u.eq(t),
                Dependency::Decomp { rev: _ } => false,
            };
            if hit {
                proof {
                    assert(dep_views(deps@)[i as int] is Package && dep_views(
                        deps@,
                    )[i as int].pkg_id() == t@);
                }
                return true;
            }
            i = i + 1;
        }
        false
    }

    /// Returns the packages that don't appear in the dependency tree for
    /// the given root package: registered, other than the root, and not
    /// depended on by the root's closure.
    pub fn get_orphans(&self, root: &Id) -> (r: Result<Vec<Id>, Error>)
        requires
            self.wf(),
        ensures
            match r {
                Ok(v) => {
                    &&& closure_ok(self@, root@)
                    &&& id_texts(v@).no_duplicates()
                    &&& forall|i: int|
                        0 <= i < v@.len() ==> crate::reach::is_orphan(
                            self@,
                            root@,
                            #[trigger] id_texts(v@)[i],
                        )
                    &&& forall|k: Seq<char>|
                        crate::reach::is_orphan(self@, root@, k) ==> #[trigger] id_texts(
                            v@,
                        ).contains(k)
                },
                Err(e) => !closure_ok(self@, root@) && closure_error(self@, root@, e),
            },
    {
        let ghost m = self@;
        let deps = self.get_dependencies(root)?;
        let ids = self.package_ids();
        let n = ids.len();
        let mut out: Vec<Id> = Vec::new();
        let mut i: usize = 0;
        while i < n
            invariant
                i <= n,
                n == ids@.len(),
                id_texts(out@).no_duplicates(),
                forall|l: int|
                    0 <= l < out@.len() ==> exists|j: int|
                        0 <= j < i && (#[trigger] id_texts(out@)[l]) == id_texts(ids@)[j],
                forall|l: int|
                    0 <= l < out@.len() ==> crate::reach::is_orphan(
                        m,
                        root@,
                        #[trigger] id_texts(out@)[l],
                    ),
                forall|j: int|
                    0 <= j < i && crate::reach::is_orphan(m, root@, #[trigger] id_texts(ids@)[j])
                        ==> id_texts(out@).contains(id_texts(ids@)[j]),
            decreases n - i,
        {
            let ghost out_before = id_texts(out@);
            let x = &ids[i];
            proof {
                assert(id_texts(ids@)[i as int] == x@);
            }
            let is_root = x.eq(root);
            let has_target = Self::deps_have_pkg_target(&deps, x);
            if !is_root && !has_target {
                proof {
                    assert(crate::reach::is_orphan(m, root@, x@)) by {
                        if exists|d: DepView|
                            #[trigger] in_closure(m, root@, d) && d is Package && d.pkg_id()
                                == x@ {
                            let d = choose|d: DepView|
                                #[trigger] in_closure(m, root@, d) && d is Package && d.pkg_id()
                                    == x@;
                            assert(dep_views(deps@).contains(d));
                            let j = choose|j: int|
                                0 <= j < dep_views(deps@).len() && dep_views(deps@)[j] == d;
                        }
                    }
                    assert(!out_before.contains(x@)) by {
                        if out_before.contains(x@) {
                            let l = choose|l: int|
                                0 <= l < out_before.len() && out_before[l] == x@;
                            let j = choose|j: int|
                                0 <= j < i && out_before[l] == id_texts(ids@)[j];
                            assert(id_texts(ids@)[j] == id_texts(ids@)[i as int]);
                        }
                    }
                }
                out.push(x.clone());
                proof {
                    assert(id_texts(out@) =~= out_before.push(x@));
                    assert(id_texts(out@)[out_before.len() as int] == x@);
                }
            }
            proof {
                assert forall|j: int|
                    0 <= j < i + 1 && crate::reach::is_orphan(
                        m,
                        root@,
                        #[trigger] id_texts(ids@)[j],
                    ) implies id_texts(out@).contains(id_texts(ids@)[j]) by {
                    if j < i {
                        let l = choose|l: int|
                            0 <= l < out_before.len() && out_before[l] == id_texts(ids@)[j];
                        assert(id_texts(out@)[l] == id_texts(ids@)[j]);
                    } else {
                        assert(id_texts(ids@)[j] == x@);
                        assert(x@ != root@);
                        if has_target {
                            let l = choose|l: int|
                                0 <= l < dep_views(deps@).len() && (#[trigger] dep_views(
                                    deps@,
                                )[l]) is Package && dep_views(deps@)[l].pkg_id() == x@;
                            assert(dep_views(deps@).contains(dep_views(deps@)[l]));
                            assert(in_closure(m, root@, dep_views(deps@)[l]));
                        }
                        assert(!is_root && !has_target);
                        assert(id_texts(out@)[out_before.len() as int] == x@);
                    }
                }
            }
            i = i + 1;
        }
        proof {
            assert forall|k: Seq<char>| crate::reach::is_orphan(m, root@, k) implies
                #[trigger] id_texts(out@).contains(k) by {
                let j = choose|j: int| 0 <= j < ids@.len() && id_texts(ids@)[j] == k;
            }
        }
        Ok(out)
    }

    /// Calculates the patch order in order to build a given root package:
    /// the topological ordering of the whole registry, which then provably
    /// ends on the root. Fails when the root's closure cannot be computed,
    /// when orphaned packages exist, or when the graph has a cycle or a
    /// dangling edge.
    pub fn calc_dependency_patch_order(&self, root: &Id) -> (r: Result<Vec<Id>, Error>)
        requires
            self.wf(),
        ensures
            match r {
                Ok(ord) => {
                    &&& crate::reach::linearizes(self@, id_texts(ord@))
                    &&& canonical(self@, id_texts(ord@))
                    &&& !crate::reach::has_dangling_edge(self@)
                    &&& closure_ok(self@, root@)
                    &&& forall|k: Seq<char>| !crate::reach::is_orphan(self@, root@, k)
                    &&& ord@.len() > 0
                    &&& id_texts(ord@).last() == root@
                },
                Err(e) => {
                    &&& {
                        ||| !closure_ok(self@, root@)
                        ||| exists|k: Seq<char>|
                            #[trigger] crate::reach::is_orphan(self@, root@, k)
                        ||| crate::reach::has_cycle(self@)
                        ||| crate::reach::has_dangling_edge(self@)
                    }
                    &&& match e {
                        Error::OrphanedPackages => exists|k: Seq<char>|
                            #[trigger] crate::reach::is_orphan(self@, root@, k),
                        Error::NotFound { id: x } => (x@ == root@ && !self@.contains_key(root@))
                            || crate::reach::closure_dangles_on(self@, root@, x@)
                            || crate::reach::edge_dangles_on(self@, x@),
                        Error::CircularDependency { id: x } => (x@ == root@
                            && crate::reach::self_reach(self@, root@)) || (self@.contains_key(x@)
                            && crate::reach::reaches_cycle(self@, x@)),
                        _ => false,
                    }
                },
            },
    {
        let ghost m = self@;
        let orphans = self.get_orphans(root)?;
        if orphans.len() > 0 {
            proof {
                assert(crate::reach::is_orphan(m, root@, id_texts(orphans@)[0]));
            }
            return Err(Error::OrphanedPackages);
        }
        let ordering = self.topological_ordering()?;
        proof {
            let ordv = id_texts(ordering@);
            assert forall|k: Seq<char>| !crate::reach::is_orphan(m, root@, k) by {
                if crate::reach::is_orphan(m, root@, k) {
                    assert(id_texts(orphans@).contains(k));
                }
            }
            assert(m.contains_key(root@));
            assert(ordv.contains(root@));
            let ri = crate::reach::pos_of(ordv, root@);
            assert(0 <= ri < ordv.len() && ordv[ri] == root@);
            let z = ordv[ordv.len() - 1];
            if z != root@ {
                assert(m.contains_key(z));
                assert(!crate::reach::is_orphan(m, root@, z));
                let d = choose|d: DepView|
                    #[trigger] in_closure(m, root@, d) && d is Package && d.pkg_id() == z;
                let x = choose|x: Seq<char>|
                    #[trigger] reaches(m, root@, x) && m.contains_key(x) && deps_of(
                        m,
                        x,
                    ).contains(d);
                assert(dep_edge(m, x, z)) by {
                    let kk = choose|kk: int|
                        0 <= kk < deps_of(m, x).len() && deps_of(m, x)[kk] == d;
                    assert(deps_of(m, x)[kk] is Package && deps_of(m, x)[kk].pkg_id() == z);
                    assert(crate::manifest::has_pkg_dep(deps_of(m, x), z));
                }
                crate::reach::lemma_reached_strictly_before(m, ordv, root@, x, z);
                crate::reach::lemma_pos_of(ordv, ordv.len() - 1);
                assert(crate::reach::pos_of(ordv, z) == ordv.len() - 1);
                assert(ri <= ordv.len() - 1);
            }
        }
        Ok(ordering)
    }

    /// The set of all dependencies declared anywhere in any registered
    /// package's transitive closure, each listed once.
    pub fn all_dependencies(&self) -> (r: Result<Vec<Dependency>, Error>)
        requires
            self.wf(),
        ensures
            match r {
                Ok(v) => {
                    &&& forall|k: Seq<char>|
                        #[trigger] self@.contains_key(k) ==> closure_ok(self@, k)
                    &&& dep_views(v@).no_duplicates()
                    &&& forall|d: DepView|
                        #[trigger] dep_views(v@).contains(d) <==> exists|k: Seq<char>|
                            #[trigger] self@.contains_key(k) && in_closure(self@, k, d)
                },
                Err(e) => {
                    &&& exists|k: Seq<char>|
                        #[trigger] self@.contains_key(k) && !closure_ok(self@, k)
                    &&& exists|a: Seq<char>|
                        #[trigger] self@.contains_key(a) && closure_error(self@, a, e)
                },
            },
    {
        let ghost m = self@;
        let ids = self.package_ids();
        let n = ids.len();
        let mut result: Vec<Dependency> = Vec::new();
        let mut i: usize = 0;
        while i < n
            invariant
                i <= n,
                n == ids@.len(),
                dep_views(result@).no_duplicates(),
                forall|l: int|
                    0 <= l < result@.len() ==> exists|k: Seq<char>|
                        #[trigger] m.contains_key(k) && in_closure(
                            m,
                            k,
                            #[trigger] dep_views(result@)[l],
                        ),
                forall|j: int| 0 <= j < i ==> closure_ok(m, #[trigger] id_texts(ids@)[j]),
                forall|j: int, d: DepView|
                    0 <= j < i && #[trigger] in_closure(m, id_texts(ids@)[j], d) ==> dep_views(
                        result@,
                    ).contains(d),
            decreases n - i,
        {
            proof {
                assert(m.contains_key(id_texts(ids@)[i as int]));
                assert(id_texts(ids@)[i as int] == ids@[i as int]@);
            }
            let deps = match self.get_dependencies(&ids[i]) {
                Ok(deps) => deps,
                Err(e) => {
                    return Err(e);
                },
            };
            let ghost res_outer = dep_views(result@);
            let dn = deps.len();
            let mut k: usize = 0;
            while k < dn
                invariant
                    k <= dn,
                    dn == deps@.len(),
                    dep_views(result@).no_duplicates(),
                    res_outer.is_prefix_of(dep_views(result@)),
                    forall|l: int|
                        0 <= l < result@.len() ==> exists|kk: Seq<char>|
                            #[trigger] m.contains_key(kk) && in_closure(
                                m,
                                kk,
                                #[trigger] dep_views(result@)[l],
                            ),
                    forall|l: int|
                        0 <= l < k ==> dep_views(result@).contains(
                            #[trigger] dep_views(deps@)[l],
                        ),
                decreases dn - k,
            {
                let ghost res_iter = dep_views(result@);
                let d = &deps[k];
                proof {
                    assert(d@ == dep_views(deps@)[k as int]);
                    assert(dep_views(deps@).contains(d@));
                    assert(in_closure(m, ids@[i as int]@, d@));
                }
                if !contains_dep(&result, d) {
                    let ghost res0 = dep_views(result@);
                    result.push(d.clone());
                    proof {
                        assert(dep_views(result@) =~= res0.push(d@));
                        assert(dep_views(result@)[res0.len() as int] == d@);
                    }
                }
                proof {
                    assert(res_iter.is_prefix_of(dep_views(result@)));
                    assert forall|l: int|
                        0 <= l < k + 1 implies dep_views(result@).contains(
                        #[trigger] dep_views(deps@)[l],
                    ) by {
                        if l < k {
                            let w = choose|w: int|
                                0 <= w < res_iter.len() && res_iter[w] == dep_views(deps@)[l];
                            assert(dep_views(result@)[w] == dep_views(deps@)[l]);
                        }
                    }
                }
                k = k + 1;
            }
            proof {
                assert forall|j: int, d: DepView|
                    0 <= j < i + 1 && #[trigger] in_closure(m, id_texts(ids@)[j], d)
                    implies dep_views(result@).contains(d) by {
                    if j < i {
                        let w = choose|w: int| 0 <= w < res_outer.len() && res_outer[w] == d;
                        assert(dep_views(result@)[w] == d);
                    } else {
                        assert(dep_views(deps@).contains(d));
                        let l = choose|l: int|
                            0 <= l < dep_views(deps@).len() && dep_views(deps@)[l] == d;
                        assert(dep_views(result@).contains(dep_views(deps@)[l]));
                    }
                }
            }
            i = i + 1;
        }
        proof {
            assert forall|d: DepView| (exists|k: Seq<char>|
                #[trigger] m.contains_key(k) && in_closure(m, k, d)) implies #[trigger] dep_views(
                result@,
            ).contains(d) by {
                let k = choose|k: Seq<char>| #[trigger] m.contains_key(k) && in_closure(m, k, d);
                let j = choose|j: int| 0 <= j < ids@.len() && id_texts(ids@)[j] == k;
                assert(in_closure(m, id_texts(ids@)[j], d));
            }
        }
        Ok(result)
    }

    /// The versions of all registered packages, keyed by identifier.
    pub fn package_version_map(&self) -> (r: Vec<(Id, Version)>)
        requires
            self.wf(),
        ensures
            r@.len() == self@.dom().len(),
            forall|i: int|
                0 <= i < r@.len() ==> self@.contains_key((#[trigger] r@[i]).0@) && r@[i].1
                    == self@[r@[i].0@].manifest.metadata.version,
            forall|k: Seq<char>|
                #[trigger] self@.contains_key(k) ==> exists|i: int|
                    0 <= i < r@.len() && (#[trigger] r@[i]).0@ == k,
    {
        let ghost m = self@;
        let ids = self.package_ids();
        let n = ids.len();
        let mut out: Vec<(Id, Version)> = Vec::new();
        let mut i: usize = 0;
        while i < n
            invariant
                i <= n,
                n == ids@.len(),
                out@.len() == i,
                forall|j: int|
                    0 <= j < i ==> (#[trigger] out@[j]).0@ == id_texts(ids@)[j] && out@[j].1
                        == m[id_texts(ids@)[j]].manifest.metadata.version,
            decreases n - i,
        {
            proof {
                assert(m.contains_key(id_texts(ids@)[i as int]));
                assert(id_texts(ids@)[i as int] == ids@[i as int]@);
            }
            let pkg = match self.get(&ids[i]) {
                Some(p) => p,
                None => {
                    proof {
                        assert(false);
                    }
                    vstd::pervasive::unreached()
                },
            };
            let v = *pkg.manifest().metadata().version();
            out.push((ids[i].clone(), v));
            i = i + 1;
        }
        proof {
            assert forall|k: Seq<char>| #[trigger] m.contains_key(k) implies exists|i: int|
                0 <= i < out@.len() && (#[trigger] out@[i]).0@ == k by {
                let j = choose|j: int| 0 <= j < ids@.len() && id_texts(ids@)[j] == k;
                assert(out@[j].0@ == k);
            }
        }
        out
    }

    /// Confirms that every declared version requirement in every
    /// registered package's closure admits the registered version of its
    /// target. Fails when some closure cannot be computed or some
    /// requirement is not met.
    pub fn check_version_compatibility(&self) -> (r: Result<(), Error>)
        requires
            self.wf(),
        ensures
            match r {
                Ok(()) => {
                    &&& forall|k: Seq<char>|
                        #[trigger] self@.contains_key(k) ==> closure_ok(self@, k)
                    &&& crate::reach::versions_ok(self@)
                },
                Err(e) => {
                    &&& (exists|k: Seq<char>|
                        #[trigger] self@.contains_key(k) && !closure_ok(self@, k))
                        || !crate::reach::versions_ok(self@)
                    &&& sweep_error(self@, e)
                },
            },
    {
        let ghost m = self@;
        proof {
            self.lemma_wf_facts();
        }
        let ids = self.package_ids();
        let n = ids.len();
        let mut i: usize = 0;
        while i < n
            invariant
                i <= n,
                n == ids@.len(),
                forall|j: int| 0 <= j < i ==> closure_ok(m, #[trigger] id_texts(ids@)[j]),
                forall|j: int, d: DepView|
                    0 <= j < i && #[trigger] in_closure(m, id_texts(ids@)[j], d) && d is Package
                        ==> m.contains_key(d.pkg_id()) && crate::version::spec_req_matches(
                        d.pkg_version(),
                        m[d.pkg_id()].manifest.metadata.version,
                    ),
            decreases n - i,
        {
            proof {
                assert(m.contains_key(id_texts(ids@)[i as int]));
                assert(id_texts(ids@)[i as int] == ids@[i as int]@);
            }
            let deps = match self.get_dependencies(&ids[i]) {
                Ok(deps) => deps,
                Err(e) => {
                    return Err(e);
                },
            };
            let dn = deps.len();
            let mut k: usize = 0;
            while k < dn
                invariant
                    k <= dn,
                    dn == deps@.len(),
                    forall|l: int|
                        0 <= l < k && (#[trigger] dep_views(deps@)[l]) is Package
                            ==> m.contains_key(dep_views(deps@)[l].pkg_id())
                            && crate::version::spec_req_matches(
                            dep_views(deps@)[l].pkg_version(),
                            m[dep_views(deps@)[l].pkg_id()].manifest.metadata.version,
                        ),
                decreases dn - k,
            {
                let checked = match &deps[k] {
                    Dependency::Package { id: t, version: req } => {
                        proof {
                            assert(dep_views(deps@)[k as int] is Package);
                            assert(dep_views(deps@)[k as int].pkg_id() == t@);
                            assert(dep_views(deps@).contains(dep_views(deps@)[k as int]));
                            assert(in_closure(m, ids@[i as int]@, dep_views(deps@)[k as int]));
                        }
                        let target = match self.get(t) {
                            Some(p) => p,
                            None => {
                                proof {
                                    assert(false);
                                }
                                vstd::pervasive::unreached()
                            },
                        };
                        let v = target.manifest().metadata().version();
                        if !req.matches(v) {
                            proof {
                                assert(crate::reach::version_violation(
                                    m,
                                    ids@[i as int]@,
                                    t@,
                                    req@,
                                    *v,
                                )) by {
                                    assert(dep_views(deps@)[k as int] == (DepView::Package {
                                        id: t@,
                                        version: req@,
                                    }));
                                }
                            }
                            return Err(Error::IncompatibleVersion {
                                dependent: ids[i].clone(),
                                id: t.clone(),
                                required: req.clone(),
                                actual: *v,
                            });
                        }
                        true
                    },
                    Dependency::Decomp { rev: _ } => true,
                };
                proof {
                    assert(checked);
                }
                k = k + 1;
            }
            proof {
                assert forall|j: int, d: DepView|
                    0 <= j < i + 1 && #[trigger] in_closure(m, id_texts(ids@)[j], d)
                        && d is Package implies m.contains_key(d.pkg_id())
                    && crate::version::spec_req_matches(
                    d.pkg_version(),
                    m[d.pkg_id()].manifest.metadata.version,
                ) by {
                    if j == i {
                        assert(dep_views(deps@).contains(d));
                        let l = choose|l: int|
                            0 <= l < dep_views(deps@).len() && dep_views(deps@)[l] == d;
                    }
                }
            }
            i = i + 1;
        }
        proof {
            assert forall|a: Seq<char>, d: DepView|
                m.contains_key(a) && #[trigger] in_closure(m, a, d) && d is Package implies
                m.contains_key(d.pkg_id()) && crate::version::spec_req_matches(
                d.pkg_version(),
                m[d.pkg_id()].manifest.metadata.version,
            ) by {
                let j = choose|j: int| 0 <= j < ids@.len() && id_texts(ids@)[j] == a;
                assert(in_closure(m, id_texts(ids@)[j], d));
            }
        }
        Ok(())
    }

    /// Adds a direct dependency to a package: the target's identifier with
    /// a tilde requirement on its registered version, declared on the
    /// dependent's manifest. Both packages must be registered; a conflicting
    /// earlier declaration fails and changes nothing.
    pub fn add_direct_dependency(&mut self, id: &Id, dependency_id: &Id) -> (r: Result<(), Error>)
        requires
            old(self).wf(),
        ensures
            final(self).wf(),
            match r {
                Ok(()) => {
                    let m = old(self)@;
                    let dep = (DepView::Package {
                        id: dependency_id@,
                        version: crate::version::VersionReq::spec_tilde(
                            m[dependency_id@].manifest.metadata.version,
                        ),
                    });
                    &&& m.contains_key(id@)
                    &&& m.contains_key(dependency_id@)
                    &&& (crate::manifest::has_pkg_dep(m[id@].manifest.dependencies, dependency_id@)
                        ==> crate::manifest::pkg_dep_version(
                        m[id@].manifest.dependencies,
                        dependency_id@,
                    ) == crate::version::VersionReq::spec_tilde(
                        m[dependency_id@].manifest.metadata.version,
                    ))
                    &&& final(self)@ == m.insert(
                        id@,
                        (PackageView {
                            path: m[id@].path,
                            manifest: (crate::manifest::ManifestView {
                                metadata: m[id@].manifest.metadata,
                                dependencies: crate::manifest::declare_result(
                                    m[id@].manifest.dependencies,
                                    dep,
                                ),
                            }),
                        }),
                    )
                },
                Err(e) => {
                    &&& final(self)@ == old(self)@
                    &&& {
                        ||| !old(self)@.contains_key(id@)
                        ||| !old(self)@.contains_key(dependency_id@)
                        ||| {
                            let m = old(self)@;
                            &&& crate::manifest::has_pkg_dep(
                                m[id@].manifest.dependencies,
                                dependency_id@,
                            )
                            &&& crate::manifest::pkg_dep_version(
                                m[id@].manifest.dependencies,
                                dependency_id@,
                            ) != crate::version::VersionReq::spec_tilde(
                                m[dependency_id@].manifest.metadata.version,
                            )
                        }
                    }
                },
            },
    {
        let ghost m = self@;
        proof {
            self.lemma_wf_facts();
        }
        if !self.has(id) {
            return Err(Error::NotFound { id: id.clone() });
        }
        let dependency = {
            let target = match self.get(dependency_id) {
                Some(p) => p,
                None => {
                    return Err(Error::NotFound { id: dependency_id.clone() });
                },
            };
            Dependency::from_metadata(target.manifest().metadata())
        };
        let mut p = match self.take(id) {
            Ok(p) => p,
            Err(_) => {
                proof {
                    assert(false);
                }
                vstd::pervasive::unreached()
            },
        };
        let declared = p.declare_direct_dependency(dependency);
        let ghost pv = p@;
        let put_back = self.register(p);
        proof {
            assert(put_back is Ok);
        }
        match declared {
            Ok(()) => {
                proof {
                    assert(final(self)@ =~= m.insert(id@, pv));
                    assert(pv.manifest.dependencies == crate::manifest::declare_result(
                        m[id@].manifest.dependencies,
                        (DepView::Package {
                            id: dependency_id@,
                            version: crate::version::VersionReq::spec_tilde(
                                m[dependency_id@].manifest.metadata.version,
                            ),
                        }),
                    ));
                }
                Ok(())
            },
            Err(_) => {
                proof {
                    assert(pv == m[id@]);
                    assert(final(self)@ =~= m);
                }
                Err(Error::DependencyConflict { id: dependency_id.clone() })
            },
        }
    }

    /// Unregisters all orphaned packages for the given build root and
    /// hands them back, so the caller can remove their directories. Fails,
    /// changing nothing, when the root's closure cannot be computed.
    #[verifier::rlimit(50)]
    pub fn delete_orphans(&mut self, root: &Id) -> (r: Result<Vec<Package>, Error>)
        requires
            old(self).wf(),
        ensures
            final(self).wf(),
            match r {
                Ok(removed) => delete_outcome(
                    old(self)@,
                    root@,
                    crate::registry::pkg_views(removed@),
                    final(self)@,
                ),
                Err(e) => {
                    &&& !closure_ok(old(self)@, root@)
                    &&& closure_error(old(self)@, root@, e)
                    &&& final(self)@ == old(self)@
                },
            },
    {
        let ghost m = self@;
        proof {
            self.lemma_wf_facts();
        }
        let orphans = match self.get_orphans(root) {
            Ok(v) => v,
            Err(e) => {
                return Err(e);
            },
        };
        let ghost otexts = id_texts(orphans@);
        let mut removed: Vec<Package> = Vec::new();
        let n = orphans.len();
        let mut i: usize = 0;
        proof {
            assert(otexts.take(0) =~= Seq::<Seq<char>>::empty());
            assert(self@ =~= m.remove_keys(otexts.take(0).to_set()));
        }
        while i < n
            invariant
                i <= n,
                n == orphans@.len(),
                self.wf(),
                self@ == m.remove_keys(otexts.take(i as int).to_set()),
                removed@.len() == i,
                forall|l: int|
                    0 <= l < i ==> (#[trigger] removed@[l])@.id() == otexts[l] && removed@[l]@
                        == m[otexts[l]],
            decreases n - i,
        {
            proof {
                assert(otexts[i as int] == orphans@[i as int]@);
                assert(m.contains_key(otexts[i as int]));
                assert(!otexts.take(i as int).to_set().contains(otexts[i as int])) by {
                    if otexts.take(i as int).to_set().contains(otexts[i as int]) {
                        let j = choose|j: int|
                            0 <= j < i && otexts.take(i as int)[j] == otexts[i as int];
                        assert(otexts[j] == otexts[i as int]);
                    }
                }
                assert(self@.contains_key(otexts[i as int]));
                assert(self@[otexts[i as int]] == m[otexts[i as int]]);
            }
            let p = match self.take(&orphans[i]) {
                Ok(p) => p,
                Err(_) => {
                    proof {
                        assert(false);
                    }
                    vstd::pervasive::unreached()
                },
            };
            let ghost pid = p@.id();
            proof {
                assert(pid == otexts[i as int]) by {
                    assert(m[otexts[i as int]].id() == otexts[i as int]);
                }
            }
            removed.push(p);
            proof {
                assert(otexts.take(i + 1) =~= otexts.take(i as int).push(otexts[i as int]));
                assert(otexts.take(i + 1).to_set() =~= otexts.take(i as int).to_set().insert(
                    otexts[i as int],
                )) by {
                    assert forall|x: Seq<char>|
                        otexts.take(i + 1).to_set().contains(x) <==> otexts.take(
                            i as int,
                        ).to_set().insert(otexts[i as int]).contains(x) by {
                        if otexts.take(i + 1).contains(x) {
                            let j = choose|j: int|
                                0 <= j < i + 1 && #[trigger] otexts.take(i + 1)[j] == x;
                            if j < i {
                                assert(otexts.take(i as int)[j] == x);
                            }
                        }
                        if otexts.take(i as int).contains(x) {
                            let j = choose|j: int|
                                0 <= j < i && otexts.take(i as int)[j] == x;
                            assert(otexts.take(i + 1)[j] == x);
                        }
                        if x == otexts[i as int] {
                            assert(otexts.take(i + 1)[i as int] == x);
                        }
                    }
                }
                assert(self@ =~= m.remove_keys(otexts.take(i + 1).to_set()));
            }
            i = i + 1;
        }
        proof {
            assert(otexts.take(n as int) =~= otexts);
            assert(otexts.to_set() =~= crate::reach::orphan_keys(m, root@)) by {
                assert forall|k: Seq<char>|
                    otexts.to_set().contains(k) <==> crate::reach::is_orphan(m, root@, k) by {
                    if otexts.to_set().contains(k) {
                        let j = choose|j: int| 0 <= j < otexts.len() && otexts[j] == k;
                        assert(crate::reach::is_orphan(m, root@, otexts[j]));
                    }
                }
            }
            assert forall|k: Seq<char>|
                crate::reach::is_orphan(m, root@, k) implies exists|i2: int|
                0 <= i2 < removed@.len() && (#[trigger] removed@[i2])@.id() == k by {
                assert(otexts.contains(k));
                let j = choose|j: int| 0 <= j < otexts.len() && otexts[j] == k;
                assert(removed@[j]@.id() == k);
            }
            assert(otexts.to_set() =~= crate::reach::orphan_keys(m, root@));
            assert(otexts.to_set() == crate::reach::orphan_keys(m, root@));
            assert(self@ == m.remove_keys(otexts.take(n as int).to_set()));
            assert(otexts.take(n as int) == otexts);
            assert(self@ == m.remove_keys(crate::reach::orphan_keys(m, root@)));
            let rv = crate::registry::pkg_views(removed@);
            assert forall|l: int| 0 <= l < rv.len() implies crate::reach::is_orphan(
                m,
                root@,
                (#[trigger] rv[l]).id(),
            ) && rv[l] == m[rv[l].id()] by {
                assert(rv[l] == removed@[l]@);
            }
            assert forall|k: Seq<char>| crate::reach::is_orphan(m, root@, k) implies exists|i2: int|
                0 <= i2 < rv.len() && (#[trigger] rv[i2]).id() == k by {
                assert(otexts.contains(k));
                let j = choose|j: int| 0 <= j < otexts.len() && otexts[j] == k;
                assert(rv[j].id() == k);
            }
            assert(delete_outcome(m, root@, rv, self@));
        }
        Ok(removed)
    }
}

} // verus!
