//! Semantic versions and version requirements.
//!
//! A version is a `major.minor.patch` triple. A requirement is a list of
//! comparators, all of which must admit a version for the requirement to
//! match. Matching itself is delegated to the semver crate; its documented
//! semantics (for versions and comparators without pre-release identifiers,
//! which this library does not model) is stated in the spec functions here.

use vstd::prelude::*;

verus! {

/// A comparison operator of a version requirement.
#[derive(Debug, Clone, Copy, PartialEq, Eq, Structural, Hash)]
pub enum Op {
    /// `=x.y.z`: equal within the stated precision.
    Exact,
    /// `>x.y.z`
    Greater,
    /// `>=x.y.z`
    GreaterEq,
    /// `<x.y.z`
    Less,
    /// `<=x.y.z`
    LessEq,
    /// `~x.y.z`: same major and minor, patch at least as high.
    Tilde,
    /// `^x.y.z`: compatible, leftmost nonzero component fixed.
    Caret,
    /// `x.y.*`
    Wildcard,
}

/// A semantic version without pre-release or build identifiers.
#[derive(Debug, Clone, Copy, PartialEq, Eq, Structural, Hash)]
pub struct Version {
    /// Major component.
    pub major: u64,
    /// Minor component.
    pub minor: u64,
    /// Patch component.
    pub patch: u64,
}

impl Version {
    /// Builds the version `major.minor.patch`.
    pub fn new(major: u64, minor: u64, patch: u64) -> (r: Version)
        ensures
            r == (Version { major, minor, patch }),
    {
        Version { major, minor, patch }
    }
}

/// One comparator of a version requirement, such as `^1.2.3` or `>=2`.
#[derive(Debug, Clone, Copy)]
pub struct Comparator {
    /// The operator.
    pub op: Op,
    /// Major component; always given.
    pub major: u64,
    /// Minor component, when stated.
    pub minor: Option<u64>,
    /// Patch component, when stated (only meaningful with a minor one).
    pub patch: Option<u64>,
}

/// A version requirement: a conjunction of comparators.
#[derive(Debug)]
pub struct VersionReq {
    /// The comparators; a version matches when every one of them admits it.
    pub comparators: Vec<Comparator>,
}

impl View for VersionReq {
    type V = Seq<Comparator>;

    open spec fn view(&self) -> Seq<Comparator> {
        self.comparators@
    }
}

impl Clone for VersionReq {
    fn clone(&self) -> (res: Self)
        ensures
            res@ == self@,
    {
        let res = VersionReq { comparators: self.comparators.clone() };
        proof {
            assert(res@ =~= self@);
        }
        res
    }
}

/// Whether `v` equals `c`'s components within the precision `c` states.
pub open spec fn spec_matches_exact(c: Comparator, v: Version) -> bool {
    &&& v.major == c.major
    &&& (c.minor is Some ==> v.minor == c.minor->0)
    &&& (c.patch is Some ==> v.patch == c.patch->0)
}

/// Whether `v` lies strictly above `c`'s stated components.
pub open spec fn spec_matches_greater(c: Comparator, v: Version) -> bool {
    if v.major != c.major {
        v.major > c.major
    } else if c.minor is None {
        false
    } else if v.minor != c.minor->0 {
        v.minor > c.minor->0
    } else if c.patch is None {
        false
    } else {
        v.patch > c.patch->0
    }
}

/// Whether `v` lies strictly below `c`'s stated components.
pub open spec fn spec_matches_less(c: Comparator, v: Version) -> bool {
    if v.major != c.major {
        v.major < c.major
    } else if c.minor is None {
        false
    } else if v.minor != c.minor->0 {
        v.minor < c.minor->0
    } else if c.patch is None {
        false
    } else {
        v.patch < c.patch->0
    }
}

/// Whether `v` matches `c` read as a tilde requirement: equal major, equal
/// minor when stated, and a patch at least as high when stated.
pub open spec fn spec_matches_tilde(c: Comparator, v: Version) -> bool {
    &&& v.major == c.major
    &&& (c.minor is Some ==> v.minor == c.minor->0)
    &&& (c.patch is Some ==> v.patch >= c.patch->0)
}

/// Whether `v` matches `c` read as a caret requirement: the leftmost nonzero
/// stated component must be equal, later ones at least as high.
pub open spec fn spec_matches_caret(c: Comparator, v: Version) -> bool {
    if v.major != c.major {
        false
    } else if c.minor is None {
        true
    } else if c.patch is None {
        if c.major > 0 {
            v.minor >= c.minor->0
        } else {
            v.minor == c.minor->0
        }
    } else if c.major > 0 {
        if v.minor != c.minor->0 {
            v.minor > c.minor->0
        } else {
            v.patch >= c.patch->0
        }
    } else if c.minor->0 > 0 {
        v.minor == c.minor->0 && v.patch >= c.patch->0
    } else {
        v.minor == c.minor->0 && v.patch == c.patch->0
    }
}

/// Whether comparator `c` admits version `v`.
pub open spec fn spec_comparator_matches(c: Comparator, v: Version) -> bool {
    match c.op {
        Op::Exact => spec_matches_exact(c, v),
        Op::Wildcard => spec_matches_exact(c, v),
        Op::Greater => spec_matches_greater(c, v),
        Op::GreaterEq => spec_matches_exact(c, v) || spec_matches_greater(c, v),
        Op::Less => spec_matches_less(c, v),
        Op::LessEq => spec_matches_exact(c, v) || spec_matches_less(c, v),
        Op::Tilde => spec_matches_tilde(c, v),
        Op::Caret => spec_matches_caret(c, v),
    }
}

/// Whether every comparator of a requirement admits version `v`.
pub open spec fn spec_req_matches(cs: Seq<Comparator>, v: Version) -> bool {
    forall|i: int| 0 <= i < cs.len() ==> spec_comparator_matches(#[trigger] cs[i], v)
}

/// What a fully-stated caret requirement with a nonzero major component
/// admits: the same major, and a minor.patch at least as high.
pub proof fn lemma_caret_matches(c: Comparator, v: Version)
    requires
        c.op is Caret,
        c.major > 0,
        c.minor is Some,
        c.patch is Some,
    ensures
        spec_comparator_matches(c, v) <==> (v.major == c.major && (v.minor > c.minor->0 || (
        v.minor == c.minor->0 && v.patch >= c.patch->0))),
{
}

/// Relies on semver's `Comparator::matches`: for a comparator and a version
/// that carry no pre-release identifiers, it decides the match exactly as
/// `spec_comparator_matches` states.
#[verifier::external_body]
fn semver_comparator_matches(c: &Comparator, v: &Version) -> (r: bool)
    ensures
        r == spec_comparator_matches(*c, *v),
{
    let op = match c.op {
        Op::Exact => semver::Op::Exact,
        Op::Greater => semver::Op::Greater,
        Op::GreaterEq => semver::Op::GreaterEq,
        Op::Less => semver::Op::Less,
        Op::LessEq => semver::Op::LessEq,
        Op::Tilde => semver::Op::Tilde,
        Op::Caret => semver::Op::Caret,
        Op::Wildcard => semver::Op::Wildcard,
    };
    let cmp = semver::Comparator { op, major: c.major, minor: c.minor, patch: c.patch, pre: semver::Prerelease::EMPTY };
    cmp.matches(&semver::Version::new(v.major, v.minor, v.patch))
}

impl VersionReq {
    /// The comparators of the requirement `~major.minor.patch`.
    pub open spec fn spec_tilde(v: Version) -> Seq<Comparator> {
        seq![Comparator { op: Op::Tilde, major: v.major, minor: Some(v.minor), patch: Some(v.patch) }]
    }

    /// The comparators of the requirement `=major.minor.patch`.
    pub open spec fn spec_exact(v: Version) -> Seq<Comparator> {
        seq![Comparator { op: Op::Exact, major: v.major, minor: Some(v.minor), patch: Some(v.patch) }]
    }

    /// Whether this requirement admits version `v`: every comparator must.
    pub fn matches(&self, v: &Version) -> (r: bool)
        ensures
            r == spec_req_matches(self@, *v),
    {
        let n = self.comparators.len();
        let mut i: usize = 0;
        while i < n
            invariant
                i <= n,
                n == self@.len(),
                forall|j: int| 0 <= j < i ==> spec_comparator_matches(#[trigger] self@[j], *v),
            decreases n - i,
        {
            if !semver_comparator_matches(&self.comparators[i], v) {
                return false;
            }
            i = i + 1;
        }
        true
    }

    /// The requirement `~major.minor.patch`: the version itself or a later
    /// patch of the same minor line.
    pub fn tilde(v: &Version) -> (r: VersionReq)
        ensures
            r@ =~= Self::spec_tilde(*v),
    {
        let c = Comparator { op: Op::Tilde, major: v.major, minor: Some(v.minor), patch: Some(v.patch) };
        let mut comparators: Vec<Comparator> = Vec::new();
        comparators.push(c);
        VersionReq { comparators }
    }

    /// The requirement `=major.minor.patch`: that version exactly.
    pub fn exact(v: &Version) -> (r: VersionReq)
        ensures
            r@ =~= Self::spec_exact(*v),
    {
        let c = Comparator { op: Op::Exact, major: v.major, minor: Some(v.minor), patch: Some(v.patch) };
        let mut comparators: Vec<Comparator> = Vec::new();
        comparators.push(c);
        VersionReq { comparators }
    }
}

/// Whether two comparators are equal in every component.
pub fn comparator_eq(a: &Comparator, b: &Comparator) -> (r: bool)
    ensures
        r == (*a == *b),
{
    let op_eq = match (a.op, b.op) {
        (Op::Exact, Op::Exact) => true,
        (Op::Greater, Op::Greater) => true,
        (Op::GreaterEq, Op::GreaterEq) => true,
        (Op::Less, Op::Less) => true,
        (Op::LessEq, Op::LessEq) => true,
        (Op::Tilde, Op::Tilde) => true,
        (Op::Caret, Op::Caret) => true,
        (Op::Wildcard, Op::Wildcard) => true,
        _ => false,
    };
    let minor_eq = match (a.minor, b.minor) {
        (None, None) => true,
        (Some(x), Some(y)) => x == y,
        _ => false,
    };
    let patch_eq = match (a.patch, b.patch) {
        (None, None) => true,
        (Some(x), Some(y)) => x == y,
        _ => false,
    };
    op_eq && a.major == b.major && minor_eq && patch_eq
}

/// Whether two requirements hold exactly the same comparators in the same
/// order.
pub fn req_eq(a: &VersionReq, b: &VersionReq) -> (r: bool)
    ensures
        r == (a@ =~= b@),
{
    if a.comparators.len() != b.comparators.len() {
        return false;
    }
    let n = a.comparators.len();
    let mut i: usize = 0;
    while i < n
        invariant
            i <= n,
            n == a@.len(),
            a@.len() == b@.len(),
            forall|j: int| 0 <= j < i ==> a@[j] == b@[j],
        decreases n - i,
    {
        if !comparator_eq(&a.comparators[i], &b.comparators[i]) {
            return false;
        }
        i = i + 1;
    }
    true
}

} // verus!
