//! Version requirements: an ordered list of comparators, where a version
//! matches the requirement exactly when every comparator accepts it.
//!
//! Matching is the plain conjunction over the comparators; a pre-release
//! version is judged by each comparator's own semantics alone. Some
//! tooling additionally refuses a pre-release version unless a comparator
//! names the same triple with a pre-release tag of its own; this model
//! deliberately has no such extra rule, so for example `^1` accepts a
//! pre-release of `1.5.0` here.
use vstd::prelude::*;

use crate::version::{
    pre_exec_eq, pre_exec_lt, pre_lt, version_le, version_lt, PreIdent, PreIdentView, Version,
    VersionView,
};

verus! {

/// A comparator operator. The empty requirement (no comparators at all)
/// plays the role of the universal `*` requirement; the `Wildcard` operator
/// stands for a partial version pattern such as `1.*`.
#[derive(Clone, Copy, Debug, PartialEq, Eq, Structural)]
pub enum Op {
    Exact,
    GreaterEq,
    LessEq,
    Caret,
    Wildcard,
}

/// One comparator: an operator applied to a possibly partial version.
#[derive(Clone, Debug, PartialEq, Eq)]
pub struct Comparator {
    pub op: Op,
    pub major: u64,
    pub minor: Option<u64>,
    pub patch: Option<u64>,
    pub pre: Vec<PreIdent>,
}

/// Mathematical image of a [`Comparator`].
#[verifier::ext_equal]
pub struct ComparatorView {
    pub op: Op,
    pub major: int,
    pub minor: Option<int>,
    pub patch: Option<int>,
    pub pre: Seq<PreIdentView>,
}

impl View for Comparator {
    type V = ComparatorView;

    open spec fn view(&self) -> ComparatorView {
        ComparatorView {
            op: self.op,
            major: self.major as int,
            minor: match self.minor {
                Some(m) => Some(m as int),
                None => None,
            },
            patch: match self.patch {
                Some(p) => Some(p as int),
                None => None,
            },
            pre: self.pre@.map_values(|p: PreIdent| p@),
        }
    }
}

/// A version requirement: the conjunction of its comparators.
#[derive(Clone, Debug, PartialEq, Eq)]
pub struct VersionReq {
    pub comparators: Vec<Comparator>,
}

impl View for VersionReq {
    type V = Seq<ComparatorView>;

    open spec fn view(&self) -> Seq<ComparatorView> {
        self.comparators@.map_values(|c: Comparator| c@)
    }
}

/// Acceptance under `=` (and under a wildcard pattern, which pins only the
/// components it names): every named component must agree, and the
/// pre-release tags must agree.
pub open spec fn spec_matches_exact(c: ComparatorView, v: VersionView) -> bool {
    &&& v.major == c.major
    &&& (c.minor is Some ==> v.minor == c.minor->0)
    &&& (c.patch is Some ==> v.patch == c.patch->0)
    &&& v.pre == c.pre
}

/// Strictly-above test used by `>=`: a version is above a partial
/// comparator only when it is above in some component the comparator names.
pub open spec fn spec_matches_greater(c: ComparatorView, v: VersionView) -> bool {
    if v.major != c.major {
        v.major > c.major
    } else if c.minor is None {
        false
    } else if v.minor != c.minor->0 {
        v.minor > c.minor->0
    } else if c.patch is None {
        false
    } else if v.patch != c.patch->0 {
        v.patch > c.patch->0
    } else {
        pre_lt(c.pre, v.pre)
    }
}

/// Strictly-below test used by `<=`, mirror of [`spec_matches_greater`].
pub open spec fn spec_matches_less(c: ComparatorView, v: VersionView) -> bool {
    if v.major != c.major {
        v.major < c.major
    } else if c.minor is None {
        false
    } else if v.minor != c.minor->0 {
        v.minor < c.minor->0
    } else if c.patch is None {
        false
    } else if v.patch != c.patch->0 {
        v.patch < c.patch->0
    } else {
        pre_lt(v.pre, c.pre)
    }
}

/// Acceptance under `^`: same major, and at or above the named remainder,
/// where a zero major (and zero minor) freezes the next component.
pub open spec fn spec_matches_caret(c: ComparatorView, v: VersionView) -> bool {
    if v.major != c.major {
        false
    } else if c.minor is None {
        true
    } else if c.patch is None {
        if c.major > 0 {
            v.minor >= c.minor->0
        } else {
            v.minor == c.minor->0
        }
    } else if c.major > 0 {
        if v.minor != c.minor->0 {
            v.minor > c.minor->0
        } else if v.patch != c.patch->0 {
            v.patch > c.patch->0
        } else {
            !pre_lt(v.pre, c.pre)
        }
    } else if c.minor->0 > 0 {
        if v.minor != c.minor->0 {
            false
        } else if v.patch != c.patch->0 {
            v.patch > c.patch->0
        } else {
            !pre_lt(v.pre, c.pre)
        }
    } else if v.minor != c.minor->0 || v.patch != c.patch->0 {
        false
    } else {
        !pre_lt(v.pre, c.pre)
    }
}

/// Acceptance of a version by one comparator.
pub open spec fn comp_matches(c: ComparatorView, v: VersionView) -> bool {
    match c.op {
        Op::Exact => spec_matches_exact(c, v),
        Op::Wildcard => spec_matches_exact(c, v),
        Op::GreaterEq => spec_matches_exact(c, v) || spec_matches_greater(c, v),
        Op::LessEq => spec_matches_exact(c, v) || spec_matches_less(c, v),
        Op::Caret => spec_matches_caret(c, v),
    }
}

/// Acceptance of a version by a requirement: the conjunction over its
/// comparators. The empty requirement accepts every version.
pub open spec fn req_matches(r: Seq<ComparatorView>, v: VersionView) -> bool {
    forall|i: int| 0 <= i < r.len() ==> comp_matches(#[trigger] r[i], v)
}

impl Comparator {
    /// Whether this comparator accepts `v`.
    pub fn matches(&self, v: &Version) -> (r: bool)
        ensures
            r == comp_matches(self@, v@),
    {
        match self.op {
            Op::Exact => self.matches_exact(v),
            Op::Wildcard => self.matches_exact(v),
            Op::GreaterEq => {
                if self.matches_exact(v) {
                    true
                } else {
                    self.matches_greater(v)
                }
            },
            Op::LessEq => {
                if self.matches_exact(v) {
                    true
                } else {
                    self.matches_less(v)
                }
            },
            Op::Caret => self.matches_caret(v),
        }
    }

    fn matches_exact(&self, v: &Version) -> (r: bool)
        ensures
            r == spec_matches_exact(self@, v@),
    {
        if v.major != self.major {
            return false;
        }
        match self.minor {
            Some(m) => {
                if v.minor != m {
                    return false;
                }
            },
            None => {},
        }
        match self.patch {
            Some(p) => {
                if v.patch != p {
                    return false;
                }
            },
            None => {},
        }
        pre_exec_eq(&v.pre, &self.pre)
    }

    fn matches_greater(&self, v: &Version) -> (r: bool)
        ensures
            r == spec_matches_greater(self@, v@),
    {
        if v.major != self.major {
            return v.major > self.major;
        }
        let m = match self.minor {
            Some(m) => m,
            None => {
                return false;
            },
        };
        if v.minor != m {
            return v.minor > m;
        }
        let p = match self.patch {
            Some(p) => p,
            None => {
                return false;
            },
        };
        if v.patch != p {
            return v.patch > p;
        }
        pre_exec_lt(&self.pre, &v.pre)
    }

    fn matches_less(&self, v: &Version) -> (r: bool)
        ensures
            r == spec_matches_less(self@, v@),
    {
        if v.major != self.major {
            return v.major < self.major;
        }
        let m = match self.minor {
            Some(m) => m,
            None => {
                return false;
            },
        };
        if v.minor != m {
            return v.minor < m;
        }
        let p = match self.patch {
            Some(p) => p,
            None => {
                return false;
            },
        };
        if v.patch != p {
            return v.patch < p;
        }
        pre_exec_lt(&v.pre, &self.pre)
    }

    fn matches_caret(&self, v: &Version) -> (r: bool)
        ensures
            r == spec_matches_caret(self@, v@),
    {
        if v.major != self.major {
            return false;
        }
        let m = match self.minor {
            Some(m) => m,
            None => {
                return true;
            },
        };
        let p = match self.patch {
            Some(p) => p,
            None => {
                if self.major > 0 {
                    return v.minor >= m;
                } else {
                    return v.minor == m;
                }
            },
        };
        if self.major > 0 {
            if v.minor != m {
                return v.minor > m;
            }
            if v.patch != p {
                return v.patch > p;
            }
            return !pre_exec_lt(&v.pre, &self.pre);
        }
        if m > 0 {
            if v.minor != m {
                return false;
            }
            if v.patch != p {
                return v.patch > p;
            }
            return !pre_exec_lt(&v.pre, &self.pre);
        }
        if v.minor != m || v.patch != p {
            return false;
        }
        !pre_exec_lt(&v.pre, &self.pre)
    }

    /// The `>= v` comparator naming the full triple and tag of `v`.
    pub fn greater_eq(v: &Version) -> (r: Comparator)
        ensures
            r@ == comparator_at(Op::GreaterEq, v@),
    {
        let r = Comparator {
            op: Op::GreaterEq,
            major: v.major,
            minor: Some(v.minor),
            patch: Some(v.patch),
            pre: v.duplicate().pre,
        };
        proof {
            assert(r@ =~= comparator_at(Op::GreaterEq, v@));
        }
        r
    }

    /// The `<= v` comparator naming the full triple and tag of `v`.
    pub fn less_eq(v: &Version) -> (r: Comparator)
        ensures
            r@ == comparator_at(Op::LessEq, v@),
    {
        let r = Comparator {
            op: Op::LessEq,
            major: v.major,
            minor: Some(v.minor),
            patch: Some(v.patch),
            pre: v.duplicate().pre,
        };
        proof {
            assert(r@ =~= comparator_at(Op::LessEq, v@));
        }
        r
    }

    /// The `= v` comparator naming the full triple and tag of `v`.
    pub fn exact(v: &Version) -> (r: Comparator)
        ensures
            r@ == comparator_at(Op::Exact, v@),
    {
        let r = Comparator {
            op: Op::Exact,
            major: v.major,
            minor: Some(v.minor),
            patch: Some(v.patch),
            pre: v.duplicate().pre,
        };
        proof {
            assert(r@ =~= comparator_at(Op::Exact, v@));
        }
        r
    }
}

impl Comparator {
    /// A structural deep copy whose view equals the original's.
    pub fn duplicate(&self) -> (r: Comparator)
        ensures
            r@ == self@,
    {
        let mut pre: Vec<PreIdent> = Vec::new();
        let mut i: usize = 0;
        while i < self.pre.len()
            invariant
                i <= self.pre.len(),
                pre@.len() == i,
                forall|k: int| 0 <= k < i ==> (#[trigger] pre@[k])@ == self.pre@[k]@,
            decreases self.pre.len() - i,
        {
            let id = match &self.pre[i] {
                PreIdent::Num(n) => PreIdent::Num(*n),
                PreIdent::Txt(sv) => {
                    let mut t: Vec<char> = Vec::new();
                    let mut j: usize = 0;
                    while j < sv.len()
                        invariant
                            j <= sv.len(),
                            t@ =~= sv@.take(j as int),
                        decreases sv.len() - j,
                    {
                        t.push(sv[j]);
                        j = j + 1;
                    }
                    proof {
                        assert(t@ =~= sv@);
                    }
                    PreIdent::Txt(t)
                },
            };
            pre.push(id);
            i = i + 1;
        }
        let r = Comparator {
            op: self.op,
            major: self.major,
            minor: self.minor,
            patch: self.patch,
            pre,
        };
        proof {
            assert(r@.pre =~= self@.pre);
            assert(r@ =~= self@);
        }
        r
    }
}

/// The comparator `op v` with every component of `v` named.
pub open spec fn comparator_at(op: Op, v: VersionView) -> ComparatorView {
    ComparatorView { op, major: v.major, minor: Some(v.minor), patch: Some(v.patch), pre: v.pre }
}

impl VersionReq {
    /// The universal requirement, written `*`.
    pub fn star() -> (r: VersionReq)
        ensures
            r@ == Seq::<ComparatorView>::empty(),
    {
        let r = VersionReq { comparators: Vec::new() };
        proof {
            assert(r@ =~= Seq::<ComparatorView>::empty());
        }
        r
    }

    /// Whether this requirement accepts `v`: every comparator must.
    pub fn matches(&self, v: &Version) -> (r: bool)
        ensures
            r == req_matches(self@, v@),
    {
        let mut i: usize = 0;
        while i < self.comparators.len()
            invariant
                i <= self.comparators.len(),
                forall|k: int| 0 <= k < i ==> comp_matches(#[trigger] self@[k], v@),
            decreases self.comparators.len() - i,
        {
            if !self.comparators[i].matches(v) {
                proof {
                    assert(!comp_matches(self@[i as int], v@));
                }
                return false;
            }
            i = i + 1;
        }
        true
    }
}

impl VersionReq {
    /// A structural deep copy whose view equals the original's.
    pub fn duplicate(&self) -> (r: VersionReq)
        ensures
            r@ == self@,
    {
        let mut comparators: Vec<Comparator> = Vec::new();
        let mut i: usize = 0;
        while i < self.comparators.len()
            invariant
                i <= self.comparators.len(),
                comparators@.len() == i,
                forall|k: int|
                    0 <= k < i ==> (#[trigger] comparators@[k])@ == self.comparators@[k]@,
            decreases self.comparators.len() - i,
        {
            comparators.push(self.comparators[i].duplicate());
            i = i + 1;
        }
        let r = VersionReq { comparators };
        proof {
            assert(r@ =~= self@);
        }
        r
    }

    /// The requirement `= v` pinning exactly one version.
    pub fn exact_version(v: &Version) -> (r: VersionReq)
        ensures
            r@ == seq![comparator_at(Op::Exact, v@)],
    {
        let mut comparators: Vec<Comparator> = Vec::new();
        comparators.push(Comparator::exact(v));
        let r = VersionReq { comparators };
        proof {
            assert(r@ =~= seq![comparator_at(Op::Exact, v@)]);
        }
        r
    }
}

/// A version accepted by the `= v` comparator of [`Comparator::exact`] is
/// `v` itself, and no other.
pub proof fn lemma_exact_comparator_pins(v: VersionView, w: VersionView)
    ensures
        comp_matches(comparator_at(Op::Exact, v), w) <==> v == w,
{
    let c = comparator_at(Op::Exact, v);
    if comp_matches(c, w) {
        assert(w =~= v);
    }
}

/// The full `>= a` comparator accepts exactly the versions at or above
/// `a` in the semver order.
pub proof fn lemma_interval_comparator_ge(a: VersionView, v: VersionView)
    ensures
        comp_matches(comparator_at(Op::GreaterEq, a), v) <==> version_le(a, v),
{
    let c = comparator_at(Op::GreaterEq, a);
    if spec_matches_exact(c, v) {
        assert(v =~= a);
    }
    if v == a {
        assert(spec_matches_exact(c, v));
    }
    assert(spec_matches_greater(c, v) == version_lt(a, v));
}

/// The full `<= a` comparator accepts exactly the versions at or below
/// `a` in the semver order.
pub proof fn lemma_interval_comparator_le(a: VersionView, v: VersionView)
    ensures
        comp_matches(comparator_at(Op::LessEq, a), v) <==> version_le(v, a),
{
    let c = comparator_at(Op::LessEq, a);
    if spec_matches_exact(c, v) {
        assert(v =~= a);
    }
    if v == a {
        assert(spec_matches_exact(c, v));
    }
    assert(spec_matches_less(c, v) == version_lt(v, a));
}

} // verus!
