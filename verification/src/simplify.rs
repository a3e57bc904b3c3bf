//! Requirement simplification: reduce a raw interval requirement to the
//! narrowest canonical form that accepts exactly the same subset of the
//! known version list.
use vstd::prelude::*;

use crate::requirement::{comp_matches, comparator_at, req_matches, Comparator, ComparatorView, Op,
    VersionReq};
use crate::version::{version_views, PreIdentView, Version, VersionView};

verus! {

/// Whether `r` accepts every version of `vs`.
pub open spec fn matches_all(r: Seq<ComparatorView>, vs: Seq<VersionView>) -> bool {
    forall|i: int| 0 <= i < vs.len() ==> req_matches(r, #[trigger] vs[i])
}

/// Whether `a` and `b` accept exactly the same versions of `vs`.
pub open spec fn same_matched(
    a: Seq<ComparatorView>,
    b: Seq<ComparatorView>,
    vs: Seq<VersionView>,
) -> bool {
    forall|i: int| 0 <= i < vs.len() ==> req_matches(a, #[trigger] vs[i]) == req_matches(
        b,
        vs[i],
    )
}

/// Whether `r` accepts exactly one version value of `vs` (duplicates of
/// that one value would still count as one).
pub open spec fn unique_match(r: Seq<ComparatorView>, vs: Seq<VersionView>) -> bool {
    &&& exists|i: int| 0 <= i < vs.len() && req_matches(r, #[trigger] vs[i])
    &&& forall|i: int, j: int|
        0 <= i < vs.len() && 0 <= j < vs.len() && req_matches(r, #[trigger] vs[i]) && req_matches(
            r,
            #[trigger] vs[j],
        ) ==> vs[i] == vs[j]
}

/// The single version value accepted by `r`, when [`unique_match`] holds.
pub open spec fn the_match(r: Seq<ComparatorView>, vs: Seq<VersionView>) -> VersionView {
    vs[choose|i: int| 0 <= i < vs.len() && req_matches(r, #[trigger] vs[i])]
}

/// The minor component a caret candidate copies from the raw requirement's
/// leading comparator, zero when that comparator names none.
pub open spec fn minor_or_zero(c: ComparatorView) -> int {
    match c.minor {
        Some(m) => m,
        None => 0,
    }
}

/// The patch component a caret candidate copies, zero when absent.
pub open spec fn patch_or_zero(c: ComparatorView) -> int {
    match c.patch {
        Some(p) => p,
        None => 0,
    }
}

/// The candidate `^major`.
pub open spec fn caret_major(c: ComparatorView) -> ComparatorView {
    ComparatorView {
        op: Op::Caret,
        major: c.major,
        minor: None,
        patch: None,
        pre: Seq::<PreIdentView>::empty(),
    }
}

/// The candidate `^major.minor`.
pub open spec fn caret_minor(c: ComparatorView) -> ComparatorView {
    ComparatorView {
        op: Op::Caret,
        major: c.major,
        minor: Some(minor_or_zero(c)),
        patch: None,
        pre: Seq::<PreIdentView>::empty(),
    }
}

/// The candidate `^major.minor.patch`.
pub open spec fn caret_patch(c: ComparatorView) -> ComparatorView {
    ComparatorView {
        op: Op::Caret,
        major: c.major,
        minor: Some(minor_or_zero(c)),
        patch: Some(patch_or_zero(c)),
        pre: Seq::<PreIdentView>::empty(),
    }
}

/// What the simplifier returns: the first of `*`, `= v`, `^major`,
/// `^major.minor`, `^major.minor.patch` that accepts exactly the versions
/// of `vs` that `r` accepts, else `r` itself.
pub open spec fn simplify_spec(
    r: Seq<ComparatorView>,
    vs: Seq<VersionView>,
) -> Seq<ComparatorView> {
    if r.len() == 0 || matches_all(r, vs) {
        Seq::<ComparatorView>::empty()
    } else if unique_match(r, vs) {
        seq![comparator_at(Op::Exact, the_match(r, vs))]
    } else if same_matched(seq![caret_major(r[0])], r, vs) {
        seq![caret_major(r[0])]
    } else if same_matched(seq![caret_minor(r[0])], r, vs) {
        seq![caret_minor(r[0])]
    } else if same_matched(seq![caret_patch(r[0])], r, vs) {
        seq![caret_patch(r[0])]
    } else {
        r
    }
}

/// Exec test for [`matches_all`].
fn exec_matches_all(r: &VersionReq, versions: &Vec<Version>) -> (res: bool)
    ensures
        res == matches_all(r@, version_views(versions@)),
{
    let ghost vs = version_views(versions@);
    let mut i: usize = 0;
    while i < versions.len()
        invariant
            i <= versions.len(),
            vs == version_views(versions@),
            forall|k: int| 0 <= k < i ==> req_matches(r@, #[trigger] vs[k]),
        decreases versions.len() - i,
    {
        if !r.matches(&versions[i]) {
            proof {
                assert(!req_matches(r@, vs[i as int]));
            }
            return false;
        }
        i = i + 1;
    }
    true
}

/// Exec test for [`same_matched`].
fn exec_same_matched(a: &VersionReq, b: &VersionReq, versions: &Vec<Version>) -> (res: bool)
    ensures
        res == same_matched(a@, b@, version_views(versions@)),
{
    let ghost vs = version_views(versions@);
    let mut i: usize = 0;
    while i < versions.len()
        invariant
            i <= versions.len(),
            vs == version_views(versions@),
            forall|k: int| 0 <= k < i ==> req_matches(a@, #[trigger] vs[k]) == req_matches(
                b@,
                vs[k],
            ),
        decreases versions.len() - i,
    {
        let ma = a.matches(&versions[i]);
        let mb = b.matches(&versions[i]);
        if ma != mb {
            proof {
                assert(req_matches(a@, vs[i as int]) != req_matches(b@, vs[i as int]));
            }
            return false;
        }
        i = i + 1;
    }
    true
}

/// The unique matching version of `vs` under `r`, when there is exactly one
/// matching value.
fn exec_unique_match(r: &VersionReq, versions: &Vec<Version>) -> (res: Option<Version>)
    ensures
        res is Some <==> unique_match(r@, version_views(versions@)),
        res matches Some(w) ==> w@ == the_match(r@, version_views(versions@)),
{
    let ghost vs = version_views(versions@);
    let mut found: Option<usize> = None;
    let mut i: usize = 0;
    while i < versions.len()
        invariant
            i <= versions.len(),
            vs == version_views(versions@),
            found matches Some(f) ==> f < i && req_matches(r@, vs[f as int]),
            found is None ==> forall|k: int| 0 <= k < i ==> !req_matches(r@, #[trigger] vs[k]),
            forall|k1: int, k2: int|
                0 <= k1 < i && 0 <= k2 < i && req_matches(r@, #[trigger] vs[k1]) && req_matches(
                    r@,
                    #[trigger] vs[k2],
                ) ==> vs[k1] == vs[k2],
        decreases versions.len() - i,
    {
        if r.matches(&versions[i]) {
            match found {
                None => {
                    found = Some(i);
                },
                Some(f) => {
                    if !crate::version::version_exec_eq(&versions[f], &versions[i]) {
                        proof {
                            assert(req_matches(r@, vs[f as int]) && req_matches(
                                r@,
                                vs[i as int],
                            ) && vs[f as int] != vs[i as int]);
                        }
                        return None;
                    }
                },
            }
        }
        i = i + 1;
    }
    match found {
        None => {
            proof {
                assert(!unique_match(r@, vs));
            }
            None
        },
        Some(f) => {
            proof {
                assert(req_matches(r@, vs[f as int]));
                assert(unique_match(r@, vs));
                let w = choose|k: int| 0 <= k < vs.len() && req_matches(r@, #[trigger] vs[k]);
                assert(vs[w] == vs[f as int]);
            }
            Some(versions[f].duplicate())
        },
    }
}

/// Reduce `version_req` to the narrowest canonical requirement accepting
/// exactly the same subset of `versions`: `*` when everything matches,
/// `= v` when a single version matches, else the broadest caret form with
/// the same matched set, else `version_req` unchanged.
pub fn simplify_version_req(version_req: VersionReq, versions: &Vec<Version>) -> (r: VersionReq)
    ensures
        r@ == simplify_spec(version_req@, version_views(versions@)),
{
    let ghost vs = version_views(versions@);
    if version_req.comparators.len() == 0 {
        return VersionReq::star();
    }
    if exec_matches_all(&version_req, versions) {
        return VersionReq::star();
    }
    match exec_unique_match(&version_req, versions) {
        Some(v) => {
            let mut comparators: Vec<Comparator> = Vec::new();
            comparators.push(Comparator::exact(&v));
            let r = VersionReq { comparators };
            proof {
                assert(r@ =~~= seq![comparator_at(Op::Exact, the_match(version_req@, vs))]);
            }
            return r;
        },
        None => {},
    }
    let c0_major = version_req.comparators[0].major;
    let c0_minor = match version_req.comparators[0].minor {
        Some(m) => m,
        None => 0,
    };
    let c0_patch = match version_req.comparators[0].patch {
        Some(p) => p,
        None => 0,
    };
    let ghost c0 = version_req@[0];

    let mut comparators: Vec<Comparator> = Vec::new();
    comparators.push(
        Comparator { op: Op::Caret, major: c0_major, minor: None, patch: None, pre: Vec::new() },
    );
    let proposal = VersionReq { comparators };
    proof {
        assert(proposal@ =~~= seq![caret_major(c0)]);
    }
    if exec_same_matched(&proposal, &version_req, versions) {
        return proposal;
    }

    let mut comparators: Vec<Comparator> = Vec::new();
    comparators.push(
        Comparator {
            op: Op::Caret,
            major: c0_major,
            minor: Some(c0_minor),
            patch: None,
            pre: Vec::new(),
        },
    );
    let proposal = VersionReq { comparators };
    proof {
        assert(proposal@ =~~= seq![caret_minor(c0)]);
    }
    if exec_same_matched(&proposal, &version_req, versions) {
        return proposal;
    }

    let mut comparators: Vec<Comparator> = Vec::new();
    comparators.push(
        Comparator {
            op: Op::Caret,
            major: c0_major,
            minor: Some(c0_minor),
            patch: Some(c0_patch),
            pre: Vec::new(),
        },
    );
    let proposal = VersionReq { comparators };
    proof {
        assert(proposal@ =~~= seq![caret_patch(c0)]);
    }
    if exec_same_matched(&proposal, &version_req, versions) {
        return proposal;
    }

    version_req
}

/// The simplifier never changes which versions of the list are accepted:
/// its output matches a version of `vs` exactly when its input does.
pub proof fn lemma_simplify_preserves_matches(
    r: Seq<ComparatorView>,
    vs: Seq<VersionView>,
    i: int,
)
    requires
        0 <= i < vs.len(),
    ensures
        req_matches(simplify_spec(r, vs), vs[i]) == req_matches(r, vs[i]),
{
    let out = simplify_spec(r, vs);
    if r.len() == 0 {
        assert(req_matches(out, vs[i]) == req_matches(r, vs[i]));
    } else if matches_all(r, vs) {
        assert(req_matches(out, vs[i]));
        assert(req_matches(r, vs[i]));
    } else if unique_match(r, vs) {
        let w = the_match(r, vs);
        assert(req_matches(r, w));
        crate::requirement::lemma_exact_comparator_pins(w, vs[i]);
        assert(out[0] == comparator_at(Op::Exact, w));
        if req_matches(out, vs[i]) {
            assert(comp_matches(out[0], vs[i]));
            assert(vs[i] == w);
        }
        if req_matches(r, vs[i]) {
            assert(vs[i] == w);
            assert(forall|k: int| 0 <= k < out.len() ==> comp_matches(#[trigger] out[k], vs[i]));
        }
    } else {
    }
}

/// Simplifying a second time changes nothing: the simplifier's output is a
/// fixed point of the simplifier for the same version list.
pub proof fn lemma_simplify_idempotent(r: Seq<ComparatorView>, vs: Seq<VersionView>)
    ensures
        simplify_spec(simplify_spec(r, vs), vs) == simplify_spec(r, vs),
{
    let out = simplify_spec(r, vs);
    if r.len() == 0 {
        assert(out.len() == 0);
        assert(matches_all(out, vs)) by {
            assert(forall|i: int| 0 <= i < vs.len() ==> req_matches(out, #[trigger] vs[i]));
        }
        assert(simplify_spec(out, vs) =~= out);
    } else if matches_all(r, vs) {
        assert(out.len() == 0);
        assert(simplify_spec(out, vs) =~= out);
    } else if unique_match(r, vs) {
        let w = the_match(r, vs);
        assert(req_matches(r, w));
        assert(out =~= seq![comparator_at(Op::Exact, w)]);
        // Every version the exact form accepts is w itself, and w matched r,
        // so the exact form still fails wherever r failed.
        assert(forall|i: int| 0 <= i < vs.len() ==> (req_matches(out, #[trigger] vs[i]) <==> vs[i]
            == w)) by {
            assert forall|i: int| 0 <= i < vs.len() implies (req_matches(out, #[trigger] vs[i])
                <==> vs[i] == w) by {
                crate::requirement::lemma_exact_comparator_pins(w, vs[i]);
                if vs[i] == w {
                    assert(forall|k: int|
                        0 <= k < out.len() ==> comp_matches(#[trigger] out[k], vs[i]));
                }
            }
        }
        assert(!matches_all(out, vs)) by {
            let bad = choose|i: int| 0 <= i < vs.len() && !req_matches(r, #[trigger] vs[i]);
            assert(exists|i: int| 0 <= i < vs.len() && !req_matches(r, #[trigger] vs[i]));
            assert(!req_matches(r, vs[bad]));
            assert(vs[bad] != w);
            assert(!req_matches(out, vs[bad]));
        }
        assert(unique_match(out, vs)) by {
            let wi = choose|i: int| 0 <= i < vs.len() && req_matches(r, #[trigger] vs[i]);
            assert(vs[wi] == w);
            assert(req_matches(out, vs[wi]));
        }
        assert(the_match(out, vs) == w) by {
            let oi = choose|i: int| 0 <= i < vs.len() && req_matches(out, #[trigger] vs[i]);
            assert(vs[oi] == w);
        }
        assert(simplify_spec(out, vs) =~= out);
    } else if same_matched(seq![caret_major(r[0])], r, vs) {
        let c1 = seq![caret_major(r[0])];
        assert(out == c1);
        lemma_same_matched_carries(c1, r, vs);
        assert(caret_major(c1[0]) == c1[0]);
        assert(seq![caret_major(c1[0])] =~= c1);
        assert(same_matched(seq![caret_major(c1[0])], c1, vs));
        assert(simplify_spec(out, vs) =~= out);
    } else if same_matched(seq![caret_minor(r[0])], r, vs) {
        let c2 = seq![caret_minor(r[0])];
        assert(out == c2);
        lemma_same_matched_carries(c2, r, vs);
        assert(caret_major(c2[0]) == caret_major(r[0]));
        assert(seq![caret_major(c2[0])] =~= seq![caret_major(r[0])]);
        assert(!same_matched(seq![caret_major(c2[0])], c2, vs)) by {
            if same_matched(seq![caret_major(c2[0])], c2, vs) {
                assert(same_matched(seq![caret_major(r[0])], r, vs));
            }
        }
        assert(caret_minor(c2[0]) == c2[0]);
        assert(seq![caret_minor(c2[0])] =~= c2);
        assert(same_matched(seq![caret_minor(c2[0])], c2, vs));
        assert(simplify_spec(out, vs) =~= out);
    } else if same_matched(seq![caret_patch(r[0])], r, vs) {
        let c3 = seq![caret_patch(r[0])];
        assert(out == c3);
        lemma_same_matched_carries(c3, r, vs);
        assert(caret_major(c3[0]) == caret_major(r[0]));
        assert(seq![caret_major(c3[0])] =~= seq![caret_major(r[0])]);
        assert(!same_matched(seq![caret_major(c3[0])], c3, vs)) by {
            if same_matched(seq![caret_major(c3[0])], c3, vs) {
                assert(same_matched(seq![caret_major(r[0])], r, vs));
            }
        }
        assert(caret_minor(c3[0]) == caret_minor(r[0]));
        assert(seq![caret_minor(c3[0])] =~= seq![caret_minor(r[0])]);
        assert(!same_matched(seq![caret_minor(c3[0])], c3, vs)) by {
            if same_matched(seq![caret_minor(c3[0])], c3, vs) {
                assert(same_matched(seq![caret_minor(r[0])], r, vs));
            }
        }
        assert(caret_patch(c3[0]) == c3[0]);
        assert(seq![caret_patch(c3[0])] =~= c3);
        assert(same_matched(seq![caret_patch(c3[0])], c3, vs));
        assert(simplify_spec(out, vs) =~= out);
    } else {
        assert(out == r);
    }
}

/// The outcome flags that steer the simplifier are the same for any two
/// requirements with the same matched set.
proof fn lemma_same_matched_carries(
    a: Seq<ComparatorView>,
    b: Seq<ComparatorView>,
    vs: Seq<VersionView>,
)
    requires
        same_matched(a, b, vs),
    ensures
        matches_all(a, vs) == matches_all(b, vs),
        unique_match(a, vs) == unique_match(b, vs),
        forall|c: Seq<ComparatorView>|
            #[trigger] same_matched(c, a, vs) == same_matched(c, b, vs),
{
    assert(forall|i: int| 0 <= i < vs.len() ==> req_matches(a, #[trigger] vs[i]) == req_matches(
        b,
        vs[i],
    ));
    if unique_match(a, vs) {
        assert(unique_match(b, vs)) by {
            let i = choose|i: int| 0 <= i < vs.len() && req_matches(a, #[trigger] vs[i]);
            assert(req_matches(b, vs[i]));
        }
    }
    if unique_match(b, vs) {
        assert(unique_match(a, vs)) by {
            let i = choose|i: int| 0 <= i < vs.len() && req_matches(b, #[trigger] vs[i]);
            assert(req_matches(a, vs[i]));
        }
    }
    assert forall|c: Seq<ComparatorView>|
        #[trigger] same_matched(c, a, vs) == same_matched(c, b, vs) by {
        if same_matched(c, a, vs) {
            assert(same_matched(c, b, vs));
        }
        if same_matched(c, b, vs) {
            assert(same_matched(c, a, vs));
        }
    }
}


/// A requirement whose matched set over `vs` is exactly that of the caret
/// of its leading comparator's major comes back from the simplifier as
/// exactly that caret form — provided it does not match all of `vs` (then
/// `*` wins) and matches more than one value (then `= v` wins).
pub proof fn lemma_caret_major_round_trip(r: Seq<ComparatorView>, vs: Seq<VersionView>)
    requires
        r.len() > 0,
        same_matched(seq![caret_major(r[0])], r, vs),
        !matches_all(r, vs),
        !unique_match(r, vs),
    ensures
        simplify_spec(r, vs) == seq![caret_major(r[0])],
{
}

/// As [`lemma_caret_major_round_trip`], for `^major.minor`: when the bare
/// major caret does not have the same matched set but the minor form
/// does, the minor form is returned.
pub proof fn lemma_caret_minor_round_trip(r: Seq<ComparatorView>, vs: Seq<VersionView>)
    requires
        r.len() > 0,
        !same_matched(seq![caret_major(r[0])], r, vs),
        same_matched(seq![caret_minor(r[0])], r, vs),
        !matches_all(r, vs),
        !unique_match(r, vs),
    ensures
        simplify_spec(r, vs) == seq![caret_minor(r[0])],
{
}

/// As [`lemma_caret_major_round_trip`], for `^major.minor.patch`: when
/// neither broader caret has the same matched set but the patch form
/// does, the patch form is returned.
pub proof fn lemma_caret_patch_round_trip(r: Seq<ComparatorView>, vs: Seq<VersionView>)
    requires
        r.len() > 0,
        !same_matched(seq![caret_major(r[0])], r, vs),
        !same_matched(seq![caret_minor(r[0])], r, vs),
        same_matched(seq![caret_patch(r[0])], r, vs),
        !matches_all(r, vs),
        !unique_match(r, vs),
    ensures
        simplify_spec(r, vs) == seq![caret_patch(r[0])],
{
}

} // verus!
