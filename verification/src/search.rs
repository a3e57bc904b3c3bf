//! The interval searcher: starting from a known-good seed inside a sorted
//! candidate list, a two-sided binary search discovers the maximal
//! contiguous interval of versions that pass the check, spending at most
//! `2·log₂(n+1) + 2` probes. The contiguity of the passing set is a working
//! hypothesis, not a theorem: when it fails, the result is a conservative
//! inner interval bounded by the recorded verdicts.
use vstd::prelude::*;

use crate::error::Error;
use crate::probe::{probe, ProbeLedger};
use crate::requirement::{comparator_at, Comparator, ComparatorView, Op, VersionReq};
use crate::validator::{Check, CheckOutcome, CheckRecord, RepoValidator, Session};
use crate::version::{version_views, Version, VersionView};

verus! {

/// The ceiling of the base-two logarithm, with `log2c(n) == 0` for `n <= 1`.
pub open spec fn log2c(n: int) -> nat
    decreases n,
{
    if n <= 1 {
        0
    } else {
        1 + log2c((n + 1) / 2)
    }
}

/// [`log2c`] grows monotonically.
pub proof fn lemma_log2c_mono(m: int, n: int)
    requires
        m <= n,
    ensures
        log2c(m) <= log2c(n),
    decreases n,
{
    if m > 1 {
        vstd::arithmetic::div_mod::lemma_div_is_ordered(m + 1, n + 1, 2);
        lemma_log2c_mono((m + 1) / 2, (n + 1) / 2);
    }
}

/// Every recorded verdict is about a candidate version.
pub open spec fn ledger_in(led: Map<VersionView, bool>, vs: Seq<VersionView>) -> bool {
    forall|w: VersionView| #[trigger] led.contains_key(w) ==> vs.contains(w)
}

/// The new ledger keeps every verdict of the old one.
pub open spec fn ledger_extends(new: Map<VersionView, bool>, old: Map<VersionView, bool>) -> bool {
    forall|w: VersionView| #[trigger] old.contains_key(w) ==> new.contains_key(w) && new[w]
        == old[w]
}

/// The new trace starts with the old one.
pub open spec fn trace_prefix(new: Seq<CheckRecord>, old: Seq<CheckRecord>) -> bool {
    new.len() >= old.len() && forall|j: int| 0 <= j < old.len() ==> new[j] == old[j]
}

/// One check of a search: the starting pins with this dependency alone
/// moved to one of its candidates that had no verdict when the search
/// began. No other dependency moves, so every probe measures this one in
/// isolation.
pub open spec fn probe_shaped(
    c: CheckRecord,
    pins0: Map<Seq<char>, VersionView>,
    name: Seq<char>,
    led0: Map<VersionView, bool>,
    vs: Seq<VersionView>,
) -> bool {
    exists|w: VersionView|
        #![trigger pins0.insert(name, w)]
        vs.contains(w) && !led0.contains_key(w) && c.0 == pins0.insert(name, w)
}

/// As [`probe_shaped`], and the probed version has a verdict in `led1`
/// that is exactly what the check's recorded outcome reported: a verdict
/// cannot be fabricated, it is read off the trace.
pub open spec fn probe_recorded(
    c: CheckRecord,
    pins0: Map<Seq<char>, VersionView>,
    name: Seq<char>,
    led0: Map<VersionView, bool>,
    led1: Map<VersionView, bool>,
) -> bool {
    exists|w: VersionView|
        #![trigger pins0.insert(name, w)]
        !led0.contains_key(w) && led1.contains_key(w) && c.0 == pins0.insert(name, w) && c.1 == (
        if led1[w] {
            CheckOutcome::Passed
        } else {
            CheckOutcome::Invalid
        })
}

/// No two checks of a range are issued under the same pin map: no version
/// of this dependency is probed twice.
pub open spec fn checks_distinct(checks: Seq<CheckRecord>, lo: int) -> bool {
    forall|j1: int, j2: int|
        lo <= j1 < j2 < checks.len() ==> (#[trigger] checks[j1]).0 != (#[trigger] checks[j2]).0
}

/// How a search ends on a hard validator error: the very last check of
/// the trace is the one that failed fatally — nothing ran after it — it
/// probed a candidate of this dependency, and that candidate got no
/// verdict.
pub open spec fn fatal_tail(
    checks: Seq<CheckRecord>,
    old_len: int,
    pins0: Map<Seq<char>, VersionView>,
    name: Seq<char>,
    led: Map<VersionView, bool>,
    vs: Seq<VersionView>,
) -> bool {
    &&& checks.len() > old_len
    &&& checks.last().1 is Fatal
    &&& exists|w: VersionView|
        #![trigger pins0.insert(name, w)]
        vs.contains(w) && !led.contains_key(w) && checks.last().0 == pins0.insert(name, w)
}

/// The pins after a search: unchanged, or this dependency moved to one of
/// its candidates.
pub open spec fn pins_probed(
    pins_new: Map<Seq<char>, VersionView>,
    pins0: Map<Seq<char>, VersionView>,
    name: Seq<char>,
    vs: Seq<VersionView>,
) -> bool {
    pins_new == pins0 || exists|k: int|
        0 <= k < vs.len() && pins_new == pins0.insert(name, #[trigger] vs[k])
}

proof fn lemma_insert_distinct(
    p: Map<Seq<char>, VersionView>,
    name: Seq<char>,
    w1: VersionView,
    w2: VersionView,
)
    requires
        w1 != w2,
    ensures
        p.insert(name, w1) != p.insert(name, w2),
{
    assert(p.insert(name, w1)[name] == w1);
    assert(p.insert(name, w2)[name] == w2);
}

/// One memoized probe of the candidate at `idx`, with its bookkeeping
/// stated against the search's starting pins `pins0` and starting ledger
/// `led0`: the trace grows by at most one check, every check moves only
/// this dependency and only to a fresh candidate, and no pin map repeats.
#[verifier::rlimit(100)]
fn probe_candidate<V: RepoValidator>(
    session: &mut Session<V>,
    ledger: &mut ProbeLedger,
    name: &String,
    versions: &Vec<Version>,
    idx: usize,
    check: &Check,
    Ghost(pins0): Ghost<Map<Seq<char>, VersionView>>,
    Ghost(led0): Ghost<Map<VersionView, bool>>,
    Ghost(c0len): Ghost<int>,
) -> (r: Result<bool, Error>)
    requires
        old(ledger).wf(),
        idx < versions@.len(),
        ledger_in(old(ledger)@, version_views(versions@)),
        ledger_extends(old(ledger)@, led0),
        pins_probed(old(session).pins@, pins0, name@, version_views(versions@)),
        0 <= c0len <= old(session).checks@.len(),
        forall|j: int|
            c0len <= j < old(session).checks@.len() ==> probe_recorded(
                #[trigger] old(session).checks@[j],
                pins0,
                name@,
                led0,
                old(ledger)@,
            ),
        checks_distinct(old(session).checks@, c0len),
    ensures
        final(ledger).wf(),
        ledger_in(final(ledger)@, version_views(versions@)),
        ledger_extends(final(ledger)@, old(ledger)@),
        ledger_extends(final(ledger)@, led0),
        final(session).written@ == old(session).written@,
        pins_probed(final(session).pins@, pins0, name@, version_views(versions@)),
        trace_prefix(final(session).checks@, old(session).checks@),
        final(session).checks@.len() <= old(session).checks@.len() + 1,
        forall|j: int|
            c0len <= j < final(session).checks@.len() ==> probe_shaped(
                #[trigger] final(session).checks@[j],
                pins0,
                name@,
                led0,
                version_views(versions@),
            ),
        r is Ok ==> forall|j: int|
            c0len <= j < final(session).checks@.len() ==> probe_recorded(
                #[trigger] final(session).checks@[j],
                pins0,
                name@,
                led0,
                final(ledger)@,
            ),
        checks_distinct(final(session).checks@, c0len),
        old(ledger)@.contains_key(version_views(versions@)[idx as int])
            ==> final(session).checks@ == old(session).checks@ && final(ledger)@ == old(ledger)@,
        match r {
            Ok(b) => final(ledger)@.contains_key(version_views(versions@)[idx as int])
                && final(ledger)@[version_views(versions@)[idx as int]] == b,
            Err(_) => true,
        },
        r is Err ==> fatal_tail(
            final(session).checks@,
            old(session).checks@.len() as int,
            pins0,
            name@,
            final(ledger)@,
            version_views(versions@),
        ),
{
    let ghost vs = version_views(versions@);
    let ghost v = vs[idx as int];
    let ghost cpre = old(session).checks@;
    let ghost led_pre = old(ledger)@;
    let r = probe(ledger, session, name, &versions[idx], check);
    let ghost oc = (match r {
        Ok(verdict) => if verdict {
            CheckOutcome::Passed
        } else {
            CheckOutcome::Invalid
        },
        Err(_) => CheckOutcome::Fatal,
    });
    proof {
        // Old checks keep both shapes: the ledger only grows.
        assert forall|j: int| c0len <= j < cpre.len() implies probe_shaped(
            #[trigger] session.checks@[j],
            pins0,
            name@,
            led0,
            vs,
        ) && probe_recorded(session.checks@[j], pins0, name@, led0, ledger@) by {
            assert(session.checks@[j] == cpre[j]);
            assert(probe_recorded(cpre[j], pins0, name@, led0, led_pre));
            let w = choose|w: VersionView|
                #![trigger pins0.insert(name@, w)]
                !led0.contains_key(w) && led_pre.contains_key(w) && cpre[j].0 == pins0.insert(
                    name@,
                    w,
                ) && cpre[j].1 == (if led_pre[w] {
                    CheckOutcome::Passed
                } else {
                    CheckOutcome::Invalid
                });
            assert(ledger@.contains_key(w));
            assert(ledger@[w] == led_pre[w]);
            assert(vs.contains(w));
            assert(!led0.contains_key(w) && ledger@.contains_key(w) && session.checks@[j].0
                == pins0.insert(name@, w) && session.checks@[j].1 == (if ledger@[w] {
                CheckOutcome::Passed
            } else {
                CheckOutcome::Invalid
            }));
            assert(vs.contains(w) && !led0.contains_key(w) && session.checks@[j].0 == pins0.insert(
                name@,
                w,
            ));
        }
        if !led_pre.contains_key(v) {
            // A real check ran under the current pins with this dependency
            // moved to v; that map equals the starting pins with the move.
            let cur = old(session).pins@;
            assert(cur.insert(name@, v) =~= pins0.insert(name@, v));
            let newc = pins0.insert(name@, v);
            assert(session.checks@ =~= cpre.push((newc, oc)));
            assert(ledger_in(ledger@, vs)) by {
                assert forall|w: VersionView| #[trigger] ledger@.contains_key(w) implies vs.contains(
                    w,
                ) by {
                    if w == v {
                        assert(vs[idx as int] == v);
                    } else {
                        assert(led_pre.contains_key(w));
                    }
                }
            }
            // The pushed check is shaped, and recorded when no hard error
            // struck.
            assert(vs.contains(v)) by {
                assert(vs[idx as int] == v);
            }
            assert(probe_shaped(session.checks@[cpre.len() as int], pins0, name@, led0, vs)) by {
                assert(vs.contains(v) && !led0.contains_key(v)
                    && session.checks@[cpre.len() as int].0 == pins0.insert(name@, v));
            }
            if r is Ok {
                assert(probe_recorded(session.checks@[cpre.len() as int], pins0, name@, led0, ledger@))
                    by {
                    assert(!led0.contains_key(v) && ledger@.contains_key(v)
                        && session.checks@[cpre.len() as int].0 == pins0.insert(name@, v)
                        && session.checks@[cpre.len() as int].1 == (if ledger@[v] {
                        CheckOutcome::Passed
                    } else {
                        CheckOutcome::Invalid
                    }));
                }
            } else {
                assert(fatal_tail(session.checks@, cpre.len() as int, pins0, name@, ledger@, vs))
                    by {
                    assert(vs.contains(v) && !ledger@.contains_key(v) && session.checks@.last().0
                        == pins0.insert(name@, v));
                }
            }
            assert(checks_distinct(session.checks@, c0len)) by {
                assert forall|j1: int, j2: int|
                    c0len <= j1 < j2 < session.checks@.len() implies (
                #[trigger] session.checks@[j1]).0 != (#[trigger] session.checks@[j2]).0 by {
                    if j2 == session.checks@.len() - 1 {
                        assert(session.checks@[j1] == cpre[j1]);
                        assert(probe_recorded(cpre[j1], pins0, name@, led0, led_pre));
                        let w = choose|w: VersionView|
                            #![trigger pins0.insert(name@, w)]
                            !led0.contains_key(w) && led_pre.contains_key(w) && cpre[j1].0
                                == pins0.insert(name@, w) && cpre[j1].1 == (if led_pre[w] {
                                CheckOutcome::Passed
                            } else {
                                CheckOutcome::Invalid
                            });
                        assert(w != v);
                        lemma_insert_distinct(pins0, name@, w, v);
                    }
                }
            }
            assert(pins_probed(session.pins@, pins0, name@, vs)) by {
                assert(session.pins@ =~= pins0.insert(name@, vs[idx as int]));
            }
        }
    }
    r
}

/// The raw interval of a search outcome: a lower bound at the leftmost
/// surviving version when the left side hit a failure, an upper bound at
/// the rightmost when the right side did, nothing on a side that stayed
/// fully open.
pub struct IntervalBounds {
    pub left_valid: usize,
    pub right_valid: usize,
    pub left_bounded: bool,
    pub right_bounded: bool,
}

/// The raw requirement a bounds outcome denotes over the candidate list.
pub open spec fn raw_req(b: IntervalBounds, vs: Seq<VersionView>) -> Seq<ComparatorView> {
    (if b.left_bounded {
        seq![comparator_at(Op::GreaterEq, vs[b.left_valid as int])]
    } else {
        Seq::<ComparatorView>::empty()
    }) + (if b.right_bounded {
        seq![comparator_at(Op::LessEq, vs[b.right_valid as int])]
    } else {
        Seq::<ComparatorView>::empty()
    })
}

/// Inside a sorted candidate list, every version lying between the two
/// surviving bounds matches the raw interval requirement.
pub proof fn lemma_raw_req_matches_inside(b: IntervalBounds, vs: Seq<VersionView>, si: int)
    requires
        crate::version::sorted_le(vs),
        b.left_valid as int <= si <= b.right_valid as int,
        (b.right_valid as int) < vs.len(),
    ensures
        crate::requirement::req_matches(raw_req(b, vs), vs[si]),
{
    let r = raw_req(b, vs);
    assert forall|k: int| 0 <= k < r.len() implies crate::requirement::comp_matches(
        #[trigger] r[k],
        vs[si],
    ) by {
        if b.left_bounded && k == 0 {
            crate::requirement::lemma_interval_comparator_ge(vs[b.left_valid as int], vs[si]);
        } else {
            crate::requirement::lemma_interval_comparator_le(vs[b.right_valid as int], vs[si]);
        }
    }
}

/// Over a sorted candidate list, the set a raw interval accepts is
/// convex: whatever lies between two accepted candidates is accepted too,
/// so the accepted candidates form one contiguous band. The simplifier
/// never changes which candidates are accepted, so the final requirement
/// keeps the same contiguous band.
pub proof fn lemma_raw_req_contiguous(
    b: IntervalBounds,
    vs: Seq<VersionView>,
    i: int,
    j: int,
    k: int,
)
    requires
        crate::version::sorted_le(vs),
        0 <= i <= j <= k < vs.len(),
        crate::requirement::req_matches(raw_req(b, vs), vs[i]),
        crate::requirement::req_matches(raw_req(b, vs), vs[k]),
    ensures
        crate::requirement::req_matches(raw_req(b, vs), vs[j]),
{
    let r = raw_req(b, vs);
    assert forall|c: int| 0 <= c < r.len() implies crate::requirement::comp_matches(
        #[trigger] r[c],
        vs[j],
    ) by {
        if b.left_bounded && c == 0 {
            let lo = vs[b.left_valid as int];
            assert(crate::requirement::comp_matches(r[0], vs[i]));
            crate::requirement::lemma_interval_comparator_ge(lo, vs[i]);
            crate::requirement::lemma_interval_comparator_ge(lo, vs[j]);
            crate::version::lemma_version_le_transitive(lo, vs[i], vs[j]);
        } else {
            let hi = vs[b.right_valid as int];
            assert(crate::requirement::comp_matches(r[c], vs[k]));
            crate::requirement::lemma_interval_comparator_le(hi, vs[k]);
            crate::requirement::lemma_interval_comparator_le(hi, vs[j]);
            crate::version::lemma_version_le_transitive(vs[j], vs[k], hi);
        }
    }
}

/// Build the raw interval requirement for a bounds outcome.
pub fn interval_to_req(b: &IntervalBounds, versions: &Vec<Version>) -> (r: VersionReq)
    requires
        b.left_valid < versions@.len(),
        b.right_valid < versions@.len(),
    ensures
        r@ == raw_req(*b, version_views(versions@)),
{
    let mut comparators: Vec<Comparator> = Vec::new();
    if b.left_bounded {
        comparators.push(Comparator::greater_eq(&versions[b.left_valid]));
    }
    if b.right_bounded {
        comparators.push(Comparator::less_eq(&versions[b.right_valid]));
    }
    let r = VersionReq { comparators };
    proof {
        assert(r@ =~= raw_req(*b, version_views(versions@)));
    }
    r
}

/// What a finished boundary search guarantees on one side, over the final
/// ledger: either the side is open and the outermost candidate passed, or
/// it is bounded by a recorded failure immediately outside the surviving
/// index (the surviving index itself carries a recorded pass unless it is
/// the seed, which the baseline vouched for).
pub open spec fn side_bounded_ok(
    bounded: bool,
    surviving: int,
    outermost: int,
    seed: int,
    step: int,
    led: Map<VersionView, bool>,
    vs: Seq<VersionView>,
) -> bool {
    &&& (!bounded ==> surviving == seed && led.contains_key(vs[outermost]) && led[vs[outermost]]
        == true)
    &&& (bounded ==> (surviving == seed || (led.contains_key(vs[surviving]) && led[vs[surviving]]
        == true)))
    &&& (bounded ==> (if surviving != outermost {
        led.contains_key(vs[surviving + step]) && led[vs[surviving + step]] == false
    } else {
        led.contains_key(vs[outermost]) && led[vs[outermost]] == false
    }))
}

/// The left boundary search: probe the lowest candidate; when it fails,
/// bisect between the highest known failure below the seed and the lowest
/// known pass.
#[verifier::rlimit(60)]
fn search_left<V: RepoValidator>(
    session: &mut Session<V>,
    ledger: &mut ProbeLedger,
    name: &String,
    versions: &Vec<Version>,
    seed_index: usize,
    check: &Check,
    Ghost(pins0): Ghost<Map<Seq<char>, VersionView>>,
    Ghost(led0): Ghost<Map<VersionView, bool>>,
    Ghost(c0len): Ghost<int>,
) -> (r: Result<(bool, usize), Error>)
    requires
        old(ledger).wf(),
        ledger_in(old(ledger)@, version_views(versions@)),
        ledger_extends(old(ledger)@, led0),
        seed_index < versions@.len(),
        pins_probed(old(session).pins@, pins0, name@, version_views(versions@)),
        0 <= c0len <= old(session).checks@.len(),
        forall|j: int|
            c0len <= j < old(session).checks@.len() ==> probe_recorded(
                #[trigger] old(session).checks@[j],
                pins0,
                name@,
                led0,
                old(ledger)@,
            ),
        checks_distinct(old(session).checks@, c0len),
    ensures
        final(ledger).wf(),
        ledger_in(final(ledger)@, version_views(versions@)),
        ledger_extends(final(ledger)@, old(ledger)@),
        ledger_extends(final(ledger)@, led0),
        final(session).written@ == old(session).written@,
        pins_probed(final(session).pins@, pins0, name@, version_views(versions@)),
        trace_prefix(final(session).checks@, old(session).checks@),
        final(session).checks@.len() <= old(session).checks@.len() + 1 + log2c(seed_index as int),
        forall|j: int|
            c0len <= j < final(session).checks@.len() ==> probe_shaped(
                #[trigger] final(session).checks@[j],
                pins0,
                name@,
                led0,
                version_views(versions@),
            ),
        r is Ok ==> forall|j: int|
            c0len <= j < final(session).checks@.len() ==> probe_recorded(
                #[trigger] final(session).checks@[j],
                pins0,
                name@,
                led0,
                final(ledger)@,
            ),
        checks_distinct(final(session).checks@, c0len),
        match r {
            Ok((bounded, lv)) => lv <= seed_index && side_bounded_ok(
                bounded,
                lv as int,
                0,
                seed_index as int,
                -1,
                final(ledger)@,
                version_views(versions@),
            ),
            Err(_) => fatal_tail(
                final(session).checks@,
                old(session).checks@.len() as int,
                pins0,
                name@,
                final(ledger)@,
                version_views(versions@),
            ),
        },
{
    let ghost vs = version_views(versions@);
    let first_ok = match probe_candidate(
        session,
        ledger,
        name,
        versions,
        0,
        check,
        Ghost(pins0),
        Ghost(led0),
        Ghost(c0len),
    ) {
        Ok(b) => b,
        Err(e) => {
            return Err(e);
        },
    };
    if first_ok {
        return Ok((false, seed_index));
    }
    let mut left_invalid: usize = 0;
    let mut left_valid: usize = seed_index;
    while left_valid - left_invalid >= 2
        invariant
            left_invalid <= left_valid,
            left_invalid < left_valid || left_valid == 0,
            left_valid <= seed_index,
            seed_index < versions@.len(),
            vs == version_views(versions@),
            ledger.wf(),
            ledger_in(ledger@, vs),
            ledger_extends(ledger@, old(ledger)@),
            ledger_extends(ledger@, led0),
            ledger@.contains_key(vs[left_invalid as int]),
            ledger@[vs[left_invalid as int]] == false,
            left_valid == seed_index || (ledger@.contains_key(vs[left_valid as int]) && ledger@[
                vs[left_valid as int]] == true),
            session.written@ == old(session).written@,
            pins_probed(session.pins@, pins0, name@, vs),
            trace_prefix(session.checks@, old(session).checks@),
            0 <= c0len <= old(session).checks@.len(),
            session.checks@.len() + log2c(left_valid - left_invalid)
                <= old(session).checks@.len() + 1 + log2c(seed_index as int),
            forall|j: int|
                c0len <= j < session.checks@.len() ==> probe_shaped(
                    #[trigger] session.checks@[j],
                    pins0,
                    name@,
                    led0,
                    vs,
                ),
            forall|j: int|
                c0len <= j < session.checks@.len() ==> probe_recorded(
                    #[trigger] session.checks@[j],
                    pins0,
                    name@,
                    led0,
                    ledger@,
                ),
            checks_distinct(session.checks@, c0len),
        decreases left_valid - left_invalid,
    {
        let gap = left_valid - left_invalid;
        let mid = left_invalid + gap / 2;
        proof {
            vstd::arithmetic::div_mod::lemma_fundamental_div_mod(gap as int, 2);
            vstd::arithmetic::div_mod::lemma_mod_bound(gap as int, 2);
            assert(left_invalid < mid < left_valid);
        }
        let ghost cpre_len = session.checks@.len() as int;
        let ok = match probe_candidate(
            session,
            ledger,
            name,
            versions,
            mid,
            check,
            Ghost(pins0),
            Ghost(led0),
            Ghost(c0len),
        ) {
            Ok(b) => b,
            Err(e) => {
                proof {
                    assert(log2c((left_valid - left_invalid) as int) >= 1);
                }
                return Err(e);
            },
        };
        proof {
            let g = (left_valid - left_invalid) as int;
            assert(log2c(g) == 1 + log2c((g + 1) / 2));
            vstd::arithmetic::div_mod::lemma_fundamental_div_mod(g, 2);
            vstd::arithmetic::div_mod::lemma_mod_bound(g, 2);
            vstd::arithmetic::div_mod::lemma_fundamental_div_mod(g + 1, 2);
            vstd::arithmetic::div_mod::lemma_mod_bound(g + 1, 2);
            assert(mid - left_invalid <= (g + 1) / 2);
            assert(left_valid - mid <= (g + 1) / 2);
            lemma_log2c_mono(mid - left_invalid, (g + 1) / 2);
            lemma_log2c_mono(left_valid - mid, (g + 1) / 2);
        }
        if ok {
            left_valid = mid;
        } else {
            left_invalid = mid;
        }
    }
    Ok((true, left_valid))
}

/// The right boundary search, the mirror image of the left one: probe the
/// highest candidate; when it fails, bisect between the lowest known
/// failure above the seed and the highest known pass.
#[verifier::rlimit(60)]
fn search_right<V: RepoValidator>(
    session: &mut Session<V>,
    ledger: &mut ProbeLedger,
    name: &String,
    versions: &Vec<Version>,
    seed_index: usize,
    check: &Check,
    Ghost(pins0): Ghost<Map<Seq<char>, VersionView>>,
    Ghost(led0): Ghost<Map<VersionView, bool>>,
    Ghost(c0len): Ghost<int>,
) -> (r: Result<(bool, usize), Error>)
    requires
        old(ledger).wf(),
        ledger_in(old(ledger)@, version_views(versions@)),
        ledger_extends(old(ledger)@, led0),
        seed_index < versions@.len(),
        pins_probed(old(session).pins@, pins0, name@, version_views(versions@)),
        0 <= c0len <= old(session).checks@.len(),
        forall|j: int|
            c0len <= j < old(session).checks@.len() ==> probe_recorded(
                #[trigger] old(session).checks@[j],
                pins0,
                name@,
                led0,
                old(ledger)@,
            ),
        checks_distinct(old(session).checks@, c0len),
    ensures
        final(ledger).wf(),
        ledger_in(final(ledger)@, version_views(versions@)),
        ledger_extends(final(ledger)@, old(ledger)@),
        ledger_extends(final(ledger)@, led0),
        final(session).written@ == old(session).written@,
        pins_probed(final(session).pins@, pins0, name@, version_views(versions@)),
        trace_prefix(final(session).checks@, old(session).checks@),
        final(session).checks@.len() <= old(session).checks@.len() + 1 + log2c(versions@.len() as int - 1 - seed_index),
        forall|j: int|
            c0len <= j < final(session).checks@.len() ==> probe_shaped(
                #[trigger] final(session).checks@[j],
                pins0,
                name@,
                led0,
                version_views(versions@),
            ),
        r is Ok ==> forall|j: int|
            c0len <= j < final(session).checks@.len() ==> probe_recorded(
                #[trigger] final(session).checks@[j],
                pins0,
                name@,
                led0,
                final(ledger)@,
            ),
        checks_distinct(final(session).checks@, c0len),
        match r {
            Ok((bounded, rv)) => seed_index <= rv < versions@.len() && side_bounded_ok(
                bounded,
                rv as int,
                versions@.len() - 1,
                seed_index as int,
                1,
                final(ledger)@,
                version_views(versions@),
            ),
            Err(_) => fatal_tail(
                final(session).checks@,
                old(session).checks@.len() as int,
                pins0,
                name@,
                final(ledger)@,
                version_views(versions@),
            ),
        },
{
    let ghost vs = version_views(versions@);
    let last = versions.len() - 1;
    let last_ok = match probe_candidate(
        session,
        ledger,
        name,
        versions,
        last,
        check,
        Ghost(pins0),
        Ghost(led0),
        Ghost(c0len),
    ) {
        Ok(b) => b,
        Err(e) => {
            return Err(e);
        },
    };
    if last_ok {
        return Ok((false, seed_index));
    }
    let mut right_invalid: usize = last;
    let mut right_valid: usize = seed_index;
    while right_invalid - right_valid >= 2
        invariant
            right_valid <= right_invalid,
            right_valid < right_invalid || right_valid == versions@.len() - 1,
            seed_index <= right_valid,
            right_invalid < versions@.len(),
            vs == version_views(versions@),
            ledger.wf(),
            ledger_in(ledger@, vs),
            ledger_extends(ledger@, old(ledger)@),
            ledger_extends(ledger@, led0),
            ledger@.contains_key(vs[right_invalid as int]),
            ledger@[vs[right_invalid as int]] == false,
            right_valid == seed_index || (ledger@.contains_key(vs[right_valid as int]) && ledger@[
                vs[right_valid as int]] == true),
            session.written@ == old(session).written@,
            pins_probed(session.pins@, pins0, name@, vs),
            trace_prefix(session.checks@, old(session).checks@),
            0 <= c0len <= old(session).checks@.len(),
            session.checks@.len() + log2c(right_invalid - right_valid)
                <= old(session).checks@.len() + 1 + log2c(versions@.len() as int - 1 - seed_index),
            forall|j: int|
                c0len <= j < session.checks@.len() ==> probe_shaped(
                    #[trigger] session.checks@[j],
                    pins0,
                    name@,
                    led0,
                    vs,
                ),
            forall|j: int|
                c0len <= j < session.checks@.len() ==> probe_recorded(
                    #[trigger] session.checks@[j],
                    pins0,
                    name@,
                    led0,
                    ledger@,
                ),
            checks_distinct(session.checks@, c0len),
        decreases right_invalid - right_valid,
    {
        let gap = right_invalid - right_valid;
        let mid = right_valid + gap / 2;
        proof {
            vstd::arithmetic::div_mod::lemma_fundamental_div_mod(gap as int, 2);
            vstd::arithmetic::div_mod::lemma_mod_bound(gap as int, 2);
            assert(right_valid < mid < right_invalid);
        }
        let ok = match probe_candidate(
            session,
            ledger,
            name,
            versions,
            mid,
            check,
            Ghost(pins0),
            Ghost(led0),
            Ghost(c0len),
        ) {
            Ok(b) => b,
            Err(e) => {
                proof {
                    assert(log2c((right_invalid - right_valid) as int) >= 1);
                }
                return Err(e);
            },
        };
        proof {
            let g = (right_invalid - right_valid) as int;
            assert(log2c(g) == 1 + log2c((g + 1) / 2));
            vstd::arithmetic::div_mod::lemma_fundamental_div_mod(g, 2);
            vstd::arithmetic::div_mod::lemma_mod_bound(g, 2);
            vstd::arithmetic::div_mod::lemma_fundamental_div_mod(g + 1, 2);
            vstd::arithmetic::div_mod::lemma_mod_bound(g + 1, 2);
            assert(mid - right_valid <= (g + 1) / 2);
            assert(right_invalid - mid <= (g + 1) / 2);
            lemma_log2c_mono(mid - right_valid, (g + 1) / 2);
            lemma_log2c_mono(right_invalid - mid, (g + 1) / 2);
        }
        if ok {
            right_valid = mid;
        } else {
            right_invalid = mid;
        }
    }
    Ok((true, right_valid))
}

/// The two-sided boundary search around the seed. On success the returned
/// bounds bracket the seed; each bounded side names a surviving candidate
/// whose outer neighbour carries a recorded failing verdict, each open
/// side a recorded pass of the outermost candidate. At most
/// `2·log₂(n+1) + 2` checks are issued, every one of them pins exactly
/// this dependency at a distinct candidate on top of the pins that were in
/// effect, and the baseline pins of every other dependency never move.
pub fn binary_search_bounds<V: RepoValidator>(
    session: &mut Session<V>,
    ledger: &mut ProbeLedger,
    name: &String,
    versions: &Vec<Version>,
    seed_index: usize,
    check: &Check,
) -> (r: Result<IntervalBounds, Error>)
    requires
        old(ledger).wf(),
        old(ledger)@ == Map::<VersionView, bool>::empty(),
        seed_index < versions@.len(),
    ensures
        final(ledger).wf(),
        ledger_in(final(ledger)@, version_views(versions@)),
        final(session).written@ == old(session).written@,
        pins_probed(
            final(session).pins@,
            old(session).pins@,
            name@,
            version_views(versions@),
        ),
        trace_prefix(final(session).checks@, old(session).checks@),
        final(session).checks@.len() <= old(session).checks@.len() + 2 * log2c(versions@.len() as int + 1) + 2,
        forall|j: int|
            old(session).checks@.len() <= j < final(session).checks@.len() ==> probe_shaped(
                #[trigger] final(session).checks@[j],
                old(session).pins@,
                name@,
                Map::<VersionView, bool>::empty(),
                version_views(versions@),
            ),
        checks_distinct(final(session).checks@, old(session).checks@.len() as int),
        match r {
            Ok(b) => {
                &&& b.left_valid <= seed_index <= b.right_valid < versions@.len()
                &&& side_bounded_ok(
                    b.left_bounded,
                    b.left_valid as int,
                    0,
                    seed_index as int,
                    -1,
                    final(ledger)@,
                    version_views(versions@),
                )
                &&& side_bounded_ok(
                    b.right_bounded,
                    b.right_valid as int,
                    versions@.len() - 1,
                    seed_index as int,
                    1,
                    final(ledger)@,
                    version_views(versions@),
                )
            },
            Err(_) => fatal_tail(
                final(session).checks@,
                old(session).checks@.len() as int,
                old(session).pins@,
                name@,
                final(ledger)@,
                version_views(versions@),
            ),
        },
{
    let ghost vs = version_views(versions@);
    let ghost pins0 = old(session).pins@;
    let ghost led0 = old(ledger)@;
    let ghost c0len = old(session).checks@.len() as int;

    let (left_bounded, left_valid) = match search_left(
        session,
        ledger,
        name,
        versions,
        seed_index,
        check,
        Ghost(pins0),
        Ghost(led0),
        Ghost(c0len),
    ) {
        Ok(p) => p,
        Err(e) => {
            proof {
                lemma_log2c_mono(seed_index as int, versions@.len() as int + 1);
            }
            return Err(e);
        },
    };
    proof {
        lemma_log2c_mono(seed_index as int, versions@.len() as int + 1);
    }
    let (right_bounded, right_valid) = match search_right(
        session,
        ledger,
        name,
        versions,
        seed_index,
        check,
        Ghost(pins0),
        Ghost(led0),
        Ghost(c0len),
    ) {
        Ok(p) => p,
        Err(e) => {
            proof {
                lemma_log2c_mono(versions@.len() as int - 1 - seed_index, versions@.len() as int + 1);
            }
            return Err(e);
        },
    };
    proof {
        lemma_log2c_mono(versions@.len() as int - 1 - seed_index, versions@.len() as int + 1);
    }
    Ok(
        IntervalBounds {
            left_valid,
            right_valid,
            left_bounded,
            right_bounded,
        },
    )
}

} // verus!
