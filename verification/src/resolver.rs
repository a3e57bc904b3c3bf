//! The driver: select a seed per declared dependency, establish the
//! baseline, search each dependency's interval, simplify, and write the
//! results back. Source-control dependencies are skipped; yanked or
//! missing seeds are repaired from the catalog before anything runs.
use vstd::prelude::*;
use vstd::string::StringExecFns;

use crate::cargo::{lock_pick, CargoLockFile, CargoPackage};
use crate::crates::{considered, greatest_where, has_non_yanked, Crate, Dependency};
use crate::error::Error;
use crate::probe::ProbeLedger;
use crate::requirement::{req_matches, ComparatorView, VersionReq};
use crate::search::{binary_search_bounds, interval_to_req, trace_prefix, IntervalBounds};
use crate::simplify::simplify_version_req;
use crate::validator::{
    pins_map, BuildOptions, Check, CheckRecord, RepoValidator, Session, TestOptions,
};
use vstd::multiset::Multiset;

use crate::version::{
    chars_lt, position_of_version, sort_versions, version_views, Version, VersionView,
};

verus! {

/// The name/requirement pairs of a requirement list, at the level the
/// contracts speak of.
pub open spec fn req_entries(m: Seq<(String, VersionReq)>) -> Seq<(Seq<char>, Seq<ComparatorView>)> {
    m.map_values(|p: (String, VersionReq)| (p.0@, p.1@))
}

/// The first position holding `name`, `-1` when there is none.
pub open spec fn name_index(m: Seq<(Seq<char>, Seq<ComparatorView>)>, name: Seq<char>) -> int
    decreases m.len(),
{
    if m.len() == 0 {
        -1
    } else if m[0].0 == name {
        0
    } else {
        let r = name_index(m.drop_first(), name);
        if r < 0 {
            -1
        } else {
            r + 1
        }
    }
}

proof fn lemma_name_index_first(m: Seq<(Seq<char>, Seq<ComparatorView>)>, name: Seq<char>, i: int)
    requires
        0 <= i < m.len(),
        m[i].0 == name,
        forall|k: int| 0 <= k < i ==> (#[trigger] m[k]).0 != name,
    ensures
        name_index(m, name) == i,
    decreases m.len(),
{
    if i > 0 {
        assert(m[0].0 != name);
        assert(m.drop_first()[i - 1].0 == name);
        lemma_name_index_first(m.drop_first(), name, i - 1);
    }
}

proof fn lemma_name_index_none(m: Seq<(Seq<char>, Seq<ComparatorView>)>, name: Seq<char>)
    requires
        forall|k: int| 0 <= k < m.len() ==> (#[trigger] m[k]).0 != name,
    ensures
        name_index(m, name) == -1,
    decreases m.len(),
{
    if m.len() > 0 {
        lemma_name_index_none(m.drop_first(), name);
    }
}

/// Record a declared requirement: replace the entry of the same name when
/// there is one, else add one at the end.
pub open spec fn upsert_req(
    m: Seq<(Seq<char>, Seq<ComparatorView>)>,
    name: Seq<char>,
    req: Seq<ComparatorView>,
) -> Seq<(Seq<char>, Seq<ComparatorView>)> {
    let i = name_index(m, name);
    if i < 0 {
        m.push((name, req))
    } else {
        m.update(i, (name, req))
    }
}

/// The requirement list after recording each non-source-control
/// dependency of `deps`, in order; a later declaration of the same name
/// wins.
pub open spec fn after_deps(
    m: Seq<(Seq<char>, Seq<ComparatorView>)>,
    deps: Seq<Dependency>,
) -> Seq<(Seq<char>, Seq<ComparatorView>)>
    decreases deps.len(),
{
    if deps.len() == 0 {
        m
    } else {
        let prev = after_deps(m, deps.drop_last());
        if deps.last().git {
            prev
        } else {
            upsert_req(prev, deps.last().crate_name@, deps.last().required_version@)
        }
    }
}

/// The runtime dependencies of all targets, in declaration order.
pub open spec fn targets_deps(ts: Seq<CargoPackage>) -> Seq<Dependency>
    decreases ts.len(),
{
    if ts.len() == 0 {
        Seq::<Dependency>::empty()
    } else {
        targets_deps(ts.drop_last()) + ts.last().dependencies@
    }
}

/// The declared requirements of a target list: one entry per declared
/// non-source-control dependency name, in first-declaration order, with
/// the last declaration's requirement.
pub open spec fn declared_entries(ts: Seq<CargoPackage>) -> Seq<(Seq<char>, Seq<ComparatorView>)> {
    after_deps(Seq::<(Seq<char>, Seq<ComparatorView>)>::empty(), targets_deps(ts))
}

/// Pairwise-distinct names in a requirement list.
pub open spec fn names_distinct(m: Seq<(Seq<char>, Seq<ComparatorView>)>) -> bool {
    forall|i: int, j: int| 0 <= i < j < m.len() ==> (#[trigger] m[i]).0 != (#[trigger] m[j]).0
}

proof fn lemma_upsert_distinct(
    m: Seq<(Seq<char>, Seq<ComparatorView>)>,
    name: Seq<char>,
    req: Seq<ComparatorView>,
)
    requires
        names_distinct(m),
    ensures
        names_distinct(upsert_req(m, name, req)),
        upsert_req(m, name, req).len() >= m.len(),
{
    let i = name_index(m, name);
    if i < 0 {
        lemma_name_index_in_range(m, name);
        assert forall|a: int, b: int|
            0 <= a < b < upsert_req(m, name, req).len() implies (#[trigger] upsert_req(
            m,
            name,
            req,
        )[a]).0 != (#[trigger] upsert_req(m, name, req)[b]).0 by {
            if b == m.len() {
                lemma_name_index_found(m, name);
            }
        }
    } else {
        lemma_name_index_in_range(m, name);
        assert(m[i].0 == name) by {
            lemma_name_index_found(m, name);
        }
    }
}

/// When the index is non-negative it lies in range and names that slot.
proof fn lemma_name_index_found(m: Seq<(Seq<char>, Seq<ComparatorView>)>, name: Seq<char>)
    ensures
        name_index(m, name) >= 0 ==> m[name_index(m, name)].0 == name,
        name_index(m, name) < 0 ==> forall|k: int|
            0 <= k < m.len() ==> (#[trigger] m[k]).0 != name,
    decreases m.len(),
{
    if m.len() > 0 {
        lemma_name_index_found(m.drop_first(), name);
        if m[0].0 != name {
            let r = name_index(m.drop_first(), name);
            if r >= 0 {
                lemma_name_index_in_range(m.drop_first(), name);
                assert(m.drop_first()[r].0 == name);
                assert(m[r + 1].0 == name);
            } else {
                assert forall|k: int| 0 <= k < m.len() implies (#[trigger] m[k]).0 != name by {
                    if k > 0 {
                        assert(m.drop_first()[k - 1].0 != name);
                    }
                }
            }
        }
    }
}

proof fn lemma_name_index_in_range(m: Seq<(Seq<char>, Seq<ComparatorView>)>, name: Seq<char>)
    ensures
        name_index(m, name) < m.len(),
    decreases m.len(),
{
    if m.len() > 0 {
        lemma_name_index_in_range(m.drop_first(), name);
    }
}

/// The declared requirement list never repeats a name.
pub proof fn lemma_declared_names_distinct(ts: Seq<CargoPackage>)
    ensures
        names_distinct(declared_entries(ts)),
{
    lemma_after_deps_distinct(Seq::<(Seq<char>, Seq<ComparatorView>)>::empty(), targets_deps(ts));
}

proof fn lemma_after_deps_distinct(
    m: Seq<(Seq<char>, Seq<ComparatorView>)>,
    deps: Seq<Dependency>,
)
    requires
        names_distinct(m),
    ensures
        names_distinct(after_deps(m, deps)),
    decreases deps.len(),
{
    if deps.len() > 0 {
        lemma_after_deps_distinct(m, deps.drop_last());
        if !deps.last().git {
            lemma_upsert_distinct(
                after_deps(m, deps.drop_last()),
                deps.last().crate_name@,
                deps.last().required_version@,
            );
        }
    }
}

/// The first catalog position of `name`, `-1` when the catalog has no
/// entry for it.
pub open spec fn entry_index(cat: Seq<Crate>, name: Seq<char>) -> int
    decreases cat.len(),
{
    if cat.len() == 0 {
        -1
    } else if cat[0].name@ == name {
        0
    } else {
        let r = entry_index(cat.drop_first(), name);
        if r < 0 {
            -1
        } else {
            r + 1
        }
    }
}

proof fn lemma_entry_index_first(cat: Seq<Crate>, name: Seq<char>, i: int)
    requires
        0 <= i < cat.len(),
        cat[i].name@ == name,
        forall|k: int| 0 <= k < i ==> (#[trigger] cat[k]).name@ != name,
    ensures
        entry_index(cat, name) == i,
    decreases cat.len(),
{
    if i > 0 {
        assert(cat.drop_first()[i - 1].name@ == name);
        lemma_entry_index_first(cat.drop_first(), name, i - 1);
    }
}

proof fn lemma_entry_index_none(cat: Seq<Crate>, name: Seq<char>)
    requires
        forall|k: int| 0 <= k < cat.len() ==> (#[trigger] cat[k]).name@ != name,
    ensures
        entry_index(cat, name) == -1,
    decreases cat.len(),
{
    if cat.len() > 0 {
        lemma_entry_index_none(cat.drop_first(), name);
    }
}

/// The first catalog entry named `name`, as an index.
fn find_crate(cat: &Vec<Crate>, name: &String) -> (r: Option<usize>)
    ensures
        match r {
            Some(i) => i < cat@.len() && entry_index(cat@, name@) == i && cat@[i as int].name@
                == name@,
            None => entry_index(cat@, name@) == -1,
        },
{
    let mut i: usize = 0;
    while i < cat.len()
        invariant
            i <= cat@.len(),
            forall|k: int| 0 <= k < i ==> (#[trigger] cat@[k]).name@ != name@,
        decreases cat@.len() - i,
    {
        if cat[i].name == *name {
            proof {
                lemma_entry_index_first(cat@, name@, i as int);
            }
            return Some(i);
        }
        i = i + 1;
    }
    proof {
        lemma_entry_index_none(cat@, name@);
    }
    None
}

/// The seed for one dependency: the lock file's matching pin when it has
/// one, else the greatest catalog version matching the declared
/// requirement; when that choice is missing from the catalog or yanked,
/// the greatest non-yanked matching version, else the greatest non-yanked
/// version overall, else nothing.
pub open spec fn seed_of(
    entry: Crate,
    req: Seq<ComparatorView>,
    lock: Option<CargoLockFile>,
    name: Seq<char>,
) -> Option<VersionView> {
    let picked = match lock {
        Some(l) => lock_pick(l.packages@, name, req),
        None => None,
    };
    let initial = if picked is Some {
        picked
    } else {
        greatest_where(entry.versions@, considered(Some(req), false))
    };
    if initial is Some && has_non_yanked(entry.versions@, initial->0) {
        initial
    } else if greatest_where(entry.versions@, considered(Some(req), true)) is Some {
        greatest_where(entry.versions@, considered(Some(req), true))
    } else {
        greatest_where(entry.versions@, considered(None, true))
    }
}

/// Resolves dependency version requirements by probing candidate versions
/// against the working tree.
pub struct Resolver<V> {
    pub targets: Vec<CargoPackage>,
    /// The already-parsed lock file, when one was found.
    pub lock_file: Option<CargoLockFile>,
    /// The catalog, one entry per known crate.
    pub package_informations: Vec<Crate>,
    /// The validator, wrapped so every pin and check is on record.
    pub session: Session<V>,
    pub build_opts: BuildOptions,
    pub test_opts: Option<TestOptions>,
    /// The requirement per dependency name: the declared one after
    /// [`Resolver::populate_default`], the resolved one after
    /// [`Resolver::resolve`].
    pub packages_requirements: Vec<(String, VersionReq)>,
    /// The seed map: the known-good concrete version per dependency.
    pub packages: Vec<(String, Version)>,
}

impl<V: RepoValidator> Resolver<V> {
    /// A resolver over the given targets, lock file and catalog.
    pub fn new(
        targets: Vec<CargoPackage>,
        lock_file: Option<CargoLockFile>,
        package_informations: Vec<Crate>,
        validator: V,
        build_opts: BuildOptions,
        test_opts: Option<TestOptions>,
    ) -> (r: Resolver<V>)
        ensures
            r.targets == targets,
            r.lock_file == lock_file,
            r.package_informations == package_informations,
            r.packages_requirements@.len() == 0,
            r.packages@.len() == 0,
            r.session.pins@ == Map::<Seq<char>, VersionView>::empty(),
            r.session.checks@ == Seq::<CheckRecord>::empty(),
            r.session.written@ == Seq::<(Seq<char>, Seq<ComparatorView>)>::empty(),
    {
        Resolver {
            targets,
            lock_file,
            package_informations,
            session: Session::new(validator),
            build_opts,
            test_opts,
            packages_requirements: Vec::new(),
            packages: Vec::new(),
        }
    }
}

fn upsert_exec(m: &mut Vec<(String, VersionReq)>, name: &String, req: &VersionReq)
    ensures
        req_entries(final(m)@) == upsert_req(req_entries(old(m)@), name@, req@),
        final(m)@.len() >= old(m)@.len(),
{
    let ghost mv = req_entries(old(m)@);
    let mut i: usize = 0;
    while i < m.len()
        invariant
            i <= m@.len(),
            m@ == old(m)@,
            mv == req_entries(m@),
            forall|k: int| 0 <= k < i ==> (#[trigger] mv[k]).0 != name@,
        decreases m@.len() - i,
    {
        if m[i].0 == *name {
            proof {
                lemma_name_index_first(mv, name@, i as int);
            }
            m[i] = (name.clone(), req.duplicate());
            proof {
                let out = upsert_req(mv, name@, req@);
                assert(out == mv.update(i as int, (name@, req@)));
                assert(m@[i as int].0@ == name@);
                assert(m@[i as int].1@ == req@);
                assert(req_entries(m@)[i as int] == out[i as int]);
                assert forall|k: int|
                    0 <= k < out.len() && k != i as int implies req_entries(m@)[k] == out[k] by {
                    assert(m@[k] == old(m)@[k]);
                }
                assert(req_entries(m@) =~= out);
            }
            return ;
        }
        i = i + 1;
    }
    proof {
        lemma_name_index_none(mv, name@);
    }
    m.push((name.clone(), req.duplicate()));
    proof {
        assert(req_entries(m@) =~= upsert_req(mv, name@, req@));
    }
}

/// Ascending name order, in the character order of the names; with
/// pairwise-distinct names this is strict.
pub open spec fn entries_sorted(m: Seq<(Seq<char>, Seq<ComparatorView>)>) -> bool {
    forall|i: int, j: int|
        0 <= i < j < m.len() ==> !chars_lt((#[trigger] m[j]).0, (#[trigger] m[i]).0)
}

/// The requirement list reordered ascending by name: the same entries,
/// with multiplicity, names in ascending order, still pairwise distinct.
#[verifier::rlimit(100)]
fn sort_requirements(input: &Vec<(String, VersionReq)>) -> (r: Vec<(String, VersionReq)>)
    requires
        names_distinct(req_entries(input@)),
    ensures
        req_entries(r@).to_multiset() == req_entries(input@).to_multiset(),
        entries_sorted(req_entries(r@)),
        names_distinct(req_entries(r@)),
{
    broadcast use vstd::seq_lib::group_to_multiset_ensures;

    let mut rest: Vec<(String, VersionReq)> = Vec::new();
    let mut i: usize = 0;
    while i < input.len()
        invariant
            i <= input@.len(),
            rest@.len() == i,
            forall|k: int|
                0 <= k < i ==> req_entries(rest@)[k] == req_entries(input@)[k],
        decreases input@.len() - i,
    {
        let pair = &input[i];
        rest.push((pair.0.clone(), pair.1.duplicate()));
        i = i + 1;
    }
    proof {
        assert(req_entries(rest@) =~= req_entries(input@));
    }
    let ghost all = req_entries(input@).to_multiset();
    let mut out: Vec<(String, VersionReq)> = Vec::new();
    while rest.len() > 0
        invariant
            req_entries(out@).to_multiset().add(req_entries(rest@).to_multiset()) =~= all,
            entries_sorted(req_entries(out@)),
            forall|a: int, b: int|
                0 <= a < out@.len() && 0 <= b < rest@.len() ==> !chars_lt(
                    (#[trigger] req_entries(rest@)[b]).0,
                    (#[trigger] req_entries(out@)[a]).0,
                ),
            names_distinct(req_entries(out@)),
            names_distinct(req_entries(rest@)),
            forall|a: int, b: int|
                0 <= a < out@.len() && 0 <= b < rest@.len() ==> (
                #[trigger] req_entries(out@)[a]).0 != (#[trigger] req_entries(rest@)[b]).0,
        decreases rest@.len(),
    {
        let mut min_idx: usize = 0;
        let mut k: usize = 1;
        proof {
            let w = req_entries(rest@);
            crate::version::lemma_chars_lt_trichotomy(w[0].0, w[0].0);
        }
        while k < rest.len()
            invariant
                min_idx < k,
                k <= rest@.len(),
                rest@.len() > 0,
                forall|t: int|
                    0 <= t < k ==> !chars_lt(
                        (#[trigger] req_entries(rest@)[t]).0,
                        req_entries(rest@)[min_idx as int].0,
                    ),
            decreases rest@.len() - k,
        {
            let ghost w = req_entries(rest@);
            let ghost old_min = min_idx as int;
            if crate::version::string_lt(&rest[k].0, &rest[min_idx].0) {
                min_idx = k;
                proof {
                    assert forall|t: int| 0 <= t < k as int + 1 implies !chars_lt(
                        (#[trigger] w[t]).0,
                        w[min_idx as int].0,
                    ) by {
                        crate::version::lemma_chars_lt_trichotomy(w[t].0, w[k as int].0);
                        if chars_lt(w[t].0, w[k as int].0) {
                            crate::version::lemma_chars_lt_transitive(
                                w[t].0,
                                w[k as int].0,
                                w[old_min].0,
                            );
                        }
                        crate::version::lemma_chars_lt_trichotomy(w[k as int].0, w[k as int].0);
                    }
                }
            }
            k = k + 1;
        }
        let ghost before = req_entries(rest@);
        let ghost prev_out = req_entries(out@);
        let ghost m = before[min_idx as int];
        let picked = rest.remove(min_idx);
        proof {
            assert((picked.0@, picked.1@) == m);
            assert(req_entries(rest@) =~= before.remove(min_idx as int));
            before.to_multiset_ensures();
            assert(before.remove(min_idx as int).to_multiset() =~= before.to_multiset().remove(
                m,
            ));
        }
        out.push(picked);
        proof {
            assert(req_entries(out@) =~= prev_out.push(m));
            prev_out.to_multiset_ensures();
            assert(prev_out.push(m).to_multiset() =~= prev_out.to_multiset().insert(m));
            assert(req_entries(out@).to_multiset().add(req_entries(rest@).to_multiset()) =~= all)
                by {
                assert(before.to_multiset().count(m) >= 1) by {
                    assert(before.contains(m));
                }
            }
            assert forall|a: int, b: int|
                0 <= a < out@.len() && 0 <= b < rest@.len() implies !chars_lt(
                (#[trigger] req_entries(rest@)[b]).0,
                (#[trigger] req_entries(out@)[a]).0,
            ) && (#[trigger] req_entries(out@)[a]).0 != (#[trigger] req_entries(rest@)[b]).0 by {
                assert(req_entries(rest@)[b] == (if b < min_idx as int {
                    before[b]
                } else {
                    before[b + 1]
                }));
                if a < out@.len() - 1 {
                } else {
                    assert(req_entries(out@)[a] == m);
                }
            }
            assert(entries_sorted(req_entries(out@))) by {
                assert forall|a: int, b: int|
                    0 <= a < b < req_entries(out@).len() implies !chars_lt(
                    (#[trigger] req_entries(out@)[b]).0,
                    (#[trigger] req_entries(out@)[a]).0,
                ) by {
                    if b == out@.len() - 1 {
                        assert(req_entries(out@)[b] == m);
                    }
                }
            }
            assert(names_distinct(req_entries(out@))) by {
                assert forall|a: int, b: int|
                    0 <= a < b < req_entries(out@).len() implies (
                #[trigger] req_entries(out@)[a]).0 != (#[trigger] req_entries(out@)[b]).0 by {
                    if b == out@.len() - 1 {
                        assert(req_entries(out@)[b] == m);
                        assert(prev_out[a].0 != before[min_idx as int].0);
                    }
                }
            }
            assert(names_distinct(req_entries(rest@))) by {
                assert forall|a: int, b: int|
                    0 <= a < b < req_entries(rest@).len() implies (
                #[trigger] req_entries(rest@)[a]).0 != (#[trigger] req_entries(rest@)[b]).0 by {
                    assert(req_entries(rest@)[a] == (if a < min_idx as int {
                        before[a]
                    } else {
                        before[a + 1]
                    }));
                    assert(req_entries(rest@)[b] == (if b < min_idx as int {
                        before[b]
                    } else {
                        before[b + 1]
                    }));
                }
            }
        }
    }
    proof {
        assert(req_entries(rest@).to_multiset() =~= Multiset::<(
            Seq<char>,
            Seq<ComparatorView>,
        )>::empty());
        assert(req_entries(out@).to_multiset() =~= all);
    }
    out
}

impl<V: RepoValidator> Resolver<V> {
    /// Record every target's declared (non-source-control) dependencies,
    /// then seed each one: from the lock file when its pin satisfies the
    /// declared requirement, else from the greatest matching catalog
    /// version; a missing or yanked choice is repaired to the greatest
    /// usable version. After this, every seed is published and non-yanked
    /// in the catalog; failure means some dependency has no usable version
    /// at all (or no catalog entry).
    pub fn populate_default(&mut self) -> (r: Result<(), Error>)
        ensures
            final(self).targets == old(self).targets,
            final(self).lock_file == old(self).lock_file,
            final(self).package_informations == old(self).package_informations,
            final(self).session.pins@ == old(self).session.pins@,
            final(self).session.checks@ == old(self).session.checks@,
            final(self).session.written@ == old(self).session.written@,
            req_entries(final(self).packages_requirements@).to_multiset() == declared_entries(
                old(self).targets@,
            ).to_multiset(),
            entries_sorted(req_entries(final(self).packages_requirements@)),
            names_distinct(req_entries(final(self).packages_requirements@)),
            r is Ok ==> {
                let reqs = req_entries(final(self).packages_requirements@);
                let cat = old(self).package_informations@;
                &&& final(self).packages@.len() == reqs.len()
                &&& forall|i: int|
                    0 <= i < reqs.len() ==> {
                        let ei = entry_index(cat, (#[trigger] reqs[i]).0);
                        &&& final(self).packages@[i].0@ == reqs[i].0
                        &&& 0 <= ei < cat.len()
                        &&& Some(final(self).packages@[i].1@) == seed_of(
                            cat[ei],
                            reqs[i].1,
                            old(self).lock_file,
                            reqs[i].0,
                        )
                        &&& has_non_yanked(cat[ei].versions@, final(self).packages@[i].1@)
                    }
                &&& forall|i: int, j: int|
                    0 <= i < j < final(self).packages@.len() ==> (
                    #[trigger] final(self).packages@[i]).0@ != (
                    #[trigger] final(self).packages@[j]).0@
            },
            r is Err ==> exists|i: int|
                0 <= i < req_entries(final(self).packages_requirements@).len() && (entry_index(
                    old(self).package_informations@,
                    (#[trigger] req_entries(final(self).packages_requirements@)[i]).0,
                ) < 0 || seed_of(
                    old(self).package_informations@[entry_index(
                        old(self).package_informations@,
                        req_entries(final(self).packages_requirements@)[i].0,
                    )],
                    req_entries(final(self).packages_requirements@)[i].1,
                    old(self).lock_file,
                    req_entries(final(self).packages_requirements@)[i].0,
                ) is None),
    {
        let ghost ts = self.targets@;
        // Collect the declared requirements, skipping source-control
        // dependencies; later declarations of a name overwrite earlier
        // ones.
        self.packages_requirements = Vec::new();
        let mut t: usize = 0;
        proof {
            assert(req_entries(self.packages_requirements@) =~= after_deps(
                Seq::<(Seq<char>, Seq<ComparatorView>)>::empty(),
                targets_deps(ts.take(0)),
            ));
            assert(targets_deps(ts.take(0)) =~= Seq::<Dependency>::empty());
        }
        while t < self.targets.len()
            invariant
                t <= ts.len(),
                ts == self.targets@,
                self.targets == old(self).targets,
                self.lock_file == old(self).lock_file,
                self.package_informations == old(self).package_informations,
                self.session.pins@ == old(self).session.pins@,
                self.session.checks@ == old(self).session.checks@,
                self.session.written@ == old(self).session.written@,
                req_entries(self.packages_requirements@) == after_deps(
                    Seq::<(Seq<char>, Seq<ComparatorView>)>::empty(),
                    targets_deps(ts.take(t as int)),
                ),
            decreases ts.len() - t,
        {
            let ghost base = targets_deps(ts.take(t as int));
            let deps_len = self.targets[t].dependencies.len();
            let mut d: usize = 0;
            proof {
                assert(base + ts[t as int].dependencies@.take(0) =~= base);
            }
            while d < deps_len
                invariant
                    d <= ts[t as int].dependencies@.len(),
                    deps_len == ts[t as int].dependencies@.len(),
                    t < ts.len(),
                    ts == self.targets@,
                    self.targets == old(self).targets,
                    self.lock_file == old(self).lock_file,
                    self.package_informations == old(self).package_informations,
                    self.session.pins@ == old(self).session.pins@,
                    self.session.checks@ == old(self).session.checks@,
                    self.session.written@ == old(self).session.written@,
                    base == targets_deps(ts.take(t as int)),
                    req_entries(self.packages_requirements@) == after_deps(
                        Seq::<(Seq<char>, Seq<ComparatorView>)>::empty(),
                        base + ts[t as int].dependencies@.take(d as int),
                    ),
                decreases deps_len - d,
            {
                let ghost dseq = ts[t as int].dependencies@;
                proof {
                    assert((base + dseq.take(d as int + 1)).drop_last() =~= base + dseq.take(
                        d as int,
                    ));
                    assert((base + dseq.take(d as int + 1)).last() == dseq[d as int]);
                }
                let dep_git = self.targets[t].dependencies[d].git;
                if !dep_git {
                    let (dep_name, dep_req) = {
                        let dep = &self.targets[t].dependencies[d];
                        (dep.crate_name.clone(), dep.required_version.duplicate())
                    };
                    upsert_exec(&mut self.packages_requirements, &dep_name, &dep_req);
                }
                d = d + 1;
            }
            proof {
                assert(ts[t as int].dependencies@.take(ts[t as int].dependencies@.len() as int)
                    =~= ts[t as int].dependencies@);
                assert(ts.take(t as int + 1).drop_last() =~= ts.take(t as int));
                assert(ts.take(t as int + 1).last() == ts[t as int]);
                assert(targets_deps(ts.take(t as int + 1)) =~= base + ts[t as int].dependencies@);
            }
            t = t + 1;
        }
        proof {
            assert(ts.take(ts.len() as int) =~= ts);
            lemma_declared_names_distinct(ts);
        }
        // Seed and search dependencies in ascending name order, for a
        // deterministic run and writeback.
        let sorted_requirements = sort_requirements(&self.packages_requirements);
        self.packages_requirements = sorted_requirements;
        let ghost reqs = req_entries(self.packages_requirements@);

        // Seed each declared dependency.
        self.packages = Vec::new();
        let mut i: usize = 0;
        while i < self.packages_requirements.len()
            invariant
                i <= self.packages_requirements@.len(),
                ts == self.targets@,
                self.targets == old(self).targets,
                self.lock_file == old(self).lock_file,
                self.package_informations == old(self).package_informations,
                self.session.pins@ == old(self).session.pins@,
                self.session.checks@ == old(self).session.checks@,
                self.session.written@ == old(self).session.written@,
                req_entries(self.packages_requirements@) == reqs,
                reqs.to_multiset() == declared_entries(ts).to_multiset(),
                entries_sorted(reqs),
                names_distinct(reqs),
                self.packages@.len() == i,
                forall|k: int|
                    0 <= k < i ==> {
                        let cat = self.package_informations@;
                        let ei = entry_index(cat, (#[trigger] reqs[k]).0);
                        &&& self.packages@[k].0@ == reqs[k].0
                        &&& 0 <= ei < cat.len()
                        &&& Some(self.packages@[k].1@) == seed_of(
                            cat[ei],
                            reqs[k].1,
                            self.lock_file,
                            reqs[k].0,
                        )
                        &&& has_non_yanked(cat[ei].versions@, self.packages@[k].1@)
                    },
            decreases self.packages_requirements@.len() - i,
        {
            let name = self.packages_requirements[i].0.clone();
            let req = self.packages_requirements[i].1.duplicate();
            proof {
                assert(reqs[i as int].0 == name@);
                assert(reqs[i as int].1 == req@);
            }
            let ei = match find_crate(&self.package_informations, &name) {
                Some(e) => e,
                None => {
                    proof {
                        assert(entry_index(self.package_informations@, reqs[i as int].0) < 0);
                        assert((i as int) < reqs.len());
                    }
                    return Err(Error::NoAvailableVersions { name });
                },
            };
            let entry = &self.package_informations[ei];
            // The lock file's pin, when it satisfies the declared
            // requirement.
            let picked = match &self.lock_file {
                Some(l) => l.find_matching(&name, &req),
                None => None,
            };
            let initial = match picked {
                Some(p) => Some(p),
                None => entry.greatest_version(Some(&req), false),
            };
            let keep = match &initial {
                Some(s) => entry.has_non_yanked_version(s),
                None => false,
            };
            let seed = if keep {
                match initial {
                    Some(s) => s,
                    None => {
                        return Err(Error::NoAvailableVersions { name });
                    },
                }
            } else {
                match entry.greatest_version(Some(&req), true) {
                    Some(s) => s,
                    None => {
                        match entry.greatest_version(None, true) {
                            Some(s) => s,
                            None => {
                                proof {
                                    assert(entry_index(self.package_informations@, reqs[i as int].0)
                                        == ei as int);
                                    assert(seed_of(
                                        self.package_informations@[ei as int],
                                        reqs[i as int].1,
                                        self.lock_file,
                                        reqs[i as int].0,
                                    ) is None);
                                }
                                return Err(Error::NoAvailableVersions { name });
                            },
                        }
                    },
                }
            };
            proof {
                let cat = self.package_informations@;
                let e = cat[ei as int];
                assert(Some(seed@) == seed_of(e, reqs[i as int].1, self.lock_file, reqs[i as int].0));
                if !(has_non_yanked(e.versions@, seed@)) {
                    // Whatever the repair chain returned satisfies its
                    // filter, so it is published and non-yanked.
                    if greatest_where(e.versions@, considered(Some(reqs[i as int].1), true))
                        is Some {
                        crate::crates::lemma_greatest_where_sound(
                            e.versions@,
                            considered(Some(reqs[i as int].1), true),
                        );
                    } else {
                        crate::crates::lemma_greatest_where_sound(
                            e.versions@,
                            considered(None, true),
                        );
                    }
                    assert(false);
                }
            }
            self.packages.push((name, seed));
            i = i + 1;
        }
        // Names stay distinct: they are the declared names.
        proof {
            assert forall|a: int, b: int|
                0 <= a < b < self.packages@.len() implies (#[trigger] self.packages@[a]).0@ != (
            #[trigger] self.packages@[b]).0@ by {
                assert(self.packages@[a].0@ == reqs[a].0);
                assert(self.packages@[b].0@ == reqs[b].0);
            }
        }
        Ok(())
    }
}

/// One check issued by a search for `name`: the given base pins with only
/// that dependency moved.
pub open spec fn probe_of_name(
    c: CheckRecord,
    pins0: Map<Seq<char>, VersionView>,
    name: Seq<char>,
) -> bool {
    exists|w: VersionView| #![trigger pins0.insert(name, w)] c.0 == pins0.insert(name, w)
}

/// The pins after a search for `name`: the base pins, possibly with only
/// that dependency moved.
pub open spec fn pins_touched(
    pins_new: Map<Seq<char>, VersionView>,
    pins0: Map<Seq<char>, VersionView>,
    name: Seq<char>,
) -> bool {
    pins_new == pins0 || exists|w: VersionView|
        #![trigger pins0.insert(name, w)]
        pins_new == pins0.insert(name, w)
}

/// One check of a resolver run after the baseline: the seed map with one
/// seeded dependency moved to some version.
pub open spec fn seed_probe(c: CheckRecord, seeds: Map<Seq<char>, VersionView>) -> bool {
    exists|d: Seq<char>, w: VersionView|
        #![trigger seeds.insert(d, w)]
        seeds.contains_key(d) && c.0 == seeds.insert(d, w)
}

/// Whether the requirement list holds an entry named `name`.
pub open spec fn has_name(m: Seq<(Seq<char>, Seq<ComparatorView>)>, name: Seq<char>) -> bool {
    exists|k: int| 0 <= k < m.len() && (#[trigger] m[k]).0 == name
}

/// Whether the requirement list holds an entry named `name` whose
/// requirement accepts `seedv`.
pub open spec fn resolved_entry(
    m: Seq<(Seq<char>, Seq<ComparatorView>)>,
    name: Seq<char>,
    seedv: VersionView,
) -> bool {
    exists|k: int|
        0 <= k < m.len() && (#[trigger] m[k]).0 == name && req_matches(m[k].1, seedv)
}

/// Whether the requirement list holds an entry named `name` whose
/// requirement is the complete outcome of a search over `entry` seeded at
/// `seedv`: some witnesses — bounds, sorted candidates and a probe ledger
/// — satisfy everything [`resolved_package_ok`] demands.
pub open spec fn fully_resolved_entry(
    m: Seq<(Seq<char>, Seq<ComparatorView>)>,
    name: Seq<char>,
    entry: Crate,
    seedv: VersionView,
) -> bool {
    exists|k: int|
        0 <= k < m.len() && (#[trigger] m[k]).0 == name && exists|
            q: VersionReq,
            b: IntervalBounds,
            cand: Vec<Version>,
            led: ProbeLedger,
        |
            #![trigger resolved_package_ok(q, b, cand, led, entry, seedv)]
            m[k].1 == q@ && resolved_package_ok(q, b, cand, led, entry, seedv)
}

/// Recording a requirement makes its name present and keeps every name
/// that was present.
proof fn lemma_upsert_has(
    m: Seq<(Seq<char>, Seq<ComparatorView>)>,
    name: Seq<char>,
    req: Seq<ComparatorView>,
)
    ensures
        has_name(upsert_req(m, name, req), name),
        exists|k: int|
            0 <= k < upsert_req(m, name, req).len() && #[trigger] upsert_req(m, name, req)[k]
                == (name, req),
        forall|d: Seq<char>| #[trigger] has_name(m, d) ==> has_name(upsert_req(m, name, req), d),
{
    let out = upsert_req(m, name, req);
    let i = name_index(m, name);
    lemma_name_index_in_range(m, name);
    lemma_name_index_found(m, name);
    if i < 0 {
        assert(out[m.len() as int] == (name, req));
        assert forall|d: Seq<char>| #[trigger] has_name(m, d) implies has_name(out, d) by {
            let k = choose|k: int| 0 <= k < m.len() && (#[trigger] m[k]).0 == d;
            assert(out[k].0 == d);
        }
    } else {
        assert(out[i] == (name, req));
        assert forall|d: Seq<char>| #[trigger] has_name(m, d) implies has_name(out, d) by {
            let k = choose|k: int| 0 <= k < m.len() && (#[trigger] m[k]).0 == d;
            if k == i {
                assert(m[i].0 == name);
                assert(out[i].0 == d);
            } else {
                assert(out[k].0 == d);
            }
        }
    }
}

/// Recording a requirement for one name leaves intact any entry of
/// another name whose requirement accepts a seed.
proof fn lemma_upsert_preserves_resolved(
    m: Seq<(Seq<char>, Seq<ComparatorView>)>,
    n2: Seq<char>,
    r2: Seq<ComparatorView>,
    name: Seq<char>,
    seedv: VersionView,
)
    requires
        n2 != name,
        resolved_entry(m, name, seedv),
    ensures
        resolved_entry(upsert_req(m, n2, r2), name, seedv),
{
    let out = upsert_req(m, n2, r2);
    let i = name_index(m, n2);
    lemma_name_index_in_range(m, n2);
    lemma_name_index_found(m, n2);
    let k = choose|k: int|
        0 <= k < m.len() && (#[trigger] m[k]).0 == name && req_matches(m[k].1, seedv);
    if i >= 0 && k == i {
        assert(m[i].0 == n2);
        assert(false);
    }
    assert(out[k] == m[k]);
}

/// As [`lemma_upsert_preserves_resolved`], for the full search witnesses.
proof fn lemma_upsert_preserves_fully_resolved(
    m: Seq<(Seq<char>, Seq<ComparatorView>)>,
    n2: Seq<char>,
    r2: Seq<ComparatorView>,
    name: Seq<char>,
    entry: Crate,
    seedv: VersionView,
)
    requires
        n2 != name,
        fully_resolved_entry(m, name, entry, seedv),
    ensures
        fully_resolved_entry(upsert_req(m, n2, r2), name, entry, seedv),
{
    let out = upsert_req(m, n2, r2);
    let i = name_index(m, n2);
    lemma_name_index_in_range(m, n2);
    lemma_name_index_found(m, n2);
    let k = choose|k: int|
        0 <= k < m.len() && (#[trigger] m[k]).0 == name && exists|
            q: VersionReq,
            b: IntervalBounds,
            cand: Vec<Version>,
            led: ProbeLedger,
        |
            #![trigger resolved_package_ok(q, b, cand, led, entry, seedv)]
            m[k].1 == q@ && resolved_package_ok(q, b, cand, led, entry, seedv);
    if i >= 0 && k == i {
        assert(m[i].0 == n2);
        assert(false);
    }
    assert(out[k] == m[k]);
}

proof fn lemma_pins_map_index(s: Seq<(String, Version)>, i: int)
    requires
        0 <= i < s.len(),
        forall|a: int, b: int|
            0 <= a < b < s.len() ==> (#[trigger] s[a]).0@ != (#[trigger] s[b]).0@,
    ensures
        pins_map(s).contains_key(s[i].0@),
        pins_map(s)[s[i].0@] == s[i].1@,
    decreases s.len(),
{
    if i == s.len() - 1 {
    } else {
        assert(s.drop_last()[i] == s[i]);
        lemma_pins_map_index(s.drop_last(), i);
        assert(s.last().0@ != s[i].0@);
    }
}

/// Everything a successful per-dependency search hands back, stated over
/// the returned witnesses: the candidates are exactly the entry's
/// non-yanked versions in ascending order; the recorded verdicts stay
/// within them; the bounds bracket the seed and are justified by those
/// verdicts on both sides; and the requirement is exactly the simplified
/// raw interval — so in particular it accepts the seed.
pub open spec fn resolved_package_ok(
    q: VersionReq,
    b: IntervalBounds,
    candidates: Vec<Version>,
    ledger: ProbeLedger,
    entry: Crate,
    seedv: VersionView,
) -> bool {
    let vs = version_views(candidates@);
    &&& vs.to_multiset() == crate::crates::non_yanked_views(entry.versions@).to_multiset()
    &&& crate::version::sorted_le(vs)
    &&& ledger.wf()
    &&& crate::search::ledger_in(ledger@, vs)
    &&& b.left_valid <= b.right_valid < vs.len()
    &&& exists|si: int|
        0 <= si < vs.len() && #[trigger] vs[si] == seedv && b.left_valid <= si <= b.right_valid
            && crate::search::side_bounded_ok(
            b.left_bounded,
            b.left_valid as int,
            0,
            si,
            -1,
            ledger@,
            vs,
        ) && crate::search::side_bounded_ok(
            b.right_bounded,
            b.right_valid as int,
            vs.len() - 1,
            si,
            1,
            ledger@,
            vs,
        )
    &&& q@ == crate::simplify::simplify_spec(crate::search::raw_req(b, vs), vs)
    &&& req_matches(q@, seedv)
}

/// Search the widest surviving interval for one dependency and reduce it
/// to its simplest equivalent requirement. On success the returned bounds,
/// sorted candidate list and probe ledger witness the whole computation:
/// the candidates are exactly the entry's non-yanked versions in ascending
/// order, the bounds bracket the seed and are justified by the recorded
/// (trace-backed) verdicts, and the requirement is exactly the simplified
/// raw interval — so in particular it accepts the seed. The dependency's
/// pin is restored to its seed before returning, so later searches measure
/// their own dependency against the baseline.
#[verifier::rlimit(100)]
#[verifier::spinoff_prover]
fn resolve_package<V: RepoValidator>(
    session: &mut Session<V>,
    package_name: &String,
    version: &Version,
    package_information: &Crate,
    check: &Check,
) -> (r: Result<(VersionReq, IntervalBounds, Vec<Version>, ProbeLedger), Error>)
    ensures
        final(session).written@ == old(session).written@,
        trace_prefix(final(session).checks@, old(session).checks@),
        forall|j: int|
            old(session).checks@.len() <= j < final(session).checks@.len() ==> probe_of_name(
                #[trigger] final(session).checks@[j],
                old(session).pins@,
                package_name@,
            ),
        r is Ok ==> final(session).pins@ == old(session).pins@.insert(package_name@, version@),
        r is Err ==> pins_touched(final(session).pins@, old(session).pins@, package_name@),
        (match r {
            Ok((q, b, candidates, ledger)) => resolved_package_ok(
                q,
                b,
                candidates,
                ledger,
                *package_information,
                version@,
            ),
            Err(_) => true,
        }),
        // The seed must be a usable candidate: when it is not, exactly the
        // seed-not-found error comes back and the validator is never
        // touched; when it is, any error is a hard validator failure
        // witnessed by the fatal last check of the trace.
        !crate::crates::has_non_yanked(package_information.versions@, version@) ==> (match r {
            Err(e) => e is SeedNotFound && final(session).checks@ == old(session).checks@,
            Ok(_) => false,
        }),
        (crate::crates::has_non_yanked(package_information.versions@, version@) && r is Err) ==> {
            &&& final(session).checks@.len() > old(session).checks@.len()
            &&& final(session).checks@.last().1 is Fatal
            &&& probe_of_name(final(session).checks@.last(), old(session).pins@, package_name@)
        },
{
    broadcast use vstd::seq_lib::group_to_multiset_ensures;

    let ghost pins0 = old(session).pins@;
    let all_versions = package_information.non_yanked_versions();
    let sorted = sort_versions(&all_versions);
    let ghost vs = version_views(sorted@);
    proof {
        crate::crates::lemma_non_yanked_views_contains(package_information.versions@, version@);
    }
    let seed_index = match position_of_version(&sorted, version) {
        Some(i) => i,
        None => {
            proof {
                // Nothing in the sorted list is the seed, so the seed is
                // not among the non-yanked versions.
                if crate::crates::has_non_yanked(package_information.versions@, version@) {
                    assert(version_views(all_versions@).contains(version@));
                    assert(vs.to_multiset().contains(version@));
                    assert(vs.contains(version@));
                    let k = choose|k: int| 0 <= k < vs.len() && vs[k] == version@;
                    assert(false);
                }
            }
            return Err(Error::SeedNotFound { version: crate::render::version_to_string(version) });
        },
    };
    proof {
        assert(vs[seed_index as int] == version@);
        assert(vs.contains(version@));
        assert(vs.to_multiset().contains(version@));
        assert(version_views(all_versions@).contains(version@));
        assert(crate::crates::has_non_yanked(package_information.versions@, version@));
    }
    let mut ledger = ProbeLedger::new();
    let bounds = match binary_search_bounds(
        session,
        &mut ledger,
        package_name,
        &sorted,
        seed_index,
        check,
    ) {
        Ok(b) => b,
        Err(e) => {
            proof {
                lemma_shaped_to_named(
                    session.checks@,
                    old(session).checks@.len() as int,
                    pins0,
                    package_name@,
                    vs,
                );
                assert(probe_of_name(session.checks@.last(), pins0, package_name@)) by {
                    let w = choose|w: VersionView|
                        #![trigger pins0.insert(package_name@, w)]
                        vs.contains(w) && !ledger@.contains_key(w) && session.checks@.last().0
                            == pins0.insert(package_name@, w);
                    assert(session.checks@.last().0 == pins0.insert(package_name@, w));
                }
            }
            return Err(e);
        },
    };
    proof {
        lemma_shaped_to_named(
            session.checks@,
            old(session).checks@.len() as int,
            pins0,
            package_name@,
            vs,
        );
    }
    let raw = interval_to_req(&bounds, &sorted);
    let output_req = simplify_version_req(raw, &sorted);
    proof {
        crate::search::lemma_raw_req_matches_inside(bounds, vs, seed_index as int);
        crate::simplify::lemma_simplify_preserves_matches(
            crate::search::raw_req(bounds, vs),
            vs,
            seed_index as int,
        );
    }
    proof {
        assert(resolved_package_ok(
            output_req,
            bounds,
            sorted,
            ledger,
            *package_information,
            version@,
        )) by {
            assert((seed_index as int) < vs.len());
            assert(vs[seed_index as int] == version@);
            assert(bounds.left_valid <= seed_index && seed_index <= bounds.right_valid);
            assert(crate::search::side_bounded_ok(
                bounds.left_bounded,
                bounds.left_valid as int,
                0,
                seed_index as int,
                -1,
                ledger@,
                vs,
            ) && crate::search::side_bounded_ok(
                bounds.right_bounded,
                bounds.right_valid as int,
                vs.len() - 1,
                seed_index as int,
                1,
                ledger@,
                vs,
            ));
            assert(req_matches(output_req@, version@));
            assert(vs.to_multiset() == crate::crates::non_yanked_views(
                package_information.versions@,
            ).to_multiset());
        }
    }
    // Set the dependency back to its seed.
    let _ = session.pin(package_name, version);
    proof {
        assert(session.pins@ =~= pins0.insert(package_name@, version@));
    }
    Ok((output_req, bounds, sorted, ledger))
}

/// Checks shaped by the searcher pin this dependency alone.
proof fn lemma_shaped_to_named(
    checks: Seq<CheckRecord>,
    lo: int,
    pins0: Map<Seq<char>, VersionView>,
    name: Seq<char>,
    vs: Seq<VersionView>,
)
    requires
        0 <= lo,
        forall|j: int|
            lo <= j < checks.len() ==> crate::search::probe_shaped(
                #[trigger] checks[j],
                pins0,
                name,
                Map::<VersionView, bool>::empty(),
                vs,
            ),
    ensures
        forall|j: int|
            lo <= j < checks.len() ==> probe_of_name(#[trigger] checks[j], pins0, name),
{
    assert forall|j: int| lo <= j < checks.len() implies probe_of_name(
        #[trigger] checks[j],
        pins0,
        name,
    ) by {
        let w = choose|w: VersionView|
            #![trigger pins0.insert(name, w)]
            vs.contains(w) && !Map::<VersionView, bool>::empty().contains_key(w) && checks[j].0
                == pins0.insert(name, w);
        assert(checks[j].0 == pins0.insert(name, w));
    }
}

impl<V: RepoValidator> Resolver<V> {
    /// Run the resolution: pin every seed, run the baseline check once,
    /// then search each seeded dependency in turn (the seed map is in
    /// ascending name order after seeding, so the searches follow it).
    /// The baseline is the first check on record and strictly precedes
    /// every probe; a baseline validation failure aborts at once with the
    /// captured diagnostic, before any probe. Every later check is the
    /// seed map with exactly one seeded dependency moved; when the run
    /// completes, the pin in effect for every dependency is its seed
    /// again, and the requirement stored for every seeded dependency
    /// accepts that dependency's seed.
    pub fn resolve(&mut self) -> (r: Result<(), Error>)
        requires
            forall|i: int, j: int|
                0 <= i < j < old(self).packages@.len() ==> (#[trigger] old(self).packages@[i]).0@
                    != (#[trigger] old(self).packages@[j]).0@,
        ensures
            final(self).targets == old(self).targets,
            final(self).packages == old(self).packages,
            final(self).package_informations == old(self).package_informations,
            final(self).lock_file == old(self).lock_file,
            final(self).session.written@ == old(self).session.written@,
            trace_prefix(final(self).session.checks@, old(self).session.checks@),
            final(self).session.checks@.len() > old(self).session.checks@.len(),
            final(self).session.checks@[old(self).session.checks@.len() as int].0 == pins_map(
                old(self).packages@,
            ),
            final(self).session.checks@[old(self).session.checks@.len() as int].1
                is Invalid ==> {
                &&& (match r {
                    Err(e) => e is BaselineInvalid,
                    Ok(_) => false,
                })
                &&& final(self).session.checks@.len() == old(self).session.checks@.len() + 1
                &&& final(self).session.pins@ == pins_map(old(self).packages@)
                &&& final(self).packages_requirements == old(self).packages_requirements
            },
            final(self).session.checks@[old(self).session.checks@.len() as int].1 is Fatal ==> (
            r is Err && final(self).session.checks@.len() == old(self).session.checks@.len() + 1),
            r is Ok ==> {
                &&& final(self).session.checks@[old(self).session.checks@.len() as int].1
                    is Passed
                &&& final(self).session.pins@ == pins_map(old(self).packages@)
                &&& forall|j: int|
                    old(self).session.checks@.len() + 1 <= j < final(self).session.checks@.len()
                        ==> seed_probe(
                        #[trigger] final(self).session.checks@[j],
                        pins_map(old(self).packages@),
                    )
                &&& final(self).packages_requirements@.len() >= old(
                    self,
                ).packages_requirements@.len()
                &&& forall|i: int|
                    0 <= i < old(self).packages@.len() ==> resolved_entry(
                        req_entries(final(self).packages_requirements@),
                        (#[trigger] old(self).packages@[i]).0@,
                        old(self).packages@[i].1@,
                    )
                &&& forall|i: int|
                    0 <= i < old(self).packages@.len() ==> fully_resolved_entry(
                        req_entries(final(self).packages_requirements@),
                        (#[trigger] old(self).packages@[i]).0@,
                        old(self).package_informations@[entry_index(
                            old(self).package_informations@,
                            old(self).packages@[i].0@,
                        )],
                        old(self).packages@[i].1@,
                    )
            },
    {
        let ghost seeds_map = pins_map(self.packages@);
        let check = match &self.test_opts {
            Some(t) => Check::RunTest {
                build_opts: self.build_opts.duplicate(),
                test_opts: t.duplicate(),
            },
            None => Check::Build { build_opts: self.build_opts.duplicate() },
        };
        let _ = self.session.pin_all(&self.packages);
        match self.session.run_check(&check) {
            Ok(()) => {},
            Err(crate::validator::CheckFailure::Invalid(validation_error)) => {
                return Err(Error::BaselineInvalid { error: validation_error });
            },
            Err(crate::validator::CheckFailure::Fatal(e)) => {
                return Err(e);
            },
        }
        let ghost base_len = old(self).session.checks@.len() as int;
        let mut i: usize = 0;
        while i < self.packages.len()
            invariant
                i <= self.packages@.len(),
                self.targets == old(self).targets,
                self.packages == old(self).packages,
                self.package_informations == old(self).package_informations,
                self.lock_file == old(self).lock_file,
                forall|a: int, b: int|
                    0 <= a < b < self.packages@.len() ==> (#[trigger] self.packages@[a]).0@ != (
                    #[trigger] self.packages@[b]).0@,
                seeds_map == pins_map(self.packages@),
                base_len == old(self).session.checks@.len() as int,
                self.session.pins@ == seeds_map,
                self.session.written@ == old(self).session.written@,
                trace_prefix(self.session.checks@, old(self).session.checks@),
                self.session.checks@.len() > base_len,
                self.session.checks@[base_len].0 == seeds_map,
                self.session.checks@[base_len].1 is Passed,
                forall|j: int|
                    base_len + 1 <= j < self.session.checks@.len() ==> seed_probe(
                        #[trigger] self.session.checks@[j],
                        seeds_map,
                    ),
                self.packages_requirements@.len() >= old(self).packages_requirements@.len(),
                forall|k: int|
                    0 <= k < i ==> resolved_entry(
                        req_entries(self.packages_requirements@),
                        (#[trigger] self.packages@[k]).0@,
                        self.packages@[k].1@,
                    ),
                forall|k: int|
                    0 <= k < i ==> fully_resolved_entry(
                        req_entries(self.packages_requirements@),
                        (#[trigger] self.packages@[k]).0@,
                        self.package_informations@[entry_index(
                            self.package_informations@,
                            self.packages@[k].0@,
                        )],
                        self.packages@[k].1@,
                    ),
            decreases self.packages@.len() - i,
        {
            let name = self.packages[i].0.clone();
            let seed = self.packages[i].1.duplicate();
            let ghost cpre = self.session.checks@;
            let entry_idx = match find_crate(&self.package_informations, &name) {
                Some(e) => e,
                None => {
                    return Err(Error::NoAvailableVersions { name });
                },
            };
            let (req, bounds, candidates, search_ledger) = match resolve_package(
                &mut self.session,
                &name,
                &seed,
                &self.package_informations[entry_idx],
                &check,
            ) {
                Ok(out) => out,
                Err(e) => {
                    proof {
                        lemma_pins_map_index(self.packages@, i as int);
                        lemma_named_to_seed_probe(
                            self.session.checks@,
                            cpre.len() as int,
                            seeds_map,
                            name@,
                        );
                    }
                    return Err(e);
                },
            };
            proof {
                lemma_pins_map_index(self.packages@, i as int);
                lemma_named_to_seed_probe(
                    self.session.checks@,
                    cpre.len() as int,
                    seeds_map,
                    name@,
                );
            }
            let ghost before_upsert = req_entries(self.packages_requirements@);
            upsert_exec(&mut self.packages_requirements, &name, &req);
            proof {
                lemma_upsert_has(before_upsert, name@, req@);
                let ghost cat = self.package_informations@;
                let ghost my_entry = cat[entry_index(cat, self.packages@[i as int].0@)];
                let k = choose|k: int|
                    0 <= k < upsert_req(before_upsert, name@, req@).len()
                        && #[trigger] upsert_req(before_upsert, name@, req@)[k] == (
                    name@,
                    req@,
                    );
                assert(req_entries(self.packages_requirements@)[k] == (name@, req@));
                assert(resolved_entry(
                    req_entries(self.packages_requirements@),
                    name@,
                    self.packages@[i as int].1@,
                ));
                assert(fully_resolved_entry(
                    req_entries(self.packages_requirements@),
                    name@,
                    my_entry,
                    self.packages@[i as int].1@,
                )) by {
                    assert(my_entry == cat[entry_idx as int]);
                    assert(resolved_package_ok(
                        req,
                        bounds,
                        candidates,
                        search_ledger,
                        my_entry,
                        self.packages@[i as int].1@,
                    ));
                    assert(req_entries(self.packages_requirements@)[k].1 == req@);
                }
                assert forall|k2: int| 0 <= k2 < i as int implies resolved_entry(
                    req_entries(self.packages_requirements@),
                    (#[trigger] self.packages@[k2]).0@,
                    self.packages@[k2].1@,
                ) && fully_resolved_entry(
                    req_entries(self.packages_requirements@),
                    (#[trigger] self.packages@[k2]).0@,
                    cat[entry_index(cat, self.packages@[k2].0@)],
                    self.packages@[k2].1@,
                ) by {
                    lemma_upsert_preserves_resolved(
                        before_upsert,
                        name@,
                        req@,
                        self.packages@[k2].0@,
                        self.packages@[k2].1@,
                    );
                    lemma_upsert_preserves_fully_resolved(
                        before_upsert,
                        name@,
                        req@,
                        self.packages@[k2].0@,
                        cat[entry_index(cat, self.packages@[k2].0@)],
                        self.packages@[k2].1@,
                    );
                }
                assert(self.session.pins@ =~= seeds_map);
            }
            i = i + 1;
        }
        Ok(())
    }

    /// Persist each resolved requirement back through the validator, in
    /// the requirement list's order (ascending by name after a resolver
    /// run).
    pub fn write_cargo_toml_with_resolved_versions(&mut self) -> (r: Result<(), Error>)
        ensures
            r is Ok,
            final(self).session.written@ == old(self).session.written@ + req_entries(
                old(self).packages_requirements@,
            ),
            final(self).session.pins@ == old(self).session.pins@,
            final(self).session.checks@ == old(self).session.checks@,
            final(self).packages_requirements == old(self).packages_requirements,
            final(self).packages == old(self).packages,
    {
        let ghost w0 = self.session.written@;
        let ghost entries = req_entries(self.packages_requirements@);
        let mut i: usize = 0;
        while i < self.packages_requirements.len()
            invariant
                i <= self.packages_requirements@.len(),
                entries == req_entries(self.packages_requirements@),
                self.packages_requirements == old(self).packages_requirements,
                self.packages == old(self).packages,
                w0 == old(self).session.written@,
                self.session.written@ == w0 + entries.take(i as int),
                self.session.pins@ == old(self).session.pins@,
                self.session.checks@ == old(self).session.checks@,
            decreases self.packages_requirements@.len() - i,
        {
            let pair = &self.packages_requirements[i];
            let _ = self.session.write_requirement(&pair.0, &pair.1);
            proof {
                assert(self.session.written@ =~= w0 + entries.take(i as int + 1));
            }
            i = i + 1;
        }
        proof {
            assert(entries.take(entries.len() as int) =~= entries);
        }
        Ok(())
    }

    /// Release any scratch state the validator holds.
    pub fn clean(&mut self)
        ensures
            final(self).session.pins@ == old(self).session.pins@,
            final(self).session.checks@ == old(self).session.checks@,
            final(self).session.written@ == old(self).session.written@,
    {
        self.session.clean();
    }
}

/// Checks that pin one seeded dependency are seed probes.
proof fn lemma_named_to_seed_probe(
    checks: Seq<CheckRecord>,
    lo: int,
    seeds: Map<Seq<char>, VersionView>,
    name: Seq<char>,
)
    requires
        0 <= lo,
        seeds.contains_key(name),
        forall|j: int|
            lo <= j < checks.len() ==> probe_of_name(#[trigger] checks[j], seeds, name),
    ensures
        forall|j: int|
            lo <= j < checks.len() ==> seed_probe(#[trigger] checks[j], seeds),
{
    assert forall|j: int| lo <= j < checks.len() implies seed_probe(#[trigger] checks[j], seeds) by {
        let w = choose|w: VersionView| #![trigger seeds.insert(name, w)] checks[j].0
            == seeds.insert(name, w);
        assert(seeds.contains_key(name) && checks[j].0 == seeds.insert(name, w));
    }
}

} // verus!
