//! The catalog: for each dependency name, its published versions with yank
//! bits, checksums and timestamps, as the registry client supplies them.
//! Read-only during a resolver run.
use vstd::prelude::*;

use crate::requirement::{req_matches, VersionReq};
use crate::version::{version_exec_lt, version_exec_eq, version_lt, Version, VersionView};

verus! {

/// One declared dependency of a package: its name, the requirement the
/// manifest states, the requested features, and whether it comes from
/// source control (such dependencies are skipped) or is optional.
#[derive(Clone, Debug)]
pub struct Dependency {
    pub crate_name: String,
    pub required_version: VersionReq,
    pub features: Vec<String>,
    pub git: bool,
    pub optional: bool,
}

/// One published version of a crate.
#[derive(Clone, Debug)]
pub struct CrateVersion {
    /// Unix timestamps in seconds.
    pub created_at: i64,
    pub updated_at: i64,
    pub yanked: bool,
    pub version: Version,
    pub checksum: String,
    /// The version's own direct dependencies, when the registry supplied
    /// them; the resolver itself never reads these.
    pub dependencies: Option<Vec<Dependency>>,
}

/// One crate of the catalog: a name and its published versions. The
/// registry supplies the versions pairwise distinct; nothing here depends
/// on it, but duplicate entries would make "the greatest version" pick
/// whichever duplicate comes later.
#[derive(Clone, Debug)]
pub struct Crate {
    pub name: String,
    pub description: Option<String>,
    pub created_at: i64,
    pub updated_at: i64,
    pub versions: Vec<CrateVersion>,
}

/// The versions of a crate entry that are not yanked, in catalog order.
pub open spec fn non_yanked_views(s: Seq<CrateVersion>) -> Seq<VersionView>
    decreases s.len(),
{
    if s.len() == 0 {
        Seq::<VersionView>::empty()
    } else {
        non_yanked_views(s.drop_last()) + (if s.last().yanked {
            Seq::<VersionView>::empty()
        } else {
            seq![s.last().version@]
        })
    }
}

/// Whether `v` is published and not yanked in the entry.
pub open spec fn has_non_yanked(s: Seq<CrateVersion>, v: VersionView) -> bool {
    exists|i: int| 0 <= i < s.len() && (#[trigger] s[i]).version@ == v && !s[i].yanked
}

/// The greatest version among those entries satisfying `f`, or nothing.
pub open spec fn greatest_where(
    s: Seq<CrateVersion>,
    f: spec_fn(CrateVersion) -> bool,
) -> Option<VersionView>
    decreases s.len(),
{
    if s.len() == 0 {
        None
    } else {
        let rest = greatest_where(s.drop_last(), f);
        if !f(s.last()) {
            rest
        } else {
            match rest {
                None => Some(s.last().version@),
                Some(m) => if version_lt(m, s.last().version@) {
                    Some(s.last().version@)
                } else {
                    Some(m)
                },
            }
        }
    }
}

/// Which entries a seed-selection pass may consider: optionally only those
/// matching a requirement, optionally only those not yanked.
pub open spec fn considered(
    req: Option<Seq<crate::requirement::ComparatorView>>,
    only_non_yanked: bool,
) -> spec_fn(CrateVersion) -> bool {
    |cv: CrateVersion|
        (match req {
            Some(r) => req_matches(r, cv.version@),
            None => true,
        }) && (only_non_yanked ==> !cv.yanked)
}

impl Crate {
    /// The greatest version the entry publishes among those matching the
    /// requirement (all versions when none is given), optionally skipping
    /// yanked ones.
    pub fn greatest_version(&self, req: Option<&VersionReq>, only_non_yanked: bool) -> (r: Option<
        Version,
    >)
        ensures
            match r {
                Some(v) => Some(v@) == greatest_where(
                    self.versions@,
                    considered(
                        match req {
                            Some(q) => Some(q@),
                            None => None,
                        },
                        only_non_yanked,
                    ),
                ),
                None => greatest_where(
                    self.versions@,
                    considered(
                        match req {
                            Some(q) => Some(q@),
                            None => None,
                        },
                        only_non_yanked,
                    ),
                ) is None,
            },
    {
        let ghost f = considered(
            match req {
                Some(q) => Some(q@),
                None => None,
            },
            only_non_yanked,
        );
        let mut best: Option<Version> = None;
        let mut i: usize = 0;
        while i < self.versions.len()
            invariant
                i <= self.versions@.len(),
                f == considered(
                    match req {
                        Some(q) => Some(q@),
                        None => None,
                    },
                    only_non_yanked,
                ),
                match best {
                    Some(b) => Some(b@) == greatest_where(self.versions@.take(i as int), f),
                    None => greatest_where(self.versions@.take(i as int), f) is None,
                },
            decreases self.versions@.len() - i,
        {
            let cv = &self.versions[i];
            let matches_req = match req {
                Some(q) => q.matches(&cv.version),
                None => true,
            };
            let ok = matches_req && (!only_non_yanked || !cv.yanked);
            proof {
                assert(ok == f(self.versions@[i as int]));
                assert(self.versions@.take(i as int + 1).drop_last() =~= self.versions@.take(
                    i as int,
                ));
                assert(self.versions@.take(i as int + 1).last() == self.versions@[i as int]);
            }
            if ok {
                let replace = match &best {
                    None => true,
                    Some(b) => version_exec_lt(b, &cv.version),
                };
                if replace {
                    best = Some(cv.version.duplicate());
                }
            }
            i = i + 1;
        }
        proof {
            assert(self.versions@.take(self.versions@.len() as int) =~= self.versions@);
        }
        best
    }

    /// Whether the entry publishes `v` and does not mark it yanked.
    pub fn has_non_yanked_version(&self, v: &Version) -> (r: bool)
        ensures
            r == has_non_yanked(self.versions@, v@),
    {
        let mut i: usize = 0;
        while i < self.versions.len()
            invariant
                i <= self.versions@.len(),
                forall|k: int|
                    0 <= k < i ==> !((#[trigger] self.versions@[k]).version@ == v@
                        && !self.versions@[k].yanked),
            decreases self.versions@.len() - i,
        {
            if !self.versions[i].yanked && version_exec_eq(&self.versions[i].version, v) {
                return true;
            }
            i = i + 1;
        }
        false
    }

    /// The entry's non-yanked versions, in catalog order.
    pub fn non_yanked_versions(&self) -> (r: Vec<Version>)
        ensures
            crate::version::version_views(r@) == non_yanked_views(self.versions@),
    {
        let mut out: Vec<Version> = Vec::new();
        let mut i: usize = 0;
        while i < self.versions.len()
            invariant
                i <= self.versions@.len(),
                crate::version::version_views(out@) == non_yanked_views(
                    self.versions@.take(i as int),
                ),
            decreases self.versions@.len() - i,
        {
            proof {
                assert(self.versions@.take(i as int + 1).drop_last() =~= self.versions@.take(
                    i as int,
                ));
                assert(self.versions@.take(i as int + 1).last() == self.versions@[i as int]);
            }
            if !self.versions[i].yanked {
                out.push(self.versions[i].version.duplicate());
            }
            proof {
                assert(crate::version::version_views(out@) =~= non_yanked_views(
                    self.versions@.take(i as int + 1),
                ));
            }
            i = i + 1;
        }
        proof {
            assert(self.versions@.take(self.versions@.len() as int) =~= self.versions@);
        }
        out
    }
}

/// Whatever is selected by [`greatest_where`] does satisfy `f` and is
/// published by the entry.
pub proof fn lemma_greatest_where_sound(s: Seq<CrateVersion>, f: spec_fn(CrateVersion) -> bool)
    requires
        greatest_where(s, f) is Some,
    ensures
        exists|i: int|
            0 <= i < s.len() && f(#[trigger] s[i]) && s[i].version@ == greatest_where(s, f)->0,
    decreases s.len(),
{
    let m = greatest_where(s, f)->0;
    if f(s.last()) && (greatest_where(s.drop_last(), f) is None || m == s.last().version@) {
        assert(s[s.len() - 1].version@ == m && f(s[s.len() - 1]));
    } else {
        lemma_greatest_where_sound(s.drop_last(), f);
        let i = choose|i: int|
            0 <= i < s.drop_last().len() && f(#[trigger] s.drop_last()[i]) && s.drop_last()[
                i].version@ == greatest_where(s.drop_last(), f)->0;
        assert(s[i] == s.drop_last()[i]);
    }
}

/// A version stands in [`non_yanked_views`] exactly when the entry
/// publishes it non-yanked.
pub proof fn lemma_non_yanked_views_contains(s: Seq<CrateVersion>, v: VersionView)
    ensures
        non_yanked_views(s).contains(v) <==> has_non_yanked(s, v),
    decreases s.len(),
{
    if s.len() > 0 {
        lemma_non_yanked_views_contains(s.drop_last(), v);
        let nv = non_yanked_views(s);
        let rest = non_yanked_views(s.drop_last());
        if nv.contains(v) {
            let i = choose|i: int| 0 <= i < nv.len() && nv[i] == v;
            if i < rest.len() {
                assert(rest.contains(v)) by {
                    assert(rest[i] == v);
                }
                let j = choose|j: int|
                    0 <= j < s.drop_last().len() && (#[trigger] s.drop_last()[j]).version@ == v
                        && !s.drop_last()[j].yanked;
                assert(s[j].version@ == v && !s[j].yanked);
            } else {
                assert(!s.last().yanked && s.last().version@ == v);
                assert(s[s.len() - 1].version@ == v && !s[s.len() - 1].yanked);
            }
        }
        if has_non_yanked(s, v) {
            let i = choose|i: int| 0 <= i < s.len() && (#[trigger] s[i]).version@ == v && !s[
                i].yanked;
            if i < s.len() - 1 {
                assert(s.drop_last()[i].version@ == v && !s.drop_last()[i].yanked);
                assert(has_non_yanked(s.drop_last(), v));
                let k = choose|k: int| 0 <= k < rest.len() && rest[k] == v;
                assert(nv[k] == v);
            } else {
                assert(!s.last().yanked);
                assert(nv[nv.len() - 1] == v);
            }
        }
    }
}

} // verus!
