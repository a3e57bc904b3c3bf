//! Already-parsed manifest and lock-file data, as the surrounding tooling
//! hands it to the core: packages with their three dependency lists, and
//! the lock file's `(name, version)` pairs.
use vstd::prelude::*;

use crate::crates::Dependency;
use crate::requirement::{req_matches, ComparatorView};
use crate::version::{Version, VersionView};

verus! {

/// A normalized view of one package with its declared dependencies.
#[derive(Clone, Debug)]
pub struct CargoPackage {
    pub manifest_path: String,
    pub version: Version,
    pub name: String,
    pub dependencies: Vec<Dependency>,
    pub build_dependencies: Vec<Dependency>,
    pub dev_dependencies: Vec<Dependency>,
}

/// Either a single package or the packages of a workspace: the resolver
/// treats both as a flat list of targets.
#[derive(Clone, Debug)]
pub enum Cargo {
    Single(CargoPackage),
    Workspace(Vec<CargoPackage>),
}

/// One `(name, version)` pair of a lock file.
#[derive(Clone, Debug)]
pub struct CargoLockPackages {
    pub name: String,
    pub version: Version,
}

/// The part of a lock file the resolver reads: its package pins. The file
/// is optional; its absence is never fatal.
#[derive(Clone, Debug)]
pub struct CargoLockFile {
    pub packages: Vec<CargoLockPackages>,
}

/// The first lock entry for `name` whose version satisfies `req`, if any.
pub open spec fn lock_pick(
    s: Seq<CargoLockPackages>,
    name: Seq<char>,
    req: Seq<ComparatorView>,
) -> Option<VersionView>
    decreases s.len(),
{
    if s.len() == 0 {
        None
    } else if s[0].name@ == name && req_matches(req, s[0].version@) {
        Some(s[0].version@)
    } else {
        lock_pick(s.drop_first(), name, req)
    }
}

impl CargoLockFile {
    /// The version the lock file pins `name` to, when that pin satisfies
    /// the declared requirement.
    pub fn find_matching(&self, name: &String, req: &crate::requirement::VersionReq) -> (r: Option<
        Version,
    >)
        ensures
            match r {
                Some(v) => Some(v@) == lock_pick(self.packages@, name@, req@),
                None => lock_pick(self.packages@, name@, req@) is None,
            },
    {
        let mut i: usize = 0;
        proof {
            assert(self.packages@.skip(0) =~= self.packages@);
        }
        loop
            invariant
                i <= self.packages@.len(),
                lock_pick(self.packages@, name@, req@) == lock_pick(
                    self.packages@.skip(i as int),
                    name@,
                    req@,
                ),
            decreases self.packages@.len() - i,
        {
            proof {
                assert(self.packages@.skip(i as int).len() == self.packages@.len() - i);
            }
            if i == self.packages.len() {
                return None;
            }
            proof {
                assert(self.packages@.skip(i as int)[0] == self.packages@[i as int]);
            }
            let entry = &self.packages[i];
            if entry.name == *name && req.matches(&entry.version) {
                return Some(entry.version.duplicate());
            }
            proof {
                assert(self.packages@.skip(i as int).drop_first() =~= self.packages@.skip(
                    i as int + 1,
                ));
            }
            i = i + 1;
        }
    }
}

} // verus!
