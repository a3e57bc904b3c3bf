//! The validation boundary: how candidate pin sets are checked against the
//! working tree, and the exact command lines handed to the external build
//! tool. The tool itself runs outside this crate; everything recorded about
//! a session — the pins in effect and the checks issued under them — is
//! tracked here.
use vstd::prelude::*;
use vstd::string::StringExecFns;

use crate::error::Error;
use crate::render::{dependency_at_req, req_chars};
use crate::requirement::{ComparatorView, VersionReq};
use crate::version::{Version, VersionView};

verus! {

/// The views of a list of strings, in order.
pub open spec fn strings_views(s: Seq<String>) -> Seq<Seq<char>> {
    s.map_values(|x: String| x@)
}

/// Options controlling how the build is run.
#[derive(Clone, Debug)]
pub struct BuildOptions {
    pub packages: Option<Vec<String>>,
    pub features: Option<Vec<String>>,
    pub release: bool,
}

/// `--package p` for each selected package, in order.
pub open spec fn package_args(ps: Seq<String>) -> Seq<Seq<char>>
    decreases ps.len(),
{
    if ps.len() == 0 {
        Seq::<Seq<char>>::empty()
    } else {
        package_args(ps.drop_last()) + seq!["--package"@, ps.last()@]
    }
}

/// The feature names joined with commas.
pub open spec fn comma_join(fs: Seq<String>) -> Seq<char>
    decreases fs.len(),
{
    if fs.len() == 0 {
        Seq::<char>::empty()
    } else if fs.len() == 1 {
        fs[0]@
    } else {
        comma_join(fs.drop_last()) + seq![','] + fs.last()@
    }
}

/// The build arguments: package selections, then the feature list, then
/// the release flag, each only when present.
pub open spec fn build_args(o: BuildOptions) -> Seq<Seq<char>> {
    (match o.packages {
        Some(ps) => package_args(ps@),
        None => Seq::<Seq<char>>::empty(),
    }) + (match o.features {
        Some(fs) => seq!["--features"@, comma_join(fs@)],
        None => Seq::<Seq<char>>::empty(),
    }) + (if o.release {
        seq!["--release"@]
    } else {
        Seq::<Seq<char>>::empty()
    })
}

impl BuildOptions {
    /// The arguments this option set contributes to a build or test
    /// invocation.
    pub fn arguments(&self) -> (r: Vec<String>)
        ensures
            strings_views(r@) == build_args(*self),
    {
        let mut out: Vec<String> = Vec::new();
        match &self.packages {
            Some(ps) => {
                let mut i: usize = 0;
                while i < ps.len()
                    invariant
                        i <= ps.len(),
                        strings_views(out@) == package_args(ps@.take(i as int)),
                    decreases ps.len() - i,
                {
                    out.push(String::from_str("--package"));
                    out.push(ps[i].clone());
                    proof {
                        assert(ps@.take(i as int + 1).drop_last() =~= ps@.take(i as int));
                        assert(ps@.take(i as int + 1).last() == ps@[i as int]);
                        assert(strings_views(out@) =~= package_args(ps@.take(i as int + 1)));
                    }
                    i = i + 1;
                }
                proof {
                    assert(ps@.take(ps@.len() as int) =~= ps@);
                }
            },
            None => {},
        }
        let ghost after_packages = strings_views(out@);
        match &self.features {
            Some(fs) => {
                let mut joined = String::new();
                let mut k: usize = 0;
                while k < fs.len()
                    invariant
                        k <= fs.len(),
                        joined@ == comma_join(fs@.take(k as int)),
                    decreases fs.len() - k,
                {
                    if k > 0 {
                        joined.append(",");
                    }
                    joined.append(fs[k].as_str());
                    proof {
                        reveal_strlit(",");
                        assert(","@ =~= seq![',']);
                        assert(fs@.take(k as int + 1).drop_last() =~= fs@.take(k as int));
                        assert(fs@.take(k as int + 1).last() == fs@[k as int]);
                        if k == 0 {
                            assert(comma_join(fs@.take(1)) == fs@[0]@);
                            assert(joined@ =~= comma_join(fs@.take(k as int + 1)));
                        } else {
                            assert(joined@ =~= comma_join(fs@.take(k as int + 1)));
                        }
                    }
                    k = k + 1;
                }
                proof {
                    assert(fs@.take(fs@.len() as int) =~= fs@);
                }
                out.push(String::from_str("--features"));
                out.push(joined);
            },
            None => {},
        }
        if self.release {
            out.push(String::from_str("--release"));
        }
        proof {
            assert(strings_views(out@) =~= build_args(*self));
        }
        out
    }
}

impl BuildOptions {
    /// A copy contributing exactly the same arguments.
    pub fn duplicate(&self) -> (r: BuildOptions)
        ensures
            build_args(r) == build_args(*self),
    {
        let packages = match &self.packages {
            None => None,
            Some(ps) => {
                let mut out: Vec<String> = Vec::new();
                let mut i: usize = 0;
                while i < ps.len()
                    invariant
                        i <= ps@.len(),
                        out@.len() == i,
                        forall|k: int| 0 <= k < i ==> out@[k] == ps@[k],
                    decreases ps@.len() - i,
                {
                    out.push(ps[i].clone());
                    i = i + 1;
                }
                proof {
                    assert(out@ =~= ps@);
                }
                Some(out)
            },
        };
        let features = match &self.features {
            None => None,
            Some(fs) => {
                let mut out: Vec<String> = Vec::new();
                let mut i: usize = 0;
                while i < fs.len()
                    invariant
                        i <= fs@.len(),
                        out@.len() == i,
                        forall|k: int| 0 <= k < i ==> out@[k] == fs@[k],
                    decreases fs@.len() - i,
                {
                    out.push(fs[i].clone());
                    i = i + 1;
                }
                proof {
                    assert(out@ =~= fs@);
                }
                Some(out)
            },
        };
        let r = BuildOptions { packages, features, release: self.release };
        proof {
            assert(build_args(r) == build_args(*self));
        }
        r
    }
}

/// Options controlling how tests are run.
#[derive(Clone, Debug)]
pub struct TestOptions {
    pub filters: Vec<String>,
}

/// `--test f` for each filter, in order.
pub open spec fn filter_args(fs: Seq<String>) -> Seq<Seq<char>>
    decreases fs.len(),
{
    if fs.len() == 0 {
        Seq::<Seq<char>>::empty()
    } else {
        filter_args(fs.drop_last()) + seq!["--test"@, fs.last()@]
    }
}

/// The test arguments: nothing when no filter is named, else the `--`
/// separator followed by the filters.
pub open spec fn test_args(o: TestOptions) -> Seq<Seq<char>> {
    if o.filters@.len() == 0 {
        Seq::<Seq<char>>::empty()
    } else {
        seq!["--"@] + filter_args(o.filters@)
    }
}

impl TestOptions {
    /// The arguments this option set contributes to a test invocation.
    pub fn arguments(&self) -> (r: Vec<String>)
        ensures
            strings_views(r@) == test_args(*self),
    {
        let mut out: Vec<String> = Vec::new();
        if self.filters.len() == 0 {
            proof {
                assert(strings_views(out@) =~= test_args(*self));
            }
            return out;
        }
        out.push(String::from_str("--"));
        let mut i: usize = 0;
        while i < self.filters.len()
            invariant
                i <= self.filters.len(),
                strings_views(out@) == seq!["--"@] + filter_args(self.filters@.take(i as int)),
            decreases self.filters.len() - i,
        {
            out.push(String::from_str("--test"));
            out.push(self.filters[i].clone());
            proof {
                assert(self.filters@.take(i as int + 1).drop_last() =~= self.filters@.take(
                    i as int,
                ));
                assert(self.filters@.take(i as int + 1).last() == self.filters@[i as int]);
                assert(filter_args(self.filters@.take(i as int + 1)) =~= filter_args(
                    self.filters@.take(i as int),
                ) + seq!["--test"@, self.filters@[i as int]@]);
                assert(strings_views(out@) =~= seq!["--"@] + filter_args(self.filters@.take(
                    i as int,
                )) + seq!["--test"@, self.filters@[i as int]@]);
                assert(strings_views(out@) =~= seq!["--"@] + filter_args(self.filters@.take(
                    i as int + 1,
                )));
            }
            i = i + 1;
        }
        proof {
            assert(self.filters@.take(self.filters@.len() as int) =~= self.filters@);
        }
        out
    }
}

impl TestOptions {
    /// A copy contributing exactly the same arguments.
    pub fn duplicate(&self) -> (r: TestOptions)
        ensures
            test_args(r) == test_args(*self),
    {
        let mut out: Vec<String> = Vec::new();
        let mut i: usize = 0;
        while i < self.filters.len()
            invariant
                i <= self.filters@.len(),
                out@.len() == i,
                forall|k: int| 0 <= k < i ==> out@[k] == self.filters@[k],
            decreases self.filters@.len() - i,
        {
            out.push(self.filters[i].clone());
            i = i + 1;
        }
        proof {
            assert(out@ =~= self.filters@);
        }
        let r = TestOptions { filters: out };
        proof {
            assert(test_args(r) == test_args(*self));
        }
        r
    }
}

/// A check to run against the repository: either a build or a build plus
/// a test run.
#[derive(Clone, Debug)]
pub enum Check {
    Build { build_opts: BuildOptions },
    RunTest { build_opts: BuildOptions, test_opts: TestOptions },
}

/// The full argument list of a check invocation.
pub open spec fn check_args(c: Check) -> Seq<Seq<char>> {
    match c {
        Check::Build { build_opts } => seq!["build"@] + build_args(build_opts),
        Check::RunTest { build_opts, test_opts } => seq!["test"@] + build_args(build_opts)
            + test_args(test_opts),
    }
}

/// A non-successful build outcome with details to aid troubleshooting.
#[derive(Clone, Debug)]
pub struct BuildFailure {
    pub cargo_error_code: i32,
    pub message: String,
}

/// Captures a build or test failure, with the moment it was observed as a
/// Unix timestamp in milliseconds.
#[derive(Clone, Debug)]
pub struct ValidationError {
    pub tests_failed: bool,
    pub build_failure: Option<BuildFailure>,
    pub runned_at: i64,
}

/// Why a check did not succeed: a validation failure is a recoverable
/// datum ("this pin set does not work"); a fatal error aborts resolution.
#[derive(Debug)]
pub enum CheckFailure {
    Invalid(ValidationError),
    Fatal(Error),
}

/// How one check ended, as the ghost trace records it.
#[derive(Clone, Copy, Debug, PartialEq, Eq, Structural)]
pub enum CheckOutcome {
    Passed,
    Invalid,
    Fatal,
}

/// The outcome a check result denotes.
pub open spec fn check_outcome(r: Result<(), CheckFailure>) -> CheckOutcome {
    match r {
        Ok(_) => CheckOutcome::Passed,
        Err(CheckFailure::Invalid(_)) => CheckOutcome::Invalid,
        Err(CheckFailure::Fatal(_)) => CheckOutcome::Fatal,
    }
}

/// One record of the check trace: the pin map a check observed, and how
/// it ended.
pub type CheckRecord = (Map<Seq<char>, VersionView>, CheckOutcome);

/// The abstract boundary to the working tree. One concrete implementation
/// drives the external build tool; tests substitute scripted ones. None of
/// its methods carries a contract: everything the resolver relies on is
/// recorded by [`Session`], which owns every call.
pub trait RepoValidator {
    /// Release scratch state.
    fn clean(&mut self);

    /// Persist a requirement expression for `name` into the manifest.
    fn set_dependency_req(&mut self, name: &String, version_req: &VersionReq) -> Result<(), ()>;

    /// Pin `name` to exactly `version`.
    fn set_dependency(&mut self, name: &String, version: &Version) -> Result<(), ()>;

    /// Pin every named dependency at once, before the baseline check.
    fn set_dependencies(&mut self, packages: &Vec<(String, Version)>) -> Result<(), ()>;

    /// Wait out the mandatory inter-probe cooldown that throttles the
    /// downstream toolchain.
    fn cooldown(&mut self);

    /// Run a check of the working tree under the pins currently in effect.
    fn run_check(&mut self, check: &Check) -> Result<(), CheckFailure>;
}

/// The pin map recorded by a bulk pin: later entries overwrite earlier
/// ones of the same name.
pub open spec fn pins_map(s: Seq<(String, Version)>) -> Map<Seq<char>, VersionView>
    decreases s.len(),
{
    if s.len() == 0 {
        Map::<Seq<char>, VersionView>::empty()
    } else {
        pins_map(s.drop_last()).insert(s.last().0@, s.last().1@)
    }
}

/// A validator together with the ghost record of everything asked of it:
/// the pins currently requested, the pin map in effect at each check that
/// was issued, and the requirements written back. Every verified caller
/// goes through this wrapper, so the record is complete.
pub struct Session<V> {
    pub validator: V,
    /// The pin currently requested for each dependency name.
    pub pins: Ghost<Map<Seq<char>, VersionView>>,
    /// For each check issued so far, in order, the pin map in effect when
    /// it ran and the outcome the validator reported.
    pub checks: Ghost<Seq<CheckRecord>>,
    /// Each requirement written back, in order.
    pub written: Ghost<Seq<(Seq<char>, Seq<ComparatorView>)>>,
}

impl<V: RepoValidator> Session<V> {
    /// A fresh session: nothing pinned, nothing checked, nothing written.
    pub fn new(validator: V) -> (r: Session<V>)
        ensures
            r.pins@ == Map::<Seq<char>, VersionView>::empty(),
            r.checks@ == Seq::<CheckRecord>::empty(),
            r.written@ == Seq::<(Seq<char>, Seq<ComparatorView>)>::empty(),
    {
        Session {
            validator,
            pins: Ghost(Map::empty()),
            checks: Ghost(Seq::empty()),
            written: Ghost(Seq::empty()),
        }
    }

    /// Pin one dependency to an exact version.
    pub fn pin(&mut self, name: &String, version: &Version) -> (r: Result<(), ()>)
        ensures
            final(self).pins@ == old(self).pins@.insert(name@, version@),
            final(self).checks@ == old(self).checks@,
            final(self).written@ == old(self).written@,
    {
        let r = self.validator.set_dependency(name, version);
        self.pins = Ghost(self.pins@.insert(name@, version@));
        r
    }

    /// Pin every listed dependency at once.
    pub fn pin_all(&mut self, packages: &Vec<(String, Version)>) -> (r: Result<(), ()>)
        ensures
            final(self).pins@ == pins_map(packages@),
            final(self).checks@ == old(self).checks@,
            final(self).written@ == old(self).written@,
    {
        let r = self.validator.set_dependencies(packages);
        self.pins = Ghost(pins_map(packages@));
        r
    }

    /// Wait out the inter-probe cooldown.
    pub fn cooldown(&mut self)
        ensures
            final(self).pins@ == old(self).pins@,
            final(self).checks@ == old(self).checks@,
            final(self).written@ == old(self).written@,
    {
        self.validator.cooldown();
    }

    /// Run one check; the ghost record notes the pins it observed and how
    /// it ended, so the trace decides what a caller may claim about a
    /// verdict.
    pub fn run_check(&mut self, check: &Check) -> (r: Result<(), CheckFailure>)
        ensures
            final(self).checks@ == old(self).checks@.push((old(self).pins@, check_outcome(r))),
            final(self).pins@ == old(self).pins@,
            final(self).written@ == old(self).written@,
    {
        let r = self.validator.run_check(check);
        let ghost oc = check_outcome(r);
        self.checks = Ghost(self.checks@.push((self.pins@, oc)));
        r
    }

    /// Write one resolved requirement back into the manifest.
    pub fn write_requirement(&mut self, name: &String, req: &VersionReq) -> (r: Result<(), ()>)
        ensures
            final(self).written@ == old(self).written@.push((name@, req@)),
            final(self).pins@ == old(self).pins@,
            final(self).checks@ == old(self).checks@,
    {
        let r = self.validator.set_dependency_req(name, req);
        self.written = Ghost(self.written@.push((name@, req@)));
        r
    }

    /// Release the validator's scratch state.
    pub fn clean(&mut self)
        ensures
            final(self).pins@ == old(self).pins@,
            final(self).checks@ == old(self).checks@,
            final(self).written@ == old(self).written@,
    {
        self.validator.clean();
    }
}

/// The concrete command assembly for a cargo-style build tool: which
/// program to run and the exact argument lists of each operation. Running
/// the assembled command is left to the caller that owns the process
/// boundary.
pub struct CargoRepoValidator {
    pub cargo_command: String,
}

impl CargoRepoValidator {
    /// A validator invoking the named program, `cargo` when none is given.
    pub fn new(cargo_command: Option<String>) -> (r: Self)
        ensures
            r.cargo_command@ == match cargo_command {
                Some(c) => c@,
                None => "cargo"@,
            },
    {
        let command = match cargo_command {
            Some(c) => c,
            None => String::from_str("cargo"),
        };
        CargoRepoValidator { cargo_command: command }
    }

    /// The arguments that write `name@requirement` into the manifest.
    pub fn add_arguments(name: &String, req: &VersionReq) -> (r: Vec<String>)
        ensures
            strings_views(r@) == seq!["add"@, name@ + seq!['@'] + req_chars(req@)],
    {
        let mut out: Vec<String> = Vec::new();
        out.push(String::from_str("add"));
        out.push(dependency_at_req(name, req));
        proof {
            assert(strings_views(out@) =~= seq!["add"@, name@ + seq!['@'] + req_chars(req@)]);
        }
        out
    }

    /// The arguments of one check invocation.
    pub fn check_arguments(check: &Check) -> (r: Vec<String>)
        ensures
            strings_views(r@) == check_args(*check),
    {
        let mut out: Vec<String> = Vec::new();
        match check {
            Check::Build { build_opts } => {
                out.push(String::from_str("build"));
                let mut rest = build_opts.arguments();
                out.append(&mut rest);
            },
            Check::RunTest { build_opts, test_opts } => {
                out.push(String::from_str("test"));
                let mut rest = build_opts.arguments();
                out.append(&mut rest);
                let mut filters = test_opts.arguments();
                out.append(&mut filters);
            },
        }
        proof {
            assert(strings_views(out@) =~= check_args(*check));
        }
        out
    }

    /// Classify one finished check invocation: exit status zero passes;
    /// any other status is a validation failure carrying the diagnostics —
    /// a failed test run keeps no build transcript, a failed build keeps
    /// the exit status and the captured standard-error text, both stamped
    /// with the caller's clock reading.
    pub fn classify_exit(status: i32, stderr_text: String, is_test: bool, timestamp: i64) -> (r:
        Result<(), CheckFailure>)
        ensures
            (status == 0) <==> r is Ok,
            status != 0 ==> (match r {
                Err(CheckFailure::Invalid(v)) => {
                    &&& v.tests_failed == is_test
                    &&& v.runned_at == timestamp
                    &&& (is_test ==> v.build_failure is None)
                    &&& (!is_test ==> (match v.build_failure {
                        Some(bf) => bf.cargo_error_code == status && bf.message == stderr_text,
                        None => false,
                    }))
                },
                _ => false,
            }),
    {
        if status == 0 {
            return Ok(());
        }
        let build_failure = if is_test {
            None
        } else {
            Some(BuildFailure { cargo_error_code: status, message: stderr_text })
        };
        Err(
            CheckFailure::Invalid(
                ValidationError { tests_failed: is_test, build_failure, runned_at: timestamp },
            ),
        )
    }

    /// The arguments of the cleanup invocation.
    pub fn clean_arguments() -> (r: Vec<String>)
        ensures
            strings_views(r@) == seq!["clean"@],
    {
        let mut out: Vec<String> = Vec::new();
        out.push(String::from_str("clean"));
        proof {
            assert(strings_views(out@) =~= seq!["clean"@]);
        }
        out
    }
}

} // verus!
