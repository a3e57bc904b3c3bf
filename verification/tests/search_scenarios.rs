//! End-to-end searcher scenarios: concrete version lists, scripted
//! verdicts, and the exact probes and requirement each run must produce.
use cargo_compat::probe::ProbeLedger;
use cargo_compat::render::req_to_string;
use cargo_compat::requirement::VersionReq;
use cargo_compat::search::binary_search_bounds;
use cargo_compat::search::interval_to_req;
use cargo_compat::simplify::simplify_version_req;
use cargo_compat::validator::{
    BuildOptions, Check, CheckFailure, RepoValidator, Session, ValidationError,
};
use cargo_compat::version::Version;

struct Scripted {
    current: Option<Version>,
    failing: Vec<Version>,
    probed: Vec<Version>,
    checks: usize,
    hard_error: bool,
}

impl Scripted {
    fn new(failing: Vec<Version>) -> Scripted {
        Scripted { current: None, failing, probed: Vec::new(), checks: 0, hard_error: false }
    }
}

impl RepoValidator for Scripted {
    fn clean(&mut self) {}

    fn set_dependency_req(&mut self, _name: &String, _req: &VersionReq) -> Result<(), ()> {
        Ok(())
    }

    fn set_dependency(&mut self, _name: &String, version: &Version) -> Result<(), ()> {
        self.current = Some(version.clone());
        self.probed.push(version.clone());
        Ok(())
    }

    fn set_dependencies(&mut self, _packages: &Vec<(String, Version)>) -> Result<(), ()> {
        Ok(())
    }

    fn cooldown(&mut self) {}

    fn run_check(&mut self, _check: &Check) -> Result<(), CheckFailure> {
        self.checks += 1;
        if self.hard_error {
            return Err(CheckFailure::Fatal(cargo_compat::error::Error::Io {
                message: String::from("tool gone"),
            }));
        }
        match &self.current {
            None => Ok(()),
            Some(v) => {
                if self.failing.contains(v) {
                    Err(CheckFailure::Invalid(ValidationError {
                        tests_failed: false,
                        build_failure: None,
                        runned_at: 0,
                    }))
                } else {
                    Ok(())
                }
            }
        }
    }
}

fn build_check() -> Check {
    Check::Build { build_opts: BuildOptions { packages: None, features: None, release: false } }
}

fn run_search(
    versions: Vec<Version>,
    seed_index: usize,
    failing: Vec<Version>,
) -> (Vec<Version>, String, usize) {
    let mut session = Session::new(Scripted::new(failing));
    let mut ledger = ProbeLedger::new();
    let name = String::from("dep");
    let check = build_check();
    let bounds = binary_search_bounds(&mut session, &mut ledger, &name, &versions, seed_index, &check)
        .expect("search should complete");
    let raw = interval_to_req(&bounds, &versions);
    let simplified = simplify_version_req(raw, &versions);
    (session.validator.probed, req_to_string(&simplified), ledger.probe_count())
}

#[test]
fn full_acceptance_probes_ends_and_yields_star() {
    let versions = vec![
        Version::new(1, 0, 0),
        Version::new(1, 1, 0),
        Version::new(1, 2, 0),
        Version::new(2, 0, 0),
    ];
    let (probed, req, _) = run_search(versions, 1, vec![]);
    assert_eq!(probed, vec![Version::new(1, 0, 0), Version::new(2, 0, 0)]);
    assert_eq!(req, "*");
}

#[test]
fn caret_major_interval() {
    let versions = vec![
        Version::new(1, 0, 0),
        Version::new(1, 1, 0),
        Version::new(1, 2, 0),
        Version::new(2, 0, 0),
    ];
    let (probed, req, _) = run_search(versions, 1, vec![Version::new(2, 0, 0)]);
    assert_eq!(
        probed,
        vec![Version::new(1, 0, 0), Version::new(2, 0, 0), Version::new(1, 2, 0)]
    );
    assert_eq!(req, "^1");
}

#[test]
fn exact_pin_when_both_neighbors_fail() {
    let versions = vec![Version::new(0, 1, 0), Version::new(0, 2, 0), Version::new(0, 3, 0)];
    let (probed, req, _) = run_search(
        versions,
        1,
        vec![Version::new(0, 1, 0), Version::new(0, 3, 0)],
    );
    assert_eq!(probed, vec![Version::new(0, 1, 0), Version::new(0, 3, 0)]);
    assert_eq!(req, "=0.2.0");
}

#[test]
fn one_sided_upper_becomes_star() {
    let versions = vec![Version::new(1, 0, 0), Version::new(1, 1, 0), Version::new(1, 2, 0)];
    let (probed, req, _) = run_search(versions, 0, vec![]);
    assert_eq!(probed, vec![Version::new(1, 0, 0), Version::new(1, 2, 0)]);
    assert_eq!(req, "*");
}

#[test]
fn single_candidate_emits_exact_seed() {
    let versions = vec![Version::new(3, 1, 4)];
    let (probed, req, _) = run_search(versions, 0, vec![]);
    // The one candidate is probed once for each side, memoized the second
    // time, so the validator sees it once.
    assert_eq!(probed, vec![Version::new(3, 1, 4)]);
    assert_eq!(req, "*");
}

#[test]
fn probe_budget_within_logarithmic_bound() {
    // Sixteen candidates, seed in the middle, failures at both extremes:
    // the searcher may spend at most 2*ceil(log2(16+1)) + 2 = 12 probes.
    let mut versions = Vec::new();
    for minor in 0..16u64 {
        versions.push(Version::new(1, minor, 0));
    }
    let failing = vec![Version::new(1, 0, 0), Version::new(1, 15, 0)];
    let (probed, _req, count) = run_search(versions, 8, failing);
    assert!(count <= 12, "spent {} probes", count);
    assert_eq!(probed.len(), count);
}

#[test]
fn hard_error_aborts_search() {
    let versions = vec![Version::new(1, 0, 0), Version::new(1, 1, 0)];
    let mut validator = Scripted::new(vec![]);
    validator.hard_error = true;
    let mut session = Session::new(validator);
    let mut ledger = ProbeLedger::new();
    let name = String::from("dep");
    let check = build_check();
    let r = binary_search_bounds(&mut session, &mut ledger, &name, &versions, 1, &check);
    assert!(r.is_err());
    // The erroring probe recorded no verdict.
    assert_eq!(ledger.probe_count(), 0);
}
