//! Command-line assembly for the build tool, the probe memoizer's
//! at-most-once behaviour, and the cache freshness rule.
use cargo_compat::cache::CrateCache;
use cargo_compat::cache::CrateCacheEntry;
use cargo_compat::crates::Crate;
use cargo_compat::probe::{probe, ProbeLedger};
use cargo_compat::requirement::VersionReq;
use cargo_compat::validator::{
    BuildOptions, CargoRepoValidator, Check, CheckFailure, RepoValidator, Session, TestOptions,
};
use cargo_compat::version::Version;

struct CountingValidator {
    checks: usize,
    pins: usize,
}

impl RepoValidator for CountingValidator {
    fn clean(&mut self) {}

    fn set_dependency_req(&mut self, _name: &String, _req: &VersionReq) -> Result<(), ()> {
        Ok(())
    }

    fn set_dependency(&mut self, _name: &String, _version: &Version) -> Result<(), ()> {
        self.pins += 1;
        Ok(())
    }

    fn set_dependencies(&mut self, _packages: &Vec<(String, Version)>) -> Result<(), ()> {
        Ok(())
    }

    fn cooldown(&mut self) {}

    fn run_check(&mut self, _check: &Check) -> Result<(), CheckFailure> {
        self.checks += 1;
        Ok(())
    }
}

#[test]
fn build_arguments_in_order() {
    let opts = BuildOptions {
        packages: Some(vec![String::from("a"), String::from("b")]),
        features: Some(vec![String::from("x"), String::from("y")]),
        release: true,
    };
    assert_eq!(
        opts.arguments(),
        vec!["--package", "a", "--package", "b", "--features", "x,y", "--release"]
    );
}

#[test]
fn build_arguments_empty_when_nothing_set() {
    let opts = BuildOptions { packages: None, features: None, release: false };
    assert_eq!(opts.arguments(), Vec::<String>::new());
}

#[test]
fn test_arguments_use_separator_only_with_filters() {
    let none = TestOptions { filters: vec![] };
    assert_eq!(none.arguments(), Vec::<String>::new());
    let some = TestOptions { filters: vec![String::from("t1"), String::from("t2")] };
    assert_eq!(some.arguments(), vec!["--", "--test", "t1", "--test", "t2"]);
}

#[test]
fn cargo_validator_defaults_to_cargo() {
    let v = CargoRepoValidator::new(None);
    assert_eq!(v.cargo_command, "cargo");
    let w = CargoRepoValidator::new(Some(String::from("/opt/bin/cargo")));
    assert_eq!(w.cargo_command, "/opt/bin/cargo");
}

#[test]
fn check_arguments_for_build_and_test() {
    let build_opts = BuildOptions {
        packages: Some(vec![String::from("core")]),
        features: None,
        release: false,
    };
    let check = Check::Build { build_opts };
    assert_eq!(
        CargoRepoValidator::check_arguments(&check),
        vec!["build", "--package", "core"]
    );
    let check = Check::RunTest {
        build_opts: BuildOptions { packages: None, features: None, release: true },
        test_opts: TestOptions { filters: vec![String::from("smoke")] },
    };
    assert_eq!(
        CargoRepoValidator::check_arguments(&check),
        vec!["test", "--release", "--", "--test", "smoke"]
    );
    assert_eq!(CargoRepoValidator::clean_arguments(), vec!["clean"]);
}

#[test]
fn add_arguments_pin_a_requirement() {
    let name = String::from("serde");
    let req = VersionReq::exact_version(&Version::new(1, 0, 0));
    assert_eq!(CargoRepoValidator::add_arguments(&name, &req), vec!["add", "serde@=1.0.0"]);
}

#[test]
fn memoizer_probes_each_version_at_most_once() {
    let mut session = Session::new(CountingValidator { checks: 0, pins: 0 });
    let mut ledger = ProbeLedger::new();
    let name = String::from("dep");
    let v = Version::new(1, 0, 0);
    let check = Check::Build {
        build_opts: BuildOptions { packages: None, features: None, release: false },
    };
    let first = probe(&mut ledger, &mut session, &name, &v, &check).unwrap();
    assert!(first);
    assert_eq!(session.validator.checks, 1);
    assert_eq!(ledger.probe_count(), 1);
    // The second query returns the recorded verdict without touching the
    // validator at all.
    let second = probe(&mut ledger, &mut session, &name, &v, &check).unwrap();
    assert!(second);
    assert_eq!(session.validator.checks, 1);
    assert_eq!(session.validator.pins, 1);
    assert_eq!(ledger.probe_count(), 1);
}

#[test]
fn exit_classification_carries_the_diagnostics() {
    assert!(CargoRepoValidator::classify_exit(0, String::new(), false, 5).is_ok());
    match CargoRepoValidator::classify_exit(101, String::from("boom"), false, 5) {
        Err(CheckFailure::Invalid(v)) => {
            assert!(!v.tests_failed);
            assert_eq!(v.runned_at, 5);
            let bf = v.build_failure.expect("a build failure keeps its transcript");
            assert_eq!(bf.cargo_error_code, 101);
            assert_eq!(bf.message, "boom");
        }
        _ => panic!("expected a validation failure"),
    }
    match CargoRepoValidator::classify_exit(1, String::new(), true, 9) {
        Err(CheckFailure::Invalid(v)) => {
            assert!(v.tests_failed);
            assert!(v.build_failure.is_none());
        }
        _ => panic!("expected a validation failure"),
    }
}

fn entry(name: &str, fetched_at: i64) -> (String, CrateCacheEntry) {
    (
        String::from(name),
        CrateCacheEntry {
            krate: Crate {
                name: String::from(name),
                description: None,
                created_at: 0,
                updated_at: 0,
                versions: vec![],
            },
            last_fetched_at: fetched_at,
        },
    )
}

#[test]
fn cache_drops_only_expired_entries() {
    let mut cache = CrateCache::new();
    cache.entries.push(entry("fresh", 1_000));
    cache.entries.push(entry("stale", 0));
    cache.entries.push(entry("edge", 500));
    assert_eq!(cache.size(), 3);
    // At time 1500 with a validity window of 1000 seconds: "stale" has age
    // 1500, "edge" exactly 1000 (no longer fresh), "fresh" 500.
    cache.filter_expired_entries(1_000, 1_500);
    assert_eq!(cache.size(), 1);
    assert_eq!(cache.entries[0].0, "fresh");
}

#[test]
fn cache_freshness_is_strict() {
    assert!(CrateCache::is_fresh(1_000, 1_000, 1_999));
    assert!(!CrateCache::is_fresh(1_000, 1_000, 2_000));
    // Extreme timestamps do not overflow the comparison.
    assert!(!CrateCache::is_fresh(i64::MIN, 1_000, i64::MAX));
    assert!(CrateCache::is_fresh(i64::MAX, 1_000, i64::MIN));
}
