//! Whole-resolver flows: seeding from locks and catalogs, yanked-seed
//! repair, source-control skipping, the baseline check, and per-dependency
//! pin restoration.
use cargo_compat::cargo::{CargoLockFile, CargoLockPackages, CargoPackage};
use cargo_compat::crates::{Crate, CrateVersion, Dependency};
use cargo_compat::error::Error;
use cargo_compat::render::req_to_string;
use cargo_compat::requirement::{Comparator, Op, VersionReq};
use cargo_compat::resolver::Resolver;
use cargo_compat::validator::{
    BuildOptions, Check, CheckFailure, RepoValidator, Session, ValidationError,
};
use cargo_compat::version::Version;

struct Scripted {
    current: std::collections::BTreeMap<String, (u64, u64, u64)>,
    failing: Vec<Version>,
    pins: Vec<(String, Version)>,
    checks: usize,
    baseline_fails: bool,
}

impl Scripted {
    fn new(failing: Vec<Version>) -> Scripted {
        Scripted {
            current: std::collections::BTreeMap::new(),
            failing,
            pins: Vec::new(),
            checks: 0,
            baseline_fails: false,
        }
    }
}

impl RepoValidator for Scripted {
    fn clean(&mut self) {}

    fn set_dependency_req(&mut self, _name: &String, _req: &VersionReq) -> Result<(), ()> {
        Ok(())
    }

    fn set_dependency(&mut self, name: &String, version: &Version) -> Result<(), ()> {
        self.current
            .insert(name.clone(), (version.major, version.minor, version.patch));
        self.pins.push((name.clone(), version.clone()));
        Ok(())
    }

    fn set_dependencies(&mut self, packages: &Vec<(String, Version)>) -> Result<(), ()> {
        for (name, version) in packages {
            self.current
                .insert(name.clone(), (version.major, version.minor, version.patch));
        }
        Ok(())
    }

    fn cooldown(&mut self) {}

    fn run_check(&mut self, _check: &Check) -> Result<(), CheckFailure> {
        self.checks += 1;
        if self.baseline_fails {
            return Err(CheckFailure::Invalid(ValidationError {
                tests_failed: false,
                build_failure: None,
                runned_at: 7,
            }));
        }
        for v in &self.failing {
            for (major, minor, patch) in self.current.values() {
                if *major == v.major && *minor == v.minor && *patch == v.patch {
                    return Err(CheckFailure::Invalid(ValidationError {
                        tests_failed: false,
                        build_failure: None,
                        runned_at: 0,
                    }));
                }
            }
        }
        Ok(())
    }
}

fn plain_version(cv: (u64, u64, u64), yanked: bool) -> CrateVersion {
    CrateVersion {
        created_at: 0,
        updated_at: 0,
        yanked,
        version: Version::new(cv.0, cv.1, cv.2),
        checksum: String::from("c0ffee"),
        dependencies: None,
    }
}

fn crate_entry(name: &str, versions: Vec<CrateVersion>) -> Crate {
    Crate {
        name: String::from(name),
        description: None,
        created_at: 0,
        updated_at: 0,
        versions,
    }
}

fn caret_req(major: u64, minor: Option<u64>) -> VersionReq {
    VersionReq {
        comparators: vec![Comparator { op: Op::Caret, major, minor, patch: None, pre: vec![] }],
    }
}

fn dependency(name: &str, req: VersionReq, git: bool) -> Dependency {
    Dependency {
        crate_name: String::from(name),
        required_version: req,
        features: vec![],
        git,
        optional: false,
    }
}

fn target(deps: Vec<Dependency>) -> CargoPackage {
    CargoPackage {
        manifest_path: String::from("Cargo.toml"),
        version: Version::new(0, 1, 0),
        name: String::from("workspace-root"),
        dependencies: deps,
        build_dependencies: vec![],
        dev_dependencies: vec![],
    }
}

fn build_opts() -> BuildOptions {
    BuildOptions { packages: None, features: None, release: false }
}

#[test]
fn yanked_seed_is_repaired_to_latest_matching() {
    // The lock file pins serde 1.0.50, but the catalog marks it yanked;
    // the greatest non-yanked version satisfying ^1.0 is 1.0.197.
    let targets = vec![target(vec![dependency("serde", caret_req(1, Some(0)), false)])];
    let lock = CargoLockFile {
        packages: vec![CargoLockPackages {
            name: String::from("serde"),
            version: Version::new(1, 0, 50),
        }],
    };
    let catalog = vec![crate_entry(
        "serde",
        vec![
            plain_version((1, 0, 50), true),
            plain_version((1, 0, 100), false),
            plain_version((1, 0, 197), false),
            plain_version((2, 0, 0), false),
        ],
    )];
    let mut resolver = Resolver::new(
        targets,
        Some(lock),
        catalog,
        Scripted::new(vec![]),
        build_opts(),
        None,
    );
    resolver.populate_default().expect("seeding should succeed");
    assert_eq!(resolver.packages.len(), 1);
    assert_eq!(resolver.packages[0].0, "serde");
    assert_eq!(resolver.packages[0].1, Version::new(1, 0, 197));
}

#[test]
fn lock_pin_is_adopted_when_usable() {
    let targets = vec![target(vec![dependency("serde", caret_req(1, None), false)])];
    let lock = CargoLockFile {
        packages: vec![CargoLockPackages {
            name: String::from("serde"),
            version: Version::new(1, 0, 100),
        }],
    };
    let catalog = vec![crate_entry(
        "serde",
        vec![plain_version((1, 0, 100), false), plain_version((1, 0, 197), false)],
    )];
    let mut resolver = Resolver::new(
        targets,
        Some(lock),
        catalog,
        Scripted::new(vec![]),
        build_opts(),
        None,
    );
    resolver.populate_default().expect("seeding should succeed");
    assert_eq!(resolver.packages[0].1, Version::new(1, 0, 100));
}

#[test]
fn absent_lock_picks_latest_matching() {
    let targets = vec![target(vec![dependency("log", caret_req(0, Some(4)), false)])];
    let catalog = vec![crate_entry(
        "log",
        vec![
            plain_version((0, 4, 10), false),
            plain_version((0, 4, 27), false),
            plain_version((0, 5, 0), false),
        ],
    )];
    let mut resolver =
        Resolver::new(targets, None, catalog, Scripted::new(vec![]), build_opts(), None);
    resolver.populate_default().expect("seeding should succeed");
    assert_eq!(resolver.packages[0].1, Version::new(0, 4, 27));
}

#[test]
fn source_control_dependency_is_skipped() {
    let targets = vec![target(vec![
        dependency("foo", caret_req(1, None), true),
        dependency("serde", caret_req(1, None), false),
    ])];
    let catalog = vec![crate_entry("serde", vec![plain_version((1, 0, 0), false)])];
    let mut resolver =
        Resolver::new(targets, None, catalog, Scripted::new(vec![]), build_opts(), None);
    resolver.populate_default().expect("seeding should succeed");
    assert!(resolver.packages_requirements.iter().all(|p| p.0 != "foo"));
    assert!(resolver.packages.iter().all(|p| p.0 != "foo"));
    assert_eq!(resolver.packages.len(), 1);
    assert_eq!(resolver.packages[0].0, "serde");
}

#[test]
fn dependencies_are_seeded_in_ascending_name_order() {
    // Declared out of order, the requirement list and the seed map both
    // come out ascending by name, so searches and writebacks follow it.
    let targets = vec![target(vec![
        dependency("zeta", caret_req(1, None), false),
        dependency("alpha", caret_req(1, None), false),
        dependency("mid", caret_req(1, None), false),
    ])];
    let catalog = vec![
        crate_entry("zeta", vec![plain_version((1, 0, 0), false)]),
        crate_entry("alpha", vec![plain_version((1, 2, 0), false)]),
        crate_entry("mid", vec![plain_version((1, 1, 0), false)]),
    ];
    let mut resolver =
        Resolver::new(targets, None, catalog, Scripted::new(vec![]), build_opts(), None);
    resolver.populate_default().expect("seeding should succeed");
    let req_names: Vec<&str> =
        resolver.packages_requirements.iter().map(|p| p.0.as_str()).collect();
    assert_eq!(req_names, vec!["alpha", "mid", "zeta"]);
    let seed_names: Vec<&str> = resolver.packages.iter().map(|p| p.0.as_str()).collect();
    assert_eq!(seed_names, vec!["alpha", "mid", "zeta"]);
}

#[test]
fn no_usable_version_is_fatal() {
    // Every published version is yanked: seeding must fail.
    let targets = vec![target(vec![dependency("gone", caret_req(1, None), false)])];
    let catalog = vec![crate_entry("gone", vec![plain_version((1, 0, 0), true)])];
    let mut resolver =
        Resolver::new(targets, None, catalog, Scripted::new(vec![]), build_opts(), None);
    match resolver.populate_default() {
        Err(Error::NoAvailableVersions { name }) => assert_eq!(name, "gone"),
        other => panic!("expected a no-usable-version failure, got {:?}", other.is_ok()),
    }
}

#[test]
fn missing_catalog_entry_is_fatal() {
    let targets = vec![target(vec![dependency("ghost", caret_req(1, None), false)])];
    let mut resolver =
        Resolver::new(targets, None, vec![], Scripted::new(vec![]), build_opts(), None);
    match resolver.populate_default() {
        Err(Error::NoAvailableVersions { name }) => assert_eq!(name, "ghost"),
        other => panic!("expected a missing-entry failure, got {:?}", other.is_ok()),
    }
}

#[test]
fn baseline_failure_aborts_resolution() {
    let targets = vec![target(vec![dependency("serde", caret_req(1, None), false)])];
    let catalog = vec![crate_entry("serde", vec![plain_version((1, 0, 0), false)])];
    let mut validator = Scripted::new(vec![]);
    validator.baseline_fails = true;
    let mut resolver = Resolver::new(targets, None, catalog, validator, build_opts(), None);
    resolver.populate_default().expect("seeding should succeed");
    match resolver.resolve() {
        Err(Error::BaselineInvalid { error }) => assert_eq!(error.runned_at, 7),
        _ => panic!("expected a baseline failure"),
    }
    // Exactly one check ran: the baseline.
    assert_eq!(resolver.session.validator.checks, 1);
}

#[test]
fn resolution_runs_baseline_once_and_restores_seeds() {
    let targets = vec![target(vec![
        dependency("alpha", caret_req(1, None), false),
        dependency("beta", caret_req(0, Some(2)), false),
    ])];
    let catalog = vec![
        crate_entry(
            "alpha",
            vec![
                plain_version((1, 0, 0), false),
                plain_version((1, 1, 0), false),
                plain_version((2, 0, 0), false),
            ],
        ),
        crate_entry(
            "beta",
            vec![plain_version((0, 2, 0), false), plain_version((0, 2, 5), false)],
        ),
    ];
    let failing = vec![Version::new(2, 0, 0)];
    let mut resolver =
        Resolver::new(targets, None, catalog, Scripted::new(failing), build_opts(), None);
    resolver.populate_default().expect("seeding should succeed");
    let seeds: Vec<(String, Version)> = resolver.packages.clone();
    assert_eq!(seeds[0].1, Version::new(1, 1, 0));
    assert_eq!(seeds[1].1, Version::new(0, 2, 5));
    resolver.resolve().expect("resolution should succeed");

    // The pin in effect for each dependency at the end is its seed: the
    // last recorded pin of each name equals the seed.
    for (name, seed) in &seeds {
        let last = resolver
            .session
            .validator
            .pins
            .iter()
            .rev()
            .find(|p| &p.0 == name)
            .expect("each dependency was pinned");
        assert_eq!(&last.1, seed);
    }

    // alpha accepts [1.0.0, 1.1.0] and rejects 2.0.0; beta accepts all.
    let alpha = resolver
        .packages_requirements
        .iter()
        .find(|p| p.0 == "alpha")
        .unwrap();
    assert_eq!(req_to_string(&alpha.1), "^1");
    let beta = resolver
        .packages_requirements
        .iter()
        .find(|p| p.0 == "beta")
        .unwrap();
    assert_eq!(req_to_string(&beta.1), "*");
}

#[test]
fn writeback_records_every_requirement() {
    struct Recording {
        written: Vec<(String, String)>,
    }
    impl RepoValidator for Recording {
        fn clean(&mut self) {}
        fn set_dependency_req(&mut self, name: &String, req: &VersionReq) -> Result<(), ()> {
            self.written.push((name.clone(), req_to_string(req)));
            Ok(())
        }
        fn set_dependency(&mut self, _name: &String, _version: &Version) -> Result<(), ()> {
            Ok(())
        }
        fn set_dependencies(&mut self, _packages: &Vec<(String, Version)>) -> Result<(), ()> {
            Ok(())
        }
        fn cooldown(&mut self) {}
        fn run_check(&mut self, _check: &Check) -> Result<(), CheckFailure> {
            Ok(())
        }
    }
    let mut session = Session::new(Recording { written: Vec::new() });
    let name = String::from("serde");
    let req = VersionReq { comparators: vec![] };
    session.write_requirement(&name, &req).unwrap();
    assert_eq!(session.validator.written, vec![(String::from("serde"), String::from("*"))]);
}
