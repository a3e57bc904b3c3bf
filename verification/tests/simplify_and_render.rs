//! The simplifier's canonical forms and their textual rendering, plus the
//! fixed-point behaviour of simplifying twice.
use cargo_compat::render::{dependency_at_req, req_to_string, version_to_string};
use cargo_compat::requirement::{Comparator, Op, VersionReq};
use cargo_compat::simplify::simplify_version_req;
use cargo_compat::version::{PreIdent, Version};

fn txt(s: &str) -> PreIdent {
    PreIdent::Txt(s.chars().collect())
}

fn interval(lo: (u64, u64, u64), hi: (u64, u64, u64)) -> VersionReq {
    VersionReq {
        comparators: vec![
            Comparator {
                op: Op::GreaterEq,
                major: lo.0,
                minor: Some(lo.1),
                patch: Some(lo.2),
                pre: vec![],
            },
            Comparator {
                op: Op::LessEq,
                major: hi.0,
                minor: Some(hi.1),
                patch: Some(hi.2),
                pre: vec![],
            },
        ],
    }
}

#[test]
fn simplifies_to_star_when_everything_matches() {
    let versions = vec![Version::new(1, 0, 0), Version::new(1, 1, 0)];
    let out = simplify_version_req(interval((1, 0, 0), (1, 1, 0)), &versions);
    assert_eq!(req_to_string(&out), "*");
}

#[test]
fn simplifies_to_exact_when_one_version_matches() {
    let versions = vec![Version::new(0, 1, 0), Version::new(0, 2, 0), Version::new(0, 3, 0)];
    let out = simplify_version_req(interval((0, 2, 0), (0, 2, 0)), &versions);
    assert_eq!(req_to_string(&out), "=0.2.0");
}

#[test]
fn simplifies_interval_expressible_as_caret_major() {
    let versions = vec![
        Version::new(1, 0, 0),
        Version::new(1, 1, 0),
        Version::new(1, 2, 0),
        Version::new(2, 0, 0),
    ];
    let out = simplify_version_req(interval((1, 0, 0), (1, 2, 0)), &versions);
    assert_eq!(req_to_string(&out), "^1");
}

#[test]
fn simplifies_interval_expressible_as_caret_minor() {
    // Versions of 1.0.x and 1.1.x: the interval that keeps only 1.1.x is
    // ^1.1, not ^1 (which would also accept 1.0.x).
    let versions = vec![
        Version::new(1, 0, 0),
        Version::new(1, 1, 0),
        Version::new(1, 1, 7),
        Version::new(2, 0, 0),
    ];
    let out = simplify_version_req(interval((1, 1, 0), (1, 1, 7)), &versions);
    assert_eq!(req_to_string(&out), "^1.1");
}

#[test]
fn simplifies_interval_expressible_as_caret_patch() {
    let versions = vec![
        Version::new(1, 1, 0),
        Version::new(1, 1, 5),
        Version::new(1, 1, 7),
        Version::new(2, 0, 0),
    ];
    let out = simplify_version_req(interval((1, 1, 5), (1, 1, 7)), &versions);
    assert_eq!(req_to_string(&out), "^1.1.5");
}

#[test]
fn keeps_raw_interval_when_no_canonical_form_fits() {
    // [1.1.0, 2.0.0] spans a major boundary: no caret covers exactly it.
    let versions = vec![
        Version::new(1, 0, 0),
        Version::new(1, 1, 0),
        Version::new(2, 0, 0),
        Version::new(3, 0, 0),
    ];
    let out = simplify_version_req(interval((1, 1, 0), (2, 0, 0)), &versions);
    assert_eq!(req_to_string(&out), ">=1.1.0, <=2.0.0");
}

#[test]
fn simplifier_preserves_the_matched_set() {
    // Whatever form comes back accepts exactly the versions of the list
    // that the raw requirement accepts.
    let versions = vec![
        Version::new(1, 0, 0),
        Version::new(1, 1, 0),
        Version::new(1, 1, 7),
        Version::new(2, 0, 0),
        Version::new(3, 0, 0),
    ];
    let raws = vec![
        interval((1, 0, 0), (1, 1, 7)),
        interval((1, 1, 0), (2, 0, 0)),
        interval((3, 0, 0), (3, 0, 0)),
        interval((1, 0, 0), (3, 0, 0)),
    ];
    for raw in raws {
        let out = simplify_version_req(raw.clone(), &versions);
        for v in &versions {
            assert_eq!(out.matches(v), raw.matches(v), "matched set changed at {:?}", v);
        }
    }
}

#[test]
fn simplifying_twice_changes_nothing() {
    let catalogs = vec![
        vec![Version::new(1, 0, 0), Version::new(1, 1, 0), Version::new(2, 0, 0)],
        vec![Version::new(0, 1, 0), Version::new(0, 2, 0)],
    ];
    let raws = vec![
        interval((1, 0, 0), (1, 1, 0)),
        interval((0, 2, 0), (0, 2, 0)),
        interval((1, 1, 0), (2, 0, 0)),
    ];
    for versions in &catalogs {
        for raw in &raws {
            let once = simplify_version_req(raw.clone(), versions);
            let twice = simplify_version_req(once.clone(), versions);
            assert_eq!(once, twice);
        }
    }
}

#[test]
fn renders_plain_and_tagged_versions() {
    assert_eq!(version_to_string(&Version::new(1, 2, 3)), "1.2.3");
    assert_eq!(version_to_string(&Version::new(0, 0, 0)), "0.0.0");
    assert_eq!(version_to_string(&Version::new(10, 20, 304)), "10.20.304");
    let tagged = Version {
        major: 1,
        minor: 2,
        patch: 3,
        pre: vec![txt("alpha"), PreIdent::Num(1)],
    };
    assert_eq!(version_to_string(&tagged), "1.2.3-alpha.1");
}

#[test]
fn renders_requirement_forms() {
    assert_eq!(req_to_string(&VersionReq::star()), "*");
    assert_eq!(req_to_string(&VersionReq::exact_version(&Version::new(0, 2, 0))), "=0.2.0");
    let caret = VersionReq {
        comparators: vec![Comparator { op: Op::Caret, major: 1, minor: None, patch: None, pre: vec![] }],
    };
    assert_eq!(req_to_string(&caret), "^1");
    let wild = VersionReq {
        comparators: vec![Comparator {
            op: Op::Wildcard,
            major: 1,
            minor: Some(2),
            patch: None,
            pre: vec![],
        }],
    };
    assert_eq!(req_to_string(&wild), "1.2.*");
    assert_eq!(req_to_string(&interval((1, 0, 0), (1, 2, 0))), ">=1.0.0, <=1.2.0");
}

#[test]
fn renders_dependency_pin_argument() {
    let name = String::from("serde");
    let req = VersionReq::exact_version(&Version::new(1, 0, 197));
    assert_eq!(dependency_at_req(&name, &req), "serde@=1.0.197");
}
