//! The semantic-version model: ordering including pre-release precedence,
//! requirement matching for every operator, and sorting.
use cargo_compat::requirement::{Comparator, Op, VersionReq};
use cargo_compat::version::{
    pre_exec_eq, sort_versions, version_exec_eq, version_exec_lt, PreIdent, Version,
};

fn txt(s: &str) -> PreIdent {
    PreIdent::Txt(s.chars().collect())
}

fn pre_version(triple: (u64, u64, u64), pre: Vec<PreIdent>) -> Version {
    Version { major: triple.0, minor: triple.1, patch: triple.2, pre }
}

fn comparator(op: Op, major: u64, minor: Option<u64>, patch: Option<u64>) -> Comparator {
    Comparator { op, major, minor, patch, pre: vec![] }
}

fn req(comparators: Vec<Comparator>) -> VersionReq {
    VersionReq { comparators }
}

#[test]
fn triple_ordering_is_lexicographic() {
    assert!(version_exec_lt(&Version::new(1, 2, 3), &Version::new(1, 2, 4)));
    assert!(version_exec_lt(&Version::new(1, 2, 3), &Version::new(1, 3, 0)));
    assert!(version_exec_lt(&Version::new(1, 9, 9), &Version::new(2, 0, 0)));
    assert!(!version_exec_lt(&Version::new(2, 0, 0), &Version::new(1, 9, 9)));
    assert!(!version_exec_lt(&Version::new(1, 2, 3), &Version::new(1, 2, 3)));
}

#[test]
fn prerelease_precedence_chain() {
    // The semver precedence chain:
    // 1.0.0-alpha < 1.0.0-alpha.1 < 1.0.0-alpha.beta < 1.0.0-beta
    //   < 1.0.0-beta.2 < 1.0.0-beta.11 < 1.0.0-rc.1 < 1.0.0
    let chain = vec![
        pre_version((1, 0, 0), vec![txt("alpha")]),
        pre_version((1, 0, 0), vec![txt("alpha"), PreIdent::Num(1)]),
        pre_version((1, 0, 0), vec![txt("alpha"), txt("beta")]),
        pre_version((1, 0, 0), vec![txt("beta")]),
        pre_version((1, 0, 0), vec![txt("beta"), PreIdent::Num(2)]),
        pre_version((1, 0, 0), vec![txt("beta"), PreIdent::Num(11)]),
        pre_version((1, 0, 0), vec![txt("rc"), PreIdent::Num(1)]),
        Version::new(1, 0, 0),
    ];
    for i in 0..chain.len() {
        for j in (i + 1)..chain.len() {
            assert!(
                version_exec_lt(&chain[i], &chain[j]),
                "position {} must order below position {}",
                i,
                j
            );
            assert!(!version_exec_lt(&chain[j], &chain[i]));
        }
    }
}

#[test]
fn version_equality_needs_all_four_components() {
    let plain = Version::new(1, 0, 0);
    let tagged = pre_version((1, 0, 0), vec![txt("alpha")]);
    assert!(!version_exec_eq(&plain, &tagged));
    assert!(version_exec_eq(&plain, &Version::new(1, 0, 0)));
    assert!(pre_exec_eq(&tagged.pre, &vec![txt("alpha")]));
    assert!(!pre_exec_eq(&tagged.pre, &vec![txt("beta")]));
}

#[test]
fn caret_matching_full_triple() {
    let c = req(vec![comparator(Op::Caret, 1, Some(2), Some(3))]);
    assert!(c.matches(&Version::new(1, 2, 3)));
    assert!(c.matches(&Version::new(1, 2, 9)));
    assert!(c.matches(&Version::new(1, 9, 0)));
    assert!(!c.matches(&Version::new(1, 2, 2)));
    assert!(!c.matches(&Version::new(2, 0, 0)));
    assert!(!c.matches(&Version::new(0, 9, 9)));
}

#[test]
fn caret_matching_zero_major_freezes_minor() {
    let c = req(vec![comparator(Op::Caret, 0, Some(2), Some(3))]);
    assert!(c.matches(&Version::new(0, 2, 3)));
    assert!(c.matches(&Version::new(0, 2, 9)));
    assert!(!c.matches(&Version::new(0, 3, 0)));
    let zz = req(vec![comparator(Op::Caret, 0, Some(0), Some(3))]);
    assert!(zz.matches(&Version::new(0, 0, 3)));
    assert!(!zz.matches(&Version::new(0, 0, 4)));
}

#[test]
fn caret_bare_major_matches_whole_major_line() {
    let c = req(vec![comparator(Op::Caret, 1, None, None)]);
    assert!(c.matches(&Version::new(1, 0, 0)));
    assert!(c.matches(&Version::new(1, 9, 9)));
    assert!(!c.matches(&Version::new(2, 0, 0)));
}

#[test]
fn interval_requirement_matches_inclusive_range() {
    let r = req(vec![
        comparator(Op::GreaterEq, 1, Some(0), Some(0)),
        comparator(Op::LessEq, 1, Some(2), Some(0)),
    ]);
    assert!(r.matches(&Version::new(1, 0, 0)));
    assert!(r.matches(&Version::new(1, 1, 5)));
    assert!(r.matches(&Version::new(1, 2, 0)));
    assert!(!r.matches(&Version::new(0, 9, 9)));
    assert!(!r.matches(&Version::new(1, 2, 1)));
}

#[test]
fn exact_requirement_pins_one_version() {
    let r = VersionReq::exact_version(&Version::new(0, 2, 0));
    assert!(r.matches(&Version::new(0, 2, 0)));
    assert!(!r.matches(&Version::new(0, 2, 1)));
    assert!(!r.matches(&pre_version((0, 2, 0), vec![txt("rc")])));
}

#[test]
fn empty_requirement_matches_everything() {
    let r = VersionReq::star();
    assert!(r.matches(&Version::new(0, 0, 1)));
    assert!(r.matches(&Version::new(9, 9, 9)));
    assert!(r.matches(&pre_version((1, 0, 0), vec![txt("alpha")])));
}

#[test]
fn wildcard_pins_named_components() {
    let r = req(vec![comparator(Op::Wildcard, 1, Some(2), None)]);
    assert!(r.matches(&Version::new(1, 2, 0)));
    assert!(r.matches(&Version::new(1, 2, 99)));
    assert!(!r.matches(&Version::new(1, 3, 0)));
}

#[test]
fn greater_eq_orders_through_prerelease() {
    // 1.0.0-beta >= 1.0.0-alpha, but 1.0.0-alpha is not >= 1.0.0.
    let ge_alpha = VersionReq {
        comparators: vec![Comparator {
            op: Op::GreaterEq,
            major: 1,
            minor: Some(0),
            patch: Some(0),
            pre: vec![txt("alpha")],
        }],
    };
    assert!(ge_alpha.matches(&pre_version((1, 0, 0), vec![txt("beta")])));
    assert!(ge_alpha.matches(&Version::new(1, 0, 0)));
    assert!(!ge_alpha.matches(&pre_version((1, 0, 0), vec![txt("aaa")])));

    let ge_plain = req(vec![comparator(Op::GreaterEq, 1, Some(0), Some(0))]);
    assert!(!ge_plain.matches(&pre_version((1, 0, 0), vec![txt("alpha")])));
}

#[test]
fn sorting_orders_versions_ascending() {
    let input = vec![
        Version::new(2, 0, 0),
        Version::new(1, 0, 0),
        pre_version((1, 0, 0), vec![txt("alpha")]),
        Version::new(1, 5, 2),
    ];
    let sorted = sort_versions(&input);
    assert_eq!(
        sorted,
        vec![
            pre_version((1, 0, 0), vec![txt("alpha")]),
            Version::new(1, 0, 0),
            Version::new(1, 5, 2),
            Version::new(2, 0, 0),
        ]
    );
}
